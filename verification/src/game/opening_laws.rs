//! CR 103.4: What the start of the mulligans does to the game, written out in its parts.

use vstd::prelude::*;
#[allow(unused_imports)]
use crate::game::decision_laws::{first_is_free, numbers_used};
#[allow(unused_imports)]
use crate::game::mulligan::{
    deal_events, dealing_keeps_players, dealt, draw_events, drawable, drawn, libraries_shuffled,
    rng_after_libraries, shuffling_keeps_valid, started, STARTING_HAND_SIZE,
};
#[allow(unused_imports)]
use crate::game::mulligan_laws::{dealing_moves_the_top_cards, transferring_touches_one_player};
#[allow(unused_imports)]
use crate::types::events::GameEvent;
#[allow(unused_imports)]
use crate::types::game_object::ObjectModel;
#[allow(unused_imports)]
use crate::types::game_state::{MulliganDecisionEntry, StateModel};
#[allow(unused_imports)]
use crate::types::identifiers::{ObjectId, PlayerId};
#[allow(unused_imports)]
use crate::types::player::{
    is_position, position_is_unique, position_of, same_ids_same_positions, PlayerModel,
};
#[allow(unused_imports)]
use crate::types::zones::Zone;
#[allow(unused_imports)]
use crate::util::rng::{advanced_by, shuffle_permutes, shuffled, GameRng};
#[allow(unused_imports)]
use crate::util::rng_laws::{arranged, picks_of, shuffling_goes_by_the_numbers_drawn};

verus! {

/// How many numbers the libraries of the first `n` players use up.
pub open spec fn numbers_before(players: Seq<PlayerModel>, n: nat) -> nat
    decreases n,
{
    if n == 0 {
        0
    } else {
        numbers_before(players, (n - 1) as nat) + numbers_used(players[n - 1].library.len())
    }
}

proof fn advancing_in_two_steps(rng: GameRng, m: nat, n: nat)
    ensures
        advanced_by(advanced_by(rng, m), n) == advanced_by(rng, m + n),
    decreases m,
{
    if m > 0 {
        advancing_in_two_steps(rng.advanced(), (m - 1) as nat, n);
    }
}

proof fn libraries_use_the_numbers(players: Seq<PlayerModel>, rng: GameRng, n: nat)
    ensures
        rng_after_libraries(players, rng, n) == advanced_by(rng, numbers_before(players, n)),
    decreases n,
{
    if n > 0 {
        libraries_use_the_numbers(players, rng, (n - 1) as nat);
        let before = numbers_before(players, (n - 1) as nat);
        let used = numbers_used(players[n - 1].library.len());
        advancing_in_two_steps(rng, before, used);
        assert(advanced_by(advanced_by(rng, before), 0) == advanced_by(rng, before));
    }
}

/// The library of the player at place `i`, shuffled by the numbers that the libraries before it
/// have left over.
pub open spec fn deck_of(s: StateModel, i: int) -> Seq<ObjectId> {
    let library = s.players[i].library;
    arranged(
        library,
        library.len(),
        picks_of(advanced_by(s.rng, numbers_before(s.players, i as nat)), library.len()),
    )
}

proof fn drawing_changes_no_more(s: StateModel, player: PlayerId, n: nat)
    requires
        s.has_player(player),
    ensures
        ({
            let t = drawn(s, player, n);
            &&& t == (StateModel { players: t.players, objects: t.objects, ..s })
            &&& t.players.len() == s.players.len()
            &&& t.objects.dom() == s.objects.dom()
        }),
        forall|i: int|
            0 <= i < s.players.len() ==> (#[trigger] drawn(s, player, n).players[i]) == (
            PlayerModel {
                hand: drawn(s, player, n).players[i].hand,
                library: drawn(s, player, n).players[i].library,
                ..s.players[i]
            }),
        forall|id: ObjectId| #[trigger]
            s.objects.contains_key(id) ==> drawn(s, player, n).objects[id] == (ObjectModel {
                zone: drawn(s, player, n).objects[id].zone,
                ..s.objects[id]
            }) && (drawn(s, player, n).objects[id].zone == s.objects[id].zone || drawn(
                s,
                player,
                n,
            ).objects[id].zone == Zone::Hand),
{
    let k = drawable(s, player, n);
    transferring_touches_one_player(s, player, Zone::Library, Zone::Hand, k);
    let t = drawn(s, player, n);
    assert(t.objects.dom() =~= s.objects.dom());
    let at = position_of(s.players, player);
    assert forall|i: int| 0 <= i < s.players.len() implies (#[trigger] t.players[i]) == (
    PlayerModel { hand: t.players[i].hand, library: t.players[i].library, ..s.players[i] }) by {
        if i != at {
            assert(t.players[i] == s.players[i]);
        }
    }
}

proof fn dealing_changes_no_more(s: StateModel, order: Seq<PlayerId>)
    requires
        s.valid(),
        forall|i: int| 0 <= i < order.len() ==> s.has_player(#[trigger] order[i]),
    ensures
        ({
            let t = dealt(s, order);
            &&& t == (StateModel { players: t.players, objects: t.objects, ..s })
            &&& t.players.len() == s.players.len()
            &&& t.objects.dom() == s.objects.dom()
        }),
        forall|i: int|
            0 <= i < s.players.len() ==> (#[trigger] dealt(s, order).players[i]) == (PlayerModel {
                hand: dealt(s, order).players[i].hand,
                library: dealt(s, order).players[i].library,
                ..s.players[i]
            }),
        forall|id: ObjectId| #[trigger]
            s.objects.contains_key(id) ==> dealt(s, order).objects[id] == (ObjectModel {
                zone: dealt(s, order).objects[id].zone,
                ..s.objects[id]
            }) && (dealt(s, order).objects[id].zone == s.objects[id].zone || dealt(
                s,
                order,
            ).objects[id].zone == Zone::Hand),
    decreases order.len(),
{
    if order.len() > 0 {
        let rest = order.drop_last();
        assert forall|i: int| 0 <= i < rest.len() implies s.has_player(#[trigger] rest[i]) by {
            assert(rest[i] == order[i]);
        }
        dealing_changes_no_more(s, rest);
        dealing_keeps_players(s, rest);
        let before = dealt(s, rest);
        let t = dealt(s, order);
        assert(s.has_player(order[order.len() - 1]));
        same_ids_same_positions(s.players, before.players, order.last());
        drawing_changes_no_more(before, order.last(), STARTING_HAND_SIZE as nat);
        assert forall|i: int| 0 <= i < s.players.len() implies (#[trigger] t.players[i]) == (
        PlayerModel {
            hand: t.players[i].hand,
            library: t.players[i].library,
            ..s.players[i]
        }) by {
            assert(before.players[i] == (PlayerModel {
                hand: before.players[i].hand,
                library: before.players[i].library,
                ..s.players[i]
            }));
        }
        assert forall|id: ObjectId| #[trigger] s.objects.contains_key(id) implies t.objects[id] == (
        ObjectModel { zone: t.objects[id].zone, ..s.objects[id] }) && (t.objects[id].zone
            == s.objects[id].zone || t.objects[id].zone == Zone::Hand) by {
            assert(before.objects.dom().contains(id));
            assert(before.objects.contains_key(id));
        }
    }
}

/// CR 103.4: Everyone's library is shuffled by numbers of its own. Who has a seat then holds the
/// top seven cards of it, or all there are, behind what they held; nobody else draws.
pub proof fn everyone_is_dealt_from_the_top(s: StateModel, events: Seq<GameEvent>, i: int)
    requires
        s.valid(),
        0 <= i < s.players.len(),
    ensures
        ({
            let deck = deck_of(s, i);
            let k: int = if !s.seat_order.contains(s.players[i].id) {
                0
            } else if deck.len() < 7 {
                deck.len() as int
            } else {
                7
            };
            started(s, events).state.players[i] == (PlayerModel {
                hand: s.players[i].hand + deck.take(k),
                library: deck.skip(k),
                ..s.players[i]
            })
        }),
{
    let ready = libraries_shuffled(s);
    let t = started(s, events).state;
    let id = s.players[i].id;
    let library = s.players[i].library;
    let rng = rng_after_libraries(s.players, s.rng, i as nat);
    assert(is_position(s.players, id, i)) by {
        assert forall|j: int| 0 <= j < i implies (#[trigger] s.players[j]).id != id by {
            assert(s.players[j].id != s.players[i].id);
        }
    }
    position_is_unique(s.players, id, i);
    shuffling_keeps_valid(s);
    same_ids_same_positions(s.players, ready.players, id);
    libraries_use_the_numbers(s.players, s.rng, i as nat);
    shuffling_goes_by_the_numbers_drawn(library, rng);
    shuffle_permutes(library, rng);
    assert forall|k: int| 0 <= k < s.seat_order.len() implies ready.has_player(
        #[trigger] s.seat_order[k],
    ) by {
        same_ids_same_positions(s.players, ready.players, s.seat_order[k]);
        assert(s.has_player(s.seat_order[k]));
    }
    dealing_moves_the_top_cards(ready, s.seat_order, id);
    dealing_keeps_players(ready, s.seat_order);
    same_ids_same_positions(ready.players, t.players, id);
    dealing_changes_no_more(ready, s.seat_order);
    assert(ready.players[i].library == deck_of(s, i));
    assert(t.players[i] == (PlayerModel {
        hand: t.players[i].hand,
        library: t.players[i].library,
        ..ready.players[i]
    }));
}

/// Starting changes hands, libraries, where the cards dealt are and the generator, and nothing
/// else. The generator has given exactly the numbers the shuffles needed.
pub proof fn starting_changes_no_more(s: StateModel, events: Seq<GameEvent>)
    requires
        s.valid(),
    ensures
        ({
            let t = started(s, events).state;
            &&& t.players.len() == s.players.len()
            &&& t.objects.dom() == s.objects.dom()
            &&& t == (StateModel {
                players: t.players,
                objects: t.objects,
                rng: advanced_by(s.rng, numbers_before(s.players, s.players.len())),
                ..s
            })
        }),
        forall|id: ObjectId| #[trigger]
            s.objects.contains_key(id) ==> started(s, events).state.objects[id] == (ObjectModel {
                zone: started(s, events).state.objects[id].zone,
                ..s.objects[id]
            }) && (started(s, events).state.objects[id].zone == s.objects[id].zone || started(
                s,
                events,
            ).state.objects[id].zone == Zone::Hand),
{
    let ready = libraries_shuffled(s);
    shuffling_keeps_valid(s);
    assert forall|k: int| 0 <= k < s.seat_order.len() implies ready.has_player(
        #[trigger] s.seat_order[k],
    ) by {
        same_ids_same_positions(s.players, ready.players, s.seat_order[k]);
        assert(s.has_player(s.seat_order[k]));
    }
    dealing_changes_no_more(ready, s.seat_order);
    libraries_use_the_numbers(s.players, s.rng, s.players.len());
    assert forall|id: ObjectId| #[trigger] s.objects.contains_key(id) implies started(
        s,
        events,
    ).state.objects[id] == (ObjectModel {
        zone: started(s, events).state.objects[id].zone,
        ..s.objects[id]
    }) && (started(s, events).state.objects[id].zone == s.objects[id].zone || started(
        s,
        events,
    ).state.objects[id].zone == Zone::Hand) by {
        assert(ready.objects.contains_key(id));
    }
}

/// CR 103.5: Everyone with a seat is asked at once, in turn order, with no mulligan taken, and is
/// told whether the first one is free.
pub proof fn everyone_decides_at_once(s: StateModel, events: Seq<GameEvent>)
    ensures
        ({
            let next = started(s, events).next;
            &&& next is MulliganDecision
            &&& next->MulliganDecision_pending.len() == s.seat_order.len()
            &&& forall|i: int|
                0 <= i < s.seat_order.len() ==> #[trigger] next->MulliganDecision_pending[i] == (
                MulliganDecisionEntry { player: s.seat_order[i], mulligan_count: 0 })
            &&& next->free_first_mulligan == first_is_free(s)
        }),
{
}

/// What dealing some cards to a player reports.
pub open spec fn deal_report(cards: Seq<ObjectId>, player: PlayerId) -> Seq<GameEvent> {
    cards.map_values(
        |id: ObjectId|
            GameEvent::ZoneChanged { object_id: id, from: Zone::Library, to: Zone::Hand },
    ).push(GameEvent::CardsDrawn { player_id: player, count: 7 })
}

/// The top seven cards of a player's library, or all there are.
pub open spec fn top_seven(s: StateModel, player: PlayerId) -> Seq<ObjectId> {
    let library = s.zone_list(player, Zone::Library);
    library.take(
        if library.len() < 7 {
            library.len() as int
        } else {
            7
        },
    )
}

proof fn deals_are_reported_in_turn(s: StateModel, order: Seq<PlayerId>)
    requires
        s.valid(),
        order.no_duplicates(),
        forall|i: int| 0 <= i < order.len() ==> s.has_player(#[trigger] order[i]),
    ensures
        deal_events(s, order) == order.map_values(
            |player: PlayerId| deal_report(top_seven(s, player), player),
        ).flatten_alt(),
    decreases order.len(),
{
    let report = |player: PlayerId| deal_report(top_seven(s, player), player);
    let reports = order.map_values(report);
    if order.len() > 0 {
        let rest = order.drop_last();
        let last = order.last();
        assert forall|i: int| 0 <= i < rest.len() implies s.has_player(#[trigger] rest[i]) by {
            assert(rest[i] == order[i]);
        }
        assert forall|i: int, j: int| 0 <= i < j < rest.len() implies rest[i] != rest[j] by {
            assert(order[i] != order[j]);
        }
        deals_are_reported_in_turn(s, rest);
        dealing_keeps_players(s, rest);
        let before = dealt(s, rest);
        assert(s.has_player(order[order.len() - 1]));
        same_ids_same_positions(s.players, before.players, last);
        dealing_moves_the_top_cards(s, rest, last);
        assert(!rest.contains(last)) by {
            if rest.contains(last) {
                let i = choose|i: int| 0 <= i < rest.len() && rest[i] == last;
                assert(order[i] == order[order.len() - 1]);
            }
        }
        let library = s.zone_list(last, Zone::Library);
        assert(before.zone_list(last, Zone::Library) =~= library);
        assert(draw_events(before, last, STARTING_HAND_SIZE) =~= report(last));
        assert(reports.drop_last() =~= rest.map_values(report));
        assert(reports.last() == report(last));
    } else {
        assert(deal_events(s, order) =~= reports.flatten_alt());
    }
}

/// Starting reports that it does, then for each seat in turn order every card dealt, from the top
/// down, and that seven were to be drawn.
pub proof fn starting_reports_every_deal(s: StateModel, events: Seq<GameEvent>)
    requires
        s.valid(),
    ensures
        started(s, events).events == events.push(GameEvent::MulliganStarted)
            + s.seat_order.map_values(
            |player: PlayerId|
                deal_report(
                    started(s, events).state.zone_list(player, Zone::Hand).skip(
                        s.zone_list(player, Zone::Hand).len() as int,
                    ),
                    player,
                ),
        ).flatten_alt(),
{
    let ready = libraries_shuffled(s);
    let t = started(s, events).state;
    shuffling_keeps_valid(s);
    assert forall|k: int| 0 <= k < s.seat_order.len() implies ready.has_player(
        #[trigger] s.seat_order[k],
    ) by {
        same_ids_same_positions(s.players, ready.players, s.seat_order[k]);
        assert(s.has_player(s.seat_order[k]));
    }
    deals_are_reported_in_turn(ready, s.seat_order);
    let one = |player: PlayerId| deal_report(top_seven(ready, player), player);
    let two = |player: PlayerId|
        deal_report(
            t.zone_list(player, Zone::Hand).skip(s.zone_list(player, Zone::Hand).len() as int),
            player,
        );
    assert(s.seat_order.map_values(one) =~= s.seat_order.map_values(two)) by {
        assert forall|k: int| 0 <= k < s.seat_order.len() implies one(#[trigger] s.seat_order[k])
            == two(s.seat_order[k]) by {
            let player = s.seat_order[k];
            assert(ready.has_player(player));
            assert(s.has_player(player));
            dealing_moves_the_top_cards(ready, s.seat_order, player);
            assert(s.seat_order.contains(player));
            let hand = s.zone_list(player, Zone::Hand);
            assert(ready.zone_list(player, Zone::Hand) == hand);
            assert((hand + top_seven(ready, player)).skip(hand.len() as int) =~= top_seven(
                ready,
                player,
            ));
        }
    }
}

} // verus!
