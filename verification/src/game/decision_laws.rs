//! CR 103.5: What a decision and a choice of cards do to the game, written out in its parts.

use vstd::prelude::*;
#[allow(unused_imports)]
use crate::game::mulligan::{
    bottom_count, bottom_index, bottom_phase, bottom_refusal, bottom_step, bottomed,
    bottomed_events, chosen_cards_exist, decision_index, decision_refusal, decision_state,
    decision_step, drawable, finished, first_missing, grants_free_first, is_bottom_of,
    is_decision_of, must_bottom, must_decide, owed_bottoms, owed_by, redraw_events, redrawn,
    reshuffle_lists, reshuffled,
};
#[allow(unused_imports)]
use crate::game::mulligan_laws::{
    bottoming_touches_one_player, chosen_cards_go_to_the_bottom, redrawn_cards,
};
#[allow(unused_imports)]
use crate::game::zones::transfer_lists;
#[allow(unused_imports)]
use crate::types::events::GameEvent;
#[allow(unused_imports)]
use crate::types::format::{free_first_format, GameFormat};
#[allow(unused_imports)]
use crate::types::game_object::ObjectModel;
#[allow(unused_imports)]
use crate::types::game_state::{MulliganBottomEntry, MulliganDecisionEntry, StateModel, WaitModel};
#[allow(unused_imports)]
use crate::types::identifiers::{ObjectId, PlayerId};
#[allow(unused_imports)]
use crate::types::player::{position_of, same_ids_same_positions};
#[allow(unused_imports)]
use crate::types::zones::Zone;
#[allow(unused_imports)]
use crate::util::rng::advanced_by;
#[allow(unused_imports)]
use crate::util::rng_laws::{arranged, picks_of};
#[allow(unused_imports)]
use crate::util::text::decimal;

verus! {

/// CR 103.5c: The first mulligan is free with three seats or more, and in Commander and Brawl.
pub open spec fn first_is_free(s: StateModel) -> bool {
    s.seat_order.len() > 2 || s.format_config.format == GameFormat::Commander
        || s.format_config.format == GameFormat::Brawl
}

/// Whether the first mulligan is free goes by the seats and the format, and what a number of
/// mulligans costs by whether it is.
pub proof fn seats_and_format_decide_what_is_free(s: StateModel, count: u8, free_first: bool)
    ensures
        grants_free_first(s) <==> first_is_free(s),
        free_first_format(s.format_config.format) <==> s.format_config.format
            == GameFormat::Commander || s.format_config.format == GameFormat::Brawl,
        free_first && count > 0 ==> bottom_count(count, free_first) == count - 1,
        !free_first || count == 0 ==> bottom_count(count, free_first) == count,
{
}

/// What a player owes: what the last mulligan there is left them with, else one card for each
/// mulligan on record but a free first one.
pub open spec fn debt(s: StateModel, player: PlayerId) -> int {
    let taken = if s.final_mulligan_counts.contains_key(player) {
        s.final_mulligan_counts[player] as int
    } else {
        0
    };
    if s.forced_bottom_counts.contains_key(player) {
        s.forced_bottom_counts[player] as int
    } else if first_is_free(s) && taken > 0 {
        taken - 1
    } else {
        taken
    }
}

/// CR 103.5c: With three seats or more, whatever the format, who keeps after one mulligan owes
/// nothing and after more one card less than they took.
pub proof fn multiplayer_keeps_cost_one_less(s: StateModel, entry: MulliganDecisionEntry)
    requires
        s.seat_order.len() > 2,
    ensures
        ({
            let owed = owed_by(decision_state(s, entry, true), entry.player);
            &&& entry.mulligan_count <= 1 ==> owed == 0
            &&& entry.mulligan_count > 1 ==> owed == entry.mulligan_count - 1
        }),
{
}

/// In Commander and Brawl, with however many seats, the same holds.
pub proof fn commander_and_brawl_keeps_cost_one_less(s: StateModel, entry: MulliganDecisionEntry)
    requires
        s.format_config.format == GameFormat::Commander || s.format_config.format
            == GameFormat::Brawl,
    ensures
        ({
            let owed = owed_by(decision_state(s, entry, true), entry.player);
            &&& entry.mulligan_count <= 1 ==> owed == 0
            &&& entry.mulligan_count > 1 ==> owed == entry.mulligan_count - 1
        }),
{
}

/// In a Standard duel who keeps owes one card for every mulligan taken.
pub proof fn standard_duel_keeps_cost_all(s: StateModel, entry: MulliganDecisionEntry)
    requires
        s.seat_order.len() <= 2,
        s.format_config.format == GameFormat::Standard,
    ensures
        owed_by(decision_state(s, entry, true), entry.player) == entry.mulligan_count,
{
}

/// What is owed is the debt, for everyone and on every record.
pub proof fn debts_are_owed(s: StateModel, player: PlayerId)
    ensures
        owed_by(s, player) == debt(s, player),
{
}

/// The players among `order` with a debt, in turn order, each with what they owe.
pub open spec fn open_debts(s: StateModel, order: Seq<PlayerId>) -> Seq<MulliganBottomEntry> {
    order.filter(|player: PlayerId| debt(s, player) > 0).map_values(
        |player: PlayerId| MulliganBottomEntry { player, count: debt(s, player) as u8 },
    )
}

proof fn owed_bottoms_are_open_debts(s: StateModel, order: Seq<PlayerId>)
    ensures
        owed_bottoms(s, order) == open_debts(s, order),
    decreases order.len(),
{
    reveal(Seq::filter);
    if order.len() > 0 {
        owed_bottoms_are_open_debts(s, order.drop_last());
        debts_are_owed(s, order.last());
    }
    assert(owed_bottoms(s, order) =~= open_debts(s, order));
}

/// CR 103.5: Once everyone has locked in a hand, the game asks exactly the players with a debt, in
/// turn order, for what each owes, and waits with everything as it is. If nobody owes anything it
/// forgets the record and begins.
pub proof fn exactly_the_debts_are_asked_for(s: StateModel, events: Seq<GameEvent>)
    ensures
        ({
            let step = bottom_phase(s, events);
            let debts = open_debts(s, s.seat_order);
            &&& debts.len() > 0 ==> step.state == s && step.events == events && step.next == (
            WaitModel::MulliganBottomCards { pending: debts })
            &&& debts.len() == 0 ==> step == finished(
                (StateModel {
                    final_mulligan_counts: Map::empty(),
                    forced_bottom_counts: Map::empty(),
                    ..s
                }),
                events,
            )
        }),
{
    owed_bottoms_are_open_debts(s, s.seat_order);
}

/// `pending[i]` is the first entry of the player.
pub open spec fn decides_at(
    pending: Seq<MulliganDecisionEntry>,
    player: PlayerId,
    i: int,
) -> bool {
    &&& 0 <= i < pending.len()
    &&& pending[i].player == player
    &&& forall|j: int| 0 <= j < i ==> (#[trigger] pending[j]).player != player
}

/// `pending[i]` is the first entry of the player.
pub open spec fn owes_at(pending: Seq<MulliganBottomEntry>, player: PlayerId, i: int) -> bool {
    &&& 0 <= i < pending.len()
    &&& pending[i].player == player
    &&& forall|j: int| 0 <= j < i ==> (#[trigger] pending[j]).player != player
}

proof fn decision_place(pending: Seq<MulliganDecisionEntry>, player: PlayerId, i: int)
    requires
        decides_at(pending, player, i),
    ensures
        must_decide(pending, player),
        decision_index(pending, player) == i,
{
    assert(is_decision_of(pending, player, i));
    let k = decision_index(pending, player);
    assert(is_decision_of(pending, player, k));
    if k < i {
        assert(pending[k].player != player);
    } else if i < k {
        assert(pending[i].player != player);
    }
}

proof fn bottom_place(pending: Seq<MulliganBottomEntry>, player: PlayerId, i: int)
    requires
        owes_at(pending, player, i),
    ensures
        must_bottom(pending, player),
        bottom_index(pending, player) == i,
{
    assert(is_bottom_of(pending, player, i));
    let k = bottom_index(pending, player);
    assert(is_bottom_of(pending, player, k));
    if k < i {
        assert(pending[k].player != player);
    } else if i < k {
        assert(pending[i].player != player);
    }
}

proof fn first_decision_exists(pending: Seq<MulliganDecisionEntry>, player: PlayerId, i: int)
    requires
        0 <= i < pending.len(),
        pending[i].player == player,
    ensures
        must_decide(pending, player),
    decreases i,
{
    if exists|j: int| 0 <= j < i && (#[trigger] pending[j]).player == player {
        let j = choose|j: int| 0 <= j < i && (#[trigger] pending[j]).player == player;
        first_decision_exists(pending, player, j);
    } else {
        assert(is_decision_of(pending, player, i));
    }
}

proof fn first_bottom_exists(pending: Seq<MulliganBottomEntry>, player: PlayerId, i: int)
    requires
        0 <= i < pending.len(),
        pending[i].player == player,
    ensures
        must_bottom(pending, player),
    decreases i,
{
    if exists|j: int| 0 <= j < i && (#[trigger] pending[j]).player == player {
        let j = choose|j: int| 0 <= j < i && (#[trigger] pending[j]).player == player;
        first_bottom_exists(pending, player, j);
    } else {
        assert(is_bottom_of(pending, player, i));
    }
}

/// A decision is taken exactly while decisions are due, from exactly the players who are asked,
/// and the refusals say which of the two is amiss.
pub proof fn decisions_are_taken_from_those_asked(s: StateModel, player: PlayerId)
    ensures
        match s.waiting_for {
            WaitModel::MulliganDecision { pending, .. } => {
                let asked = exists|i: int|
                    0 <= i < pending.len() && (#[trigger] pending[i]).player == player;
                &&& asked ==> decision_refusal(s, player) is None
                &&& !asked ==> decision_refusal(s, player) == Some(
                    "Player PlayerId("@ + decimal(player.0 as nat)
                        + ") is not in the mulligan pending set"@,
                )
            },
            _ => decision_refusal(s, player) == Some(
                "handle_mulligan_decision called outside MulliganDecision"@,
            ),
        },
{
    if let WaitModel::MulliganDecision { pending, .. } = s.waiting_for {
        if exists|i: int| 0 <= i < pending.len() && (#[trigger] pending[i]).player == player {
            let i = choose|i: int|
                0 <= i < pending.len() && (#[trigger] pending[i]).player == player;
            first_decision_exists(pending, player, i);
        } else if must_decide(pending, player) {
            let k = decision_index(pending, player);
            assert(is_decision_of(pending, player, k));
            assert(pending[k].player == player);
        }
    }
}

/// The first card named that is not in the hand is at place `k`.
pub open spec fn missing_at(hand: Seq<ObjectId>, cards: Seq<ObjectId>, k: int) -> bool {
    &&& 0 <= k < cards.len()
    &&& !hand.contains(cards[k])
    &&& forall|j: int| 0 <= j < k ==> hand.contains(#[trigger] cards[j])
}

proof fn missing_is_found(hand: Seq<ObjectId>, cards: Seq<ObjectId>, k: int)
    requires
        missing_at(hand, cards, k),
    ensures
        first_missing(hand, cards) == Some(cards[k]),
    decreases k,
{
    if k > 0 {
        assert(hand.contains(cards[0]));
        let rest = cards.drop_first();
        assert forall|j: int| 0 <= j < k - 1 implies hand.contains(#[trigger] rest[j]) by {
            assert(rest[j] == cards[j + 1]);
        }
        missing_is_found(hand, rest, k - 1);
    }
}

proof fn nothing_is_missing(hand: Seq<ObjectId>, cards: Seq<ObjectId>)
    requires
        forall|j: int| 0 <= j < cards.len() ==> hand.contains(#[trigger] cards[j]),
    ensures
        first_missing(hand, cards) is None,
    decreases cards.len(),
{
    if cards.len() > 0 {
        assert(hand.contains(cards[0]));
        let rest = cards.drop_first();
        assert forall|j: int| 0 <= j < rest.len() implies hand.contains(#[trigger] rest[j]) by {
            assert(rest[j] == cards[j + 1]);
        }
        nothing_is_missing(hand, rest);
    }
}

/// Outside the bottoms phase no choice of cards is taken, and in it none from a player who is not
/// asked.
pub proof fn choices_are_taken_from_those_asked(
    s: StateModel,
    player: PlayerId,
    cards: Seq<ObjectId>,
)
    ensures
        match s.waiting_for {
            WaitModel::MulliganBottomCards { pending } => (forall|i: int|
                0 <= i < pending.len() ==> (#[trigger] pending[i]).player != player)
                ==> bottom_refusal(s, player, cards) == Some(
                "Player PlayerId("@ + decimal(player.0 as nat)
                    + ") is not in the bottoms pending set"@,
            ),
            _ => bottom_refusal(s, player, cards) == Some(
                "handle_mulligan_bottom called outside MulliganBottomCards"@,
            ),
        },
{
    if let WaitModel::MulliganBottomCards { pending } = s.waiting_for {
        if must_bottom(pending, player) {
            let k = bottom_index(pending, player);
            assert(is_bottom_of(pending, player, k));
            assert(pending[k].player == player);
        }
    }
}

/// Of a player who is asked, a choice is taken exactly if it names as many cards as they owe, all
/// of them in the hand and none twice. Otherwise the first of these that fails is what the game
/// says.
pub proof fn exactly_the_owed_cards_are_taken(
    s: StateModel,
    player: PlayerId,
    cards: Seq<ObjectId>,
    i: int,
)
    requires
        s.waiting_for is MulliganBottomCards,
        owes_at(s.waiting_for->MulliganBottomCards_pending, player, i),
    ensures
        ({
            let owed = s.waiting_for->MulliganBottomCards_pending[i].count;
            let hand = s.zone_list(player, Zone::Hand);
            let answer = bottom_refusal(s, player, cards);
            &&& cards.len() != owed ==> answer == Some(
                "Expected "@ + decimal(owed as nat) + " cards to bottom, got "@ + decimal(
                    cards.len(),
                ),
            )
            &&& forall|k: int| #[trigger]
                missing_at(hand, cards, k) && cards.len() == owed ==> answer == Some(
                    "Card ObjectId("@ + decimal(cards[k].0 as nat) + ") is not in player's hand"@,
                )
            &&& cards.len() == owed && (forall|j: int|
                0 <= j < cards.len() ==> hand.contains(#[trigger] cards[j])) ==> {
                &&& cards.no_duplicates() ==> answer is None
                &&& !cards.no_duplicates() ==> answer == Some(
                    "Cards to bottom must all be different"@,
                )
            }
        }),
{
    let pending = s.waiting_for->MulliganBottomCards_pending;
    bottom_place(pending, player, i);
    let hand = s.zone_list(player, Zone::Hand);
    assert forall|k: int| #[trigger]
        missing_at(hand, cards, k) && cards.len() == pending[i].count implies bottom_refusal(
        s,
        player,
        cards,
    ) == Some(
        "Card ObjectId("@ + decimal(cards[k].0 as nat) + ") is not in player's hand"@,
    ) by {
        missing_is_found(hand, cards, k);
    }
    if forall|j: int| 0 <= j < cards.len() ==> hand.contains(#[trigger] cards[j]) {
        nothing_is_missing(hand, cards);
    }
}

/// Keeping puts the mulligans taken on record, takes the player out of those who are asked, and
/// changes nothing else. The others are asked again, unless nobody is left.
pub proof fn keeping_only_locks_in(
    s: StateModel,
    player: PlayerId,
    i: int,
    events: Seq<GameEvent>,
)
    requires
        s.waiting_for is MulliganDecision,
        decides_at(s.waiting_for->MulliganDecision_pending, player, i),
    ensures
        ({
            let pending = s.waiting_for->MulliganDecision_pending;
            let step = decision_step(s, player, true, events);
            let kept = StateModel {
                final_mulligan_counts: s.final_mulligan_counts.insert(
                    player,
                    pending[i].mulligan_count,
                ),
                forced_bottom_counts: s.forced_bottom_counts.remove(player),
                ..s
            };
            &&& pending.len() > 1 ==> step.state == kept && step.events == events && step.next == (
            WaitModel::MulliganDecision {
                pending: pending.remove(i),
                free_first_mulligan: first_is_free(s),
            })
            &&& pending.len() == 1 ==> step == bottom_phase(kept, events)
        }),
{
    let pending = s.waiting_for->MulliganDecision_pending;
    decision_place(pending, player, i);
    assert(events + Seq::<GameEvent>::empty() =~= events);
}

/// The cards a player has after a mulligan, in the order of their hand and then their library.
pub open spec fn reordered(s: StateModel, player: PlayerId) -> Seq<ObjectId> {
    let cards = s.zone_list(player, Zone::Library) + s.zone_list(player, Zone::Hand);
    arranged(cards, cards.len(), picks_of(s.rng, cards.len()))
}

/// How many numbers a shuffle of `len` cards uses up.
pub open spec fn numbers_used(len: nat) -> nat {
    if len == 0 {
        0
    } else {
        (len - 1) as nat
    }
}

/// A mulligan shuffles the hand into the library by the numbers the generator gives next, draws
/// seven cards or all there are from the top, and counts one more. After the seventh the player
/// is on record, owing what they drew, and is asked no more; before that they are asked again.
/// Nobody else's cards and no other entry change, and the generator moves on.
pub proof fn mulligans_shuffle_and_redraw(
    s: StateModel,
    player: PlayerId,
    i: int,
    events: Seq<GameEvent>,
)
    requires
        s.valid(),
        s.has_player(player),
        s.waiting_for is MulliganDecision,
        decides_at(s.waiting_for->MulliganDecision_pending, player, i),
        s.waiting_for->MulliganDecision_pending[i].mulligan_count < u8::MAX,
    ensures
        ({
            let pending = s.waiting_for->MulliganDecision_pending;
            let count = (pending[i].mulligan_count + 1) as u8;
            let cards = reordered(s, player);
            let drawn: int = if cards.len() < 7 {
                cards.len() as int
            } else {
                7
            };
            let t = decision_state(s, pending[i], false);
            let at = position_of(s.players, player);
            &&& t.players.len() == s.players.len()
            &&& t.players[at].hand == cards.take(drawn)
            &&& t.players[at].library == cards.skip(drawn)
            &&& t.players[at].id == s.players[at].id
            &&& t.players[at].life == s.players[at].life
            &&& t.players[at].graveyard == s.players[at].graveyard
            &&& forall|k: int|
                0 <= k < s.players.len() && k != at ==> #[trigger] t.players[k] == s.players[k]
            &&& t.objects.dom() == s.objects.dom()
            &&& forall|id: ObjectId| #[trigger]
                s.objects.contains_key(id) ==> t.objects[id] == (ObjectModel {
                    zone: if cards.take(drawn).contains(id) {
                        Zone::Hand
                    } else if cards.contains(id) {
                        Zone::Library
                    } else {
                        s.objects[id].zone
                    },
                    ..s.objects[id]
                })
            &&& t == (StateModel {
                players: t.players,
                objects: t.objects,
                rng: advanced_by(s.rng, numbers_used(cards.len())),
                final_mulligan_counts: if count >= 7 {
                    s.final_mulligan_counts.insert(player, count)
                } else {
                    s.final_mulligan_counts
                },
                forced_bottom_counts: if count >= 7 {
                    s.forced_bottom_counts.insert(player, drawn as u8)
                } else {
                    s.forced_bottom_counts
                },
                ..s
            })
        }),
{
    let pending = s.waiting_for->MulliganDecision_pending;
    decision_place(pending, player, i);
    redrawn_cards(s, player);
    let t = decision_state(s, pending[i], false);
    let cards = reordered(s, player);
    let drawn: int = if cards.len() < 7 {
        cards.len() as int
    } else {
        7
    };
    let at = position_of(s.players, player);
    let again = redrawn(s, player);
    same_ids_same_positions(s.players, again.players, player);
    assert(again.zone_list(player, Zone::Hand) == cards.take(drawn));
    assert(t.objects == again.objects);
}

/// Who is asked after a mulligan, and what has been reported: every card of the hand that went to
/// the library, every card that was drawn, and that seven were to be drawn.
pub proof fn mulligans_ask_again(
    s: StateModel,
    player: PlayerId,
    i: int,
    events: Seq<GameEvent>,
)
    requires
        s.valid(),
        s.has_player(player),
        s.waiting_for is MulliganDecision,
        decides_at(s.waiting_for->MulliganDecision_pending, player, i),
        s.waiting_for->MulliganDecision_pending[i].mulligan_count < u8::MAX,
    ensures
        ({
            let pending = s.waiting_for->MulliganDecision_pending;
            let count = (pending[i].mulligan_count + 1) as u8;
            let t = decision_state(s, pending[i], false);
            let hand = s.zone_list(player, Zone::Hand);
            let reported = events + hand.map_values(
                |id: ObjectId|
                    GameEvent::ZoneChanged { object_id: id, from: Zone::Hand, to: Zone::Library },
            ) + t.zone_list(player, Zone::Hand).map_values(
                |id: ObjectId|
                    GameEvent::ZoneChanged { object_id: id, from: Zone::Library, to: Zone::Hand },
            ).push(GameEvent::CardsDrawn { player_id: player, count: 7 });
            let left = if count >= 7 {
                pending.remove(i)
            } else {
                pending.update(i, MulliganDecisionEntry { player, mulligan_count: count })
            };
            let step = decision_step(s, player, false, events);
            &&& left.len() > 0 ==> step.state == t && step.events == reported && step.next == (
            WaitModel::MulliganDecision {
                pending: left,
                free_first_mulligan: first_is_free(s),
            })
            &&& left.len() == 0 ==> step == bottom_phase(t, reported)
        }),
{
    let pending = s.waiting_for->MulliganDecision_pending;
    decision_place(pending, player, i);
    redrawn_cards(s, player);
    let t = decision_state(s, pending[i], false);
    let again = redrawn(s, player);
    assert(t.zone_list(player, Zone::Hand) == again.zone_list(player, Zone::Hand));
    let hand = s.zone_list(player, Zone::Hand);
    let mid = reshuffled(s, player);
    reshuffle_lists(s, player);
    assert(mid.has_player(player));
    let reported = events + hand.map_values(
        |id: ObjectId|
            GameEvent::ZoneChanged { object_id: id, from: Zone::Hand, to: Zone::Library },
    ) + t.zone_list(player, Zone::Hand).map_values(
        |id: ObjectId|
            GameEvent::ZoneChanged { object_id: id, from: Zone::Library, to: Zone::Hand },
    ).push(GameEvent::CardsDrawn { player_id: player, count: 7 });
    let deck = mid.zone_list(player, Zone::Library);
    let k = drawable(mid, player, 7) as int;
    transfer_lists(mid, player, Zone::Library, Zone::Hand, k as nat);
    assert(mid.zone_list(player, Zone::Hand) == Seq::<ObjectId>::empty());
    assert(again.zone_list(player, Zone::Hand) =~= deck.take(k));
    assert(events + redraw_events(s, player) =~= reported);
}

/// Cards chosen go from the hand to the bottom of the library in the order named, and the player
/// is asked no more. Nobody else's cards and no other entry change. After the last choice the
/// record is forgotten and the game begins.
pub proof fn choices_move_just_the_cards(
    s: StateModel,
    player: PlayerId,
    cards: Seq<ObjectId>,
    i: int,
    events: Seq<GameEvent>,
)
    requires
        s.valid(),
        s.has_player(player),
        s.waiting_for is MulliganBottomCards,
        owes_at(s.waiting_for->MulliganBottomCards_pending, player, i),
        bottom_refusal(s, player, cards) is None,
    ensures
        ({
            let pending = s.waiting_for->MulliganBottomCards_pending;
            let t = bottomed(s, cards);
            let at = position_of(s.players, player);
            let reported = events + cards.map_values(
                |id: ObjectId|
                    GameEvent::ZoneChanged { object_id: id, from: Zone::Hand, to: Zone::Library },
            );
            let step = bottom_step(s, player, cards, events);
            &&& t.players.len() == s.players.len()
            &&& t.players[at].hand == s.players[at].hand.filter(
                |card: ObjectId| !cards.contains(card),
            )
            &&& t.players[at].library == s.players[at].library + cards
            &&& forall|k: int|
                0 <= k < s.players.len() && k != at ==> #[trigger] t.players[k] == s.players[k]
            &&& t.objects.dom() == s.objects.dom()
            &&& forall|id: ObjectId| #[trigger]
                s.objects.contains_key(id) ==> t.objects[id] == (ObjectModel {
                    zone: if cards.contains(id) {
                        Zone::Library
                    } else {
                        s.objects[id].zone
                    },
                    ..s.objects[id]
                })
            &&& t == (StateModel { players: t.players, objects: t.objects, ..s })
            &&& pending.len() > 1 ==> step.state == t && step.events == reported && step.next == (
            WaitModel::MulliganBottomCards { pending: pending.remove(i) })
            &&& pending.len() == 1 ==> step == finished(
                (StateModel {
                    final_mulligan_counts: Map::empty(),
                    forced_bottom_counts: Map::empty(),
                    ..t
                }),
                reported,
            )
        }),
{
    let pending = s.waiting_for->MulliganBottomCards_pending;
    bottom_place(pending, player, i);
    chosen_cards_go_to_the_bottom(s, player, cards);
    chosen_cards_exist(s, player, cards);
    assert forall|k: int| 0 <= k < cards.len() implies s.objects.contains_key(#[trigger] cards[k])
        && s.objects[cards[k]].owner == player && (s.objects[cards[k]].zone == Zone::Hand
        || s.objects[cards[k]].zone == Zone::Library) by {
        assert(s.resides(cards[k], player, Zone::Hand));
    }
    bottoming_touches_one_player(s, player, cards);
    let t = bottomed(s, cards);
    same_ids_same_positions(s.players, t.players, player);
    let at = position_of(s.players, player);
    let outside = |card: ObjectId| !cards.contains(card);
    assert(t.zone_list(player, Zone::Hand) == s.zone_list(player, Zone::Hand).filter(outside));
    assert(events + bottomed_events(s, cards) =~= events + cards.map_values(
        |id: ObjectId|
            GameEvent::ZoneChanged { object_id: id, from: Zone::Hand, to: Zone::Library },
    ));
}

} // verus!
