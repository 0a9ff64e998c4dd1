//! CR 103.6: What happens between the last opening hand and the first turn, written out.

use vstd::prelude::*;
#[allow(unused_imports)]
use crate::game::ability_utils::resolved_from;
#[allow(unused_imports)]
use crate::game::effects::{chain_keeps, chain_outcome};
#[allow(unused_imports)]
use crate::game::mulligan::{
    card_abilities, finished, hand_abilities, opening_abilities, queued, resumed, Step,
};
#[allow(unused_imports)]
use crate::game::mulligan_laws::filter_facts;
#[allow(unused_imports)]
use crate::game::turns::{advance_events, advanced, priority};
#[allow(unused_imports)]
use crate::types::ability::{AbilityKind, AbilityModel, DefinitionModel};
#[allow(unused_imports)]
use crate::types::events::GameEvent;
#[allow(unused_imports)]
use crate::types::game_state::{StateModel, WaitModel};
#[allow(unused_imports)]
use crate::types::identifiers::{ObjectId, PlayerId};
#[allow(unused_imports)]
use crate::types::phase::Phase;
#[allow(unused_imports)]
use crate::types::zones::Zone;

verus! {

/// An ability that is about to resolve is as printed, down to the last of the abilities that hang
/// on it, for the card's player and from the card, and has no targets.
pub open spec fn as_printed(
    definition: DefinitionModel,
    ability: AbilityModel,
    card: ObjectId,
    player: PlayerId,
) -> bool
    decreases definition,
{
    &&& ability.effect == definition.effect
    &&& ability.targets.len() == 0
    &&& ability.source_id == card
    &&& ability.controller == player
    &&& ability.optional == definition.optional
    &&& ability.cant_be_copied == definition.cant_be_copied
    &&& ability.repeat_for == definition.repeat_for
    &&& ability.description == definition.description
    &&& match (definition.sub_ability, ability.sub_ability) {
        (Some(d), Some(a)) => as_printed(*d, *a, card, player),
        (None, None) => true,
        _ => false,
    }
    &&& match (definition.else_ability, ability.else_ability) {
        (Some(d), Some(a)) => as_printed(*d, *a, card, player),
        (None, None) => true,
        _ => false,
    }
}

/// A printed ability that is made ready to resolve stays as printed.
pub proof fn abilities_resolve_as_printed(
    definition: DefinitionModel,
    card: ObjectId,
    player: PlayerId,
)
    ensures
        as_printed(definition, resolved_from(definition, card, player), card, player),
    decreases definition,
{
    match definition.sub_ability {
        Some(sub) => abilities_resolve_as_printed(*sub, card, player),
        None => {},
    }
    match definition.else_ability {
        Some(sub) => abilities_resolve_as_printed(*sub, card, player),
        None => {},
    }
}

/// The ability comes from the ability printed `i`-th on a card in the hand of a player with a
/// seat, and that one is of kind `BeginGame`.
pub open spec fn comes_from(
    s: StateModel,
    ability: AbilityModel,
    player: PlayerId,
    card: ObjectId,
    i: int,
) -> bool {
    &&& s.seat_order.contains(player)
    &&& s.zone_list(player, Zone::Hand).contains(card)
    &&& s.objects.contains_key(card)
    &&& 0 <= i < s.objects[card].abilities.len()
    &&& s.objects[card].abilities[i].kind == AbilityKind::BeginGame
    &&& as_printed(s.objects[card].abilities[i], ability, card, player)
}

proof fn card_abilities_come_from_the_card(
    s: StateModel,
    player: PlayerId,
    card: ObjectId,
    n: int,
) -> (i: int)
    requires
        0 <= n < card_abilities(s, player, card).len(),
    ensures
        s.objects.contains_key(card),
        0 <= i < s.objects[card].abilities.len(),
        s.objects[card].abilities[i].kind == AbilityKind::BeginGame,
        card_abilities(s, player, card)[n] == resolved_from(
            s.objects[card].abilities[i],
            card,
            player,
        ),
{
    let printed = s.objects[card].abilities;
    let passes = |definition: DefinitionModel| definition.kind == AbilityKind::BeginGame;
    let chosen = printed.filter(passes);
    filter_facts(printed, passes);
    assert(chosen.contains(chosen[n]));
    assert(printed.contains(chosen[n]));
    choose|i: int| 0 <= i < printed.len() && printed[i] == chosen[n]
}

proof fn hand_abilities_come_from_the_hand(
    s: StateModel,
    player: PlayerId,
    cards: Seq<ObjectId>,
    n: int,
) -> (from: (ObjectId, int))
    requires
        0 <= n < hand_abilities(s, player, cards).len(),
    ensures
        cards.contains(from.0),
        s.objects.contains_key(from.0),
        0 <= from.1 < s.objects[from.0].abilities.len(),
        s.objects[from.0].abilities[from.1].kind == AbilityKind::BeginGame,
        hand_abilities(s, player, cards)[n] == resolved_from(
            s.objects[from.0].abilities[from.1],
            from.0,
            player,
        ),
    decreases cards.len(),
{
    let rest = cards.drop_last();
    let last = cards.last();
    let before = hand_abilities(s, player, rest);
    if n < before.len() {
        let from = hand_abilities_come_from_the_hand(s, player, rest, n);
        let k = choose|k: int| 0 <= k < rest.len() && rest[k] == from.0;
        assert(cards[k] == from.0);
        from
    } else {
        assert(cards[cards.len() - 1] == last);
        let i = card_abilities_come_from_the_card(s, player, last, n - before.len());
        (last, i)
    }
}

proof fn opening_abilities_come_from_hands(s: StateModel, order: Seq<PlayerId>, n: int) -> (from: (
    PlayerId,
    ObjectId,
    int,
))
    requires
        0 <= n < opening_abilities(s, order).len(),
    ensures
        order.contains(from.0),
        s.zone_list(from.0, Zone::Hand).contains(from.1),
        s.objects.contains_key(from.1),
        0 <= from.2 < s.objects[from.1].abilities.len(),
        s.objects[from.1].abilities[from.2].kind == AbilityKind::BeginGame,
        opening_abilities(s, order)[n] == resolved_from(
            s.objects[from.1].abilities[from.2],
            from.1,
            from.0,
        ),
    decreases order.len(),
{
    let rest = order.drop_last();
    let last = order.last();
    let before = opening_abilities(s, rest);
    if n < before.len() {
        let from = opening_abilities_come_from_hands(s, rest, n);
        let k = choose|k: int| 0 <= k < rest.len() && rest[k] == from.0;
        assert(order[k] == from.0);
        from
    } else {
        assert(order[order.len() - 1] == last);
        let from = hand_abilities_come_from_the_hand(
            s,
            last,
            s.zone_list(last, Zone::Hand),
            n - before.len(),
        );
        (last, from.0, from.1)
    }
}

/// Nothing else is queued: every ability in the queue is one of kind `BeginGame`, printed on a
/// card in the hand of a player with a seat.
pub proof fn only_begin_game_abilities_are_queued(s: StateModel, n: int) -> (from: (
    PlayerId,
    ObjectId,
    int,
))
    requires
        0 <= n < queued(s).pending_begin_game_abilities.len(),
    ensures
        comes_from(s, queued(s).pending_begin_game_abilities[n], from.0, from.1, from.2),
        queued(s).pending_begin_game_abilities[n] == resolved_from(
            s.objects[from.1].abilities[from.2],
            from.1,
            from.0,
        ),
{
    let all = opening_abilities(s, s.seat_order);
    let from = opening_abilities_come_from_hands(s, s.seat_order, all.len() - 1 - n);
    abilities_resolve_as_printed(s.objects[from.1].abilities[from.2], from.1, from.0);
    from
}

/// The abilities of kind `BeginGame` of a card, in printed order, about to resolve for a player.
pub open spec fn abilities_on(s: StateModel, player: PlayerId, card: ObjectId) -> Seq<
    AbilityModel,
> {
    if s.objects.contains_key(card) {
        s.objects[card].abilities.filter(
            |definition: DefinitionModel| definition.kind == AbilityKind::BeginGame,
        ).map_values(|definition: DefinitionModel| resolved_from(definition, card, player))
    } else {
        Seq::empty()
    }
}

/// Those of the cards in a player's hand, card after card.
pub open spec fn abilities_in_hand(s: StateModel, player: PlayerId) -> Seq<AbilityModel> {
    s.zone_list(player, Zone::Hand).map_values(
        |card: ObjectId| abilities_on(s, player, card),
    ).flatten_alt()
}

proof fn hand_is_queued_card_by_card(s: StateModel, player: PlayerId, cards: Seq<ObjectId>)
    ensures
        hand_abilities(s, player, cards) == cards.map_values(
            |card: ObjectId| abilities_on(s, player, card),
        ).flatten_alt(),
    decreases cards.len(),
{
    let on = |card: ObjectId| abilities_on(s, player, card);
    let lists = cards.map_values(on);
    if cards.len() > 0 {
        hand_is_queued_card_by_card(s, player, cards.drop_last());
        assert(lists.drop_last() =~= cards.drop_last().map_values(on));
        assert(card_abilities(s, player, cards.last()) =~= on(cards.last()));
    } else {
        assert(hand_abilities(s, player, cards) =~= lists.flatten_alt());
    }
}

proof fn hands_are_queued_seat_by_seat(s: StateModel, order: Seq<PlayerId>)
    ensures
        opening_abilities(s, order) == order.map_values(
            |player: PlayerId| abilities_in_hand(s, player),
        ).flatten_alt(),
    decreases order.len(),
{
    let of = |player: PlayerId| abilities_in_hand(s, player);
    let lists = order.map_values(of);
    if order.len() > 0 {
        let last = order.last();
        hands_are_queued_seat_by_seat(s, order.drop_last());
        hand_is_queued_card_by_card(s, last, s.zone_list(last, Zone::Hand));
        assert(lists.drop_last() =~= order.drop_last().map_values(of));
        assert(lists.last() == of(last));
    } else {
        assert(opening_abilities(s, order) =~= lists.flatten_alt());
    }
}

/// The queue holds the abilities seat by seat in turn order, of each hand card by card, of each
/// card as printed; the one to resolve first is last. Nothing but the queue changes.
pub proof fn queue_goes_by_seats_and_cards(s: StateModel)
    ensures
        queued(s) == (StateModel {
            pending_begin_game_abilities: s.seat_order.map_values(
                |player: PlayerId| abilities_in_hand(s, player),
            ).flatten_alt().reverse(),
            ..s
        }),
{
    hands_are_queued_seat_by_seat(s, s.seat_order);
}

/// Once the last hand is settled the game queues the abilities and resolves them.
pub proof fn beginning_queues_and_resolves(s: StateModel, events: Seq<GameEvent>)
    ensures
        finished(s, events) == resumed(
            (StateModel {
                pending_begin_game_abilities: s.seat_order.map_values(
                    |player: PlayerId| abilities_in_hand(s, player),
                ).flatten_alt().reverse(),
                resolving_begin_game_abilities: true,
                ..s
            }),
            events,
        ),
{
    queue_goes_by_seats_and_cards(s);
}

/// Nobody has priority in the untap step, so the turn goes on to the upkeep, which is reported. From
/// any other step it does not move. The active player has priority.
pub proof fn untap_gives_way_to_upkeep(s: StateModel)
    ensures
        priority(s) == (WaitModel::Priority { player: s.active_player }),
        s.phase == Phase::Untap ==> advanced(s) == (StateModel { phase: Phase::Upkeep, ..s })
            && advance_events(s) == seq![GameEvent::PhaseChanged { phase: Phase::Upkeep }],
        s.phase != Phase::Untap ==> advanced(s) == s && advance_events(s).len() == 0,
{
}

/// With no ability left the beginning of the game is over: the first turn goes from the untap step
/// to the upkeep, and the active player has priority. Nothing else changes.
pub proof fn empty_queue_gives_priority(s: StateModel, events: Seq<GameEvent>)
    requires
        s.pending_begin_game_abilities.len() == 0,
    ensures
        ({
            let step = resumed(s, events);
            &&& step.next == (WaitModel::Priority { player: s.active_player })
            &&& step.state == (StateModel {
                resolving_begin_game_abilities: false,
                phase: if s.phase == Phase::Untap {
                    Phase::Upkeep
                } else {
                    s.phase
                },
                ..s
            })
            &&& s.phase == Phase::Untap ==> step.events == events.push(
                GameEvent::PhaseChanged { phase: Phase::Upkeep },
            )
            &&& s.phase != Phase::Untap ==> step.events == events
        }),
{
    let step = resumed(s, events);
    assert(s.pending_begin_game_abilities =~= Seq::empty());
    if s.phase == Phase::Untap {
        assert(step.events =~= events.push(GameEvent::PhaseChanged { phase: Phase::Upkeep }));
    } else {
        assert(step.events =~= events);
    }
}

/// The ability at the end of the queue leaves it and resolves. If it asks for a choice the game
/// waits for that, with the others still queued; else they follow.
pub proof fn queue_resolves_from_its_end(s: StateModel, events: Seq<GameEvent>)
    requires
        s.pending_begin_game_abilities.len() > 0,
    ensures
        ({
            let queue = s.pending_begin_game_abilities;
            let popped = StateModel {
                pending_begin_game_abilities: queue.take(queue.len() - 1),
                ..s
            };
            let outcome = chain_outcome(popped, queue[queue.len() - 1], events, 0);
            &&& outcome.state.pending_begin_game_abilities == queue.take(queue.len() - 1)
            &&& outcome.state.waiting_for is Priority ==> resumed(s, events) == resumed(
                outcome.state,
                outcome.events,
            )
            &&& !(outcome.state.waiting_for is Priority) ==> resumed(s, events) == (Step {
                state: outcome.state,
                events: outcome.events,
                next: outcome.state.waiting_for,
            })
        }),
{
    let queue = s.pending_begin_game_abilities;
    assert(queue.drop_last() =~= queue.take(queue.len() - 1));
    let popped = StateModel { pending_begin_game_abilities: queue.drop_last(), ..s };
    chain_keeps(popped, queue.last(), events, 0);
}

} // verus!
