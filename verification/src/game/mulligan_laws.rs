//! What holds of mulligans as a whole, whatever the players decide.

use vstd::prelude::*;
#[allow(unused_imports)]
use vstd::multiset::Multiset;
#[allow(unused_imports)]
use crate::game::ability_utils::resolved_from;
#[allow(unused_imports)]
use crate::game::effects::{chain_keeps, chain_only_adds_events, chain_outcome};
#[allow(unused_imports)]
use crate::game::mulligan::{
    after_decision, bottom_index, bottom_refusal, bottomed, bottomed_events, bottoming_keeps_valid,
    bottoms_chosen, card_abilities, chosen_cards_exist, counted, dealing_keeps_players, dealt,
    decided, decision_events, decision_left, decision_state, drained,
    draining_asks_nothing_of_hands, drawable, drawn, finished, grants_free_first, hand_abilities,
    is_bottom_of, libraries_shuffled, opening_abilities, owed_bottoms, owed_by, queued,
    redrawing_keeps_valid, redrawn, redrawn_hand_is_small, reshuffle_lists, reshuffled, resumed,
    settled, shuffling_keeps_valid, started, Step, MAX_MULLIGANS, STARTING_HAND_SIZE,
};
#[allow(unused_imports)]
use crate::game::turns::priority;
#[allow(unused_imports)]
use crate::game::zones::{rezoned, transfer_lists, zone_changes};
#[allow(unused_imports)]
use crate::types::ability::{AbilityKind, AbilityModel, DefinitionModel};
#[allow(unused_imports)]
use crate::types::events::GameEvent;
#[allow(unused_imports)]
use crate::types::game_object::ObjectModel;
#[allow(unused_imports)]
use crate::types::game_state::{
    permutation_facts, waiting_keeps_valid, zone_lists_are_separate, MulliganBottomEntry,
    MulliganDecisionEntry, StateModel,
};
#[allow(unused_imports)]
use crate::types::identifiers::{ObjectId, PlayerId};
#[allow(unused_imports)]
use crate::types::player::{
    is_position, position_of, same_ids, same_ids_same_positions, PlayerModel,
};
#[allow(unused_imports)]
use crate::types::zones::{is_private, Zone};
#[allow(unused_imports)]
use crate::util::rng::{advanced_by, rng_after_shuffle, shuffle_permutes, shuffled};
#[allow(unused_imports)]
use crate::util::rng_laws::{arranged, picks_of, shuffling_goes_by_the_numbers_drawn};

verus! {

/// The cards in a player's hand and library, without regard to their order.
pub open spec fn cards_of(s: StateModel, player: PlayerId) -> Multiset<ObjectId> {
    s.zone_list(player, Zone::Hand).to_multiset().add(
        s.zone_list(player, Zone::Library).to_multiset(),
    )
}

pub open spec fn hand_size(s: StateModel, player: PlayerId) -> nat {
    s.zone_list(player, Zone::Hand).len()
}

pub open spec fn library_size(s: StateModel, player: PlayerId) -> nat {
    s.zone_list(player, Zone::Library).len()
}

/// How many cards a player is dealt out of a library of `len`.
pub open spec fn deal_size(len: nat) -> nat {
    if len < STARTING_HAND_SIZE {
        len
    } else {
        STARTING_HAND_SIZE as nat
    }
}

proof fn splitting_keeps_cards(list: Seq<ObjectId>, hand: Seq<ObjectId>, k: nat)
    requires
        k <= list.len(),
    ensures
        (hand + list.take(k as int)).to_multiset().add(list.skip(k as int).to_multiset())
            == hand.to_multiset().add(list.to_multiset()),
{
    let front = list.take(k as int);
    let back = list.skip(k as int);
    vstd::seq_lib::lemma_multiset_commutative(hand, front);
    vstd::seq_lib::lemma_multiset_commutative(front, back);
    assert(list =~= front + back);
    assert((hand + front).to_multiset().add(back.to_multiset()) =~= hand.to_multiset().add(
        list.to_multiset(),
    ));
}

/// Drawing moves the top cards of one library to one hand and touches nothing else.
pub proof fn drawing_moves_the_top_cards(s: StateModel, player: PlayerId, n: nat)
    requires
        s.has_player(player),
    ensures
        ({
            let library = s.zone_list(player, Zone::Library);
            let k = drawable(s, player, n) as int;
            let t = drawn(s, player, n);
            &&& t.zone_list(player, Zone::Hand) == s.zone_list(player, Zone::Hand) + library.take(k)
            &&& t.zone_list(player, Zone::Library) == library.skip(k)
            &&& cards_of(t, player) == cards_of(s, player)
        }),
        forall|other: PlayerId, zone: Zone|
            s.has_player(other) && (other != player || (zone != Zone::Hand && zone
                != Zone::Library)) ==> #[trigger] drawn(s, player, n).zone_list(other, zone)
                == s.zone_list(other, zone),
{
    let library = s.zone_list(player, Zone::Library);
    let k = drawable(s, player, n);
    transfer_lists(s, player, Zone::Library, Zone::Hand, k);
    splitting_keeps_cards(library, s.zone_list(player, Zone::Hand), k);
}

/// Everyone in turn order is dealt the top cards of their library; nobody else is.
pub proof fn dealing_moves_the_top_cards(s: StateModel, order: Seq<PlayerId>, player: PlayerId)
    requires
        s.valid(),
        s.has_player(player),
        order.no_duplicates(),
        forall|i: int| 0 <= i < order.len() ==> s.has_player(#[trigger] order[i]),
    ensures
        ({
            let library = s.zone_list(player, Zone::Library);
            let k = if order.contains(player) {
                deal_size(library.len()) as int
            } else {
                0
            };
            let t = dealt(s, order);
            &&& t.zone_list(player, Zone::Hand) == s.zone_list(player, Zone::Hand) + library.take(k)
            &&& t.zone_list(player, Zone::Library) == library.skip(k)
        }),
        forall|zone: Zone|
            zone != Zone::Hand && zone != Zone::Library ==> #[trigger] dealt(s, order).zone_list(
                player,
                zone,
            ) == s.zone_list(player, zone),
    decreases order.len(),
{
    let library = s.zone_list(player, Zone::Library);
    if order.len() == 0 {
        assert(library.take(0) =~= Seq::empty());
        assert(library.skip(0) =~= library);
        assert(s.zone_list(player, Zone::Hand) + library.take(0) =~= s.zone_list(
            player,
            Zone::Hand,
        ));
    } else {
        let rest = order.drop_last();
        let last = order.last();
        assert forall|i: int| 0 <= i < rest.len() implies s.has_player(#[trigger] rest[i]) by {
            assert(rest[i] == order[i]);
        }
        dealing_moves_the_top_cards(s, rest, player);
        dealing_keeps_players(s, rest);
        let t = dealt(s, rest);
        assert(s.has_player(order[order.len() - 1]));
        same_ids_same_positions(s.players, t.players, last);
        same_ids_same_positions(s.players, t.players, player);
        drawing_moves_the_top_cards(t, last, STARTING_HAND_SIZE as nat);
        assert(order.contains(player) <==> rest.contains(player) || player == last) by {
            if rest.contains(player) {
                let i = choose|i: int| 0 <= i < rest.len() && rest[i] == player;
                assert(order[i] == player);
            }
            if order.contains(player) && player != last {
                let i = choose|i: int| 0 <= i < order.len() && order[i] == player;
                assert(rest[i] == player);
            }
            assert(order[order.len() - 1] == last);
        }
        if player == last {
            assert(!rest.contains(player)) by {
                if rest.contains(player) {
                    let i = choose|i: int| 0 <= i < rest.len() && rest[i] == player;
                    assert(order[i] == order[order.len() - 1]);
                }
            }
            assert(library.skip(0) =~= library);
            assert(s.zone_list(player, Zone::Hand) + library.take(0) =~= s.zone_list(
                player,
                Zone::Hand,
            ));
        }
        assert(t.has_player(player));
    }
}

/// CR 103.4: The game starts with a hand of seven for everyone in turn order: each library is put
/// in another order and its top seven cards, or all there are, go to the hand. Nothing else
/// changes hands.
pub proof fn starting_deals_seven(s: StateModel, events: Seq<GameEvent>, player: PlayerId)
    requires
        s.valid(),
        s.has_player(player),
    ensures
        ({
            let t = started(s, events).state;
            let library = libraries_shuffled(s).zone_list(player, Zone::Library);
            let k = if s.seat_order.contains(player) {
                deal_size(library.len()) as int
            } else {
                0
            };
            &&& library.to_multiset() == s.zone_list(player, Zone::Library).to_multiset()
            &&& library.len() == s.zone_list(player, Zone::Library).len()
            &&& t.zone_list(player, Zone::Hand) == s.zone_list(player, Zone::Hand) + library.take(k)
            &&& t.zone_list(player, Zone::Library) == library.skip(k)
            &&& cards_of(t, player) == cards_of(s, player)
        }),
        forall|zone: Zone|
            zone != Zone::Hand && zone != Zone::Library ==> #[trigger] started(
                s,
                events,
            ).state.zone_list(player, zone) == s.zone_list(player, zone),
{
    let ready = libraries_shuffled(s);
    shuffling_keeps_valid(s);
    same_ids_same_positions(s.players, ready.players, player);
    let library = ready.zone_list(player, Zone::Library);
    vstd::seq_lib::to_multiset_len(library);
    vstd::seq_lib::to_multiset_len(s.zone_list(player, Zone::Library));
    assert forall|i: int| 0 <= i < s.seat_order.len() implies ready.has_player(
        #[trigger] s.seat_order[i],
    ) by {
        same_ids_same_positions(s.players, ready.players, s.seat_order[i]);
        assert(s.has_player(s.seat_order[i]));
    }
    dealing_moves_the_top_cards(ready, s.seat_order, player);
    let k = if s.seat_order.contains(player) {
        deal_size(library.len())
    } else {
        0
    };
    splitting_keeps_cards(library, s.zone_list(player, Zone::Hand), k);
    assert(ready.zone_list(player, Zone::Hand) == s.zone_list(player, Zone::Hand));
    assert forall|zone: Zone|
        zone != Zone::Hand && zone != Zone::Library implies #[trigger] started(
        s,
        events,
    ).state.zone_list(player, zone) == s.zone_list(player, zone) by {
        assert(ready.zone_list(player, zone) == s.zone_list(player, zone));
    }
}

/// CR 103.5: A mulligan gives a new hand of seven out of the player's own cards, or of all there
/// are if there are fewer. No card is lost, and nobody else's cards move.
pub proof fn mulligan_redraws_seven(s: StateModel, player: PlayerId)
    requires
        s.valid(),
        s.has_player(player),
    ensures
        ({
            let hand = s.zone_list(player, Zone::Hand);
            let library = s.zone_list(player, Zone::Library);
            let t = redrawn(s, player);
            &&& t.zone_list(player, Zone::Hand).len() == deal_size(hand.len() + library.len())
            &&& t.zone_list(player, Zone::Hand) + t.zone_list(player, Zone::Library) == shuffled(
                library + hand,
                s.rng,
            )
            &&& cards_of(t, player) == cards_of(s, player)
        }),
        forall|other: PlayerId, zone: Zone|
            s.has_player(other) && (other != player || (zone != Zone::Hand && zone
                != Zone::Library)) ==> #[trigger] redrawn(s, player).zone_list(other, zone)
                == s.zone_list(other, zone),
{
    let hand = s.zone_list(player, Zone::Hand);
    let library = s.zone_list(player, Zone::Library);
    let gathered = reshuffled(s, player);
    reshuffle_lists(s, player);
    assert(gathered.has_player(player));
    drawing_moves_the_top_cards(gathered, player, STARTING_HAND_SIZE as nat);
    let deck = shuffled(library + hand, s.rng);
    shuffle_permutes(library + hand, s.rng);
    vstd::seq_lib::lemma_multiset_commutative(library, hand);
    assert(gathered.zone_list(player, Zone::Library) == deck);
    assert(gathered.zone_list(player, Zone::Hand) == Seq::<ObjectId>::empty());
    vstd::seq_lib::to_multiset_len(Seq::<ObjectId>::empty());
    assert(Seq::<ObjectId>::empty().to_multiset() =~= Multiset::empty());
    assert(cards_of(gathered, player) =~= cards_of(s, player));
    let k = drawable(gathered, player, STARTING_HAND_SIZE as nat) as int;
    assert(deck.take(k) + deck.skip(k) =~= deck);
    assert(Seq::<ObjectId>::empty() + deck.take(k) =~= deck.take(k));
    assert forall|other: PlayerId, zone: Zone|
        s.has_player(other) && (other != player || (zone != Zone::Hand && zone
            != Zone::Library)) implies #[trigger] redrawn(s, player).zone_list(other, zone)
        == s.zone_list(other, zone) by {
        assert(gathered.has_player(other));
        assert(gathered.zone_list(other, zone) == s.zone_list(other, zone));
    }
}

/// A step, with more reported before.
pub open spec fn step_preceded(step: Step, events: Seq<GameEvent>) -> Step {
    Step { events: events + step.events, ..step }
}

/// What has been reported before the game begins stays, and has no bearing on what happens.
pub proof fn draining_only_adds_events(
    s: StateModel,
    queue: Seq<AbilityModel>,
    events: Seq<GameEvent>,
)
    ensures
        drained(s, queue, events) == step_preceded(drained(s, queue, Seq::empty()), events),
    decreases queue.len(),
{
    if queue.len() > 0 {
        let rest = queue.drop_last();
        let popped = StateModel { pending_begin_game_abilities: rest, ..s };
        let bare = chain_outcome(popped, queue.last(), Seq::empty(), 0);
        let outcome = chain_outcome(popped, queue.last(), events, 0);
        chain_only_adds_events(popped, queue.last(), events, 0);
        if outcome.state.waiting_for is Priority {
            draining_only_adds_events(outcome.state, rest, outcome.events);
            draining_only_adds_events(bare.state, rest, bare.events);
        }
    }
    assert(drained(s, queue, events) =~= step_preceded(drained(s, queue, Seq::empty()), events));
}

/// What has been reported before going on stays, and has no bearing on what happens.
pub proof fn deciding_step_only_adds_events(
    s: StateModel,
    pending: Seq<MulliganDecisionEntry>,
    free_first: bool,
    events: Seq<GameEvent>,
)
    ensures
        after_decision(s, pending, free_first, events) == step_preceded(
            after_decision(s, pending, free_first, Seq::empty()),
            events,
        ),
{
    let begun = StateModel { resolving_begin_game_abilities: true, ..queued(settled(s)) };
    draining_only_adds_events(begun, begun.pending_begin_game_abilities, events);
    assert(after_decision(s, pending, free_first, events) =~= step_preceded(
        after_decision(s, pending, free_first, Seq::empty()),
        events,
    ));
}

/// What has been reported before a decision stays, and has no bearing on what happens.
pub proof fn deciding_only_adds_events(
    s: StateModel,
    pending: Seq<MulliganDecisionEntry>,
    i: int,
    keep: bool,
    events: Seq<GameEvent>,
)
    ensures
        decided(s, pending, i, keep, events) == step_preceded(
            decided(s, pending, i, keep, Seq::empty()),
            events,
        ),
{
    let t = decision_state(s, pending[i], keep);
    let left = decision_left(pending, i, keep);
    let news = decision_events(s, pending[i], keep);
    deciding_step_only_adds_events(t, left, grants_free_first(s), events + news);
    deciding_step_only_adds_events(t, left, grants_free_first(s), Seq::empty() + news);
    assert(decided(s, pending, i, keep, events) =~= step_preceded(
        decided(s, pending, i, keep, Seq::empty()),
        events,
    ));
}

/// What has been reported before cards go to the bottom stays, and has no bearing on what happens.
pub proof fn bottoming_only_adds_events(
    s: StateModel,
    pending: Seq<MulliganBottomEntry>,
    i: int,
    cards: Seq<ObjectId>,
    events: Seq<GameEvent>,
)
    ensures
        bottoms_chosen(s, pending, i, cards, events) == step_preceded(
            bottoms_chosen(s, pending, i, cards, Seq::empty()),
            events,
        ),
{
    let t = settled(bottomed(s, cards));
    let news = bottomed_events(s, cards);
    let begun = StateModel { resolving_begin_game_abilities: true, ..queued(t) };
    draining_only_adds_events(begun, begun.pending_begin_game_abilities, events + news);
    draining_only_adds_events(begun, begun.pending_begin_game_abilities, Seq::empty() + news);
    assert(bottoms_chosen(s, pending, i, cards, events) =~= step_preceded(
        bottoms_chosen(s, pending, i, cards, Seq::empty()),
        events,
    ));
}

/// CR 103.6: Once the beginning of the game asks for nothing, every ability has had its turn: the
/// active player has priority, none is left and the game no longer counts as beginning.
pub proof fn priority_comes_after_all_abilities(s: StateModel, events: Seq<GameEvent>)
    ensures
        ({
            let step = resumed(s, events);
            &&& step.next is Priority ==> step.next == priority(s)
                && step.state.pending_begin_game_abilities.len() == 0
                && !step.state.resolving_begin_game_abilities
            &&& !(step.next is Priority) ==> step.state.waiting_for == step.next
                && step.state.resolving_begin_game_abilities == s.resolving_begin_game_abilities
                && step.state.pending_begin_game_abilities.len()
                < s.pending_begin_game_abilities.len()
        }),
{
    draining_ends(s, s.pending_begin_game_abilities, events);
}

proof fn draining_ends(s: StateModel, queue: Seq<AbilityModel>, events: Seq<GameEvent>)
    ensures
        ({
            let step = drained(s, queue, events);
            &&& step.next is Priority ==> step.next == priority(s)
                && step.state.pending_begin_game_abilities.len() == 0
                && !step.state.resolving_begin_game_abilities
            &&& !(step.next is Priority) ==> step.state.waiting_for == step.next
                && step.state.resolving_begin_game_abilities == s.resolving_begin_game_abilities
                && step.state.pending_begin_game_abilities.len() < queue.len()
        }),
    decreases queue.len(),
{
    if queue.len() > 0 {
        let rest = queue.drop_last();
        let popped = StateModel { pending_begin_game_abilities: rest, ..s };
        let outcome = chain_outcome(popped, queue.last(), events, 0);
        chain_keeps(popped, queue.last(), events, 0);
        if outcome.state.waiting_for is Priority {
            draining_ends(outcome.state, rest, outcome.events);
        }
    }
}

/// What is in one of two lists is in both of them joined.
proof fn joined_contains<A>(one: Seq<A>, two: Seq<A>, item: A)
    ensures
        one.contains(item) || two.contains(item) ==> (one + two).contains(item),
{
    if one.contains(item) {
        let i = choose|i: int| 0 <= i < one.len() && one[i] == item;
        assert((one + two)[i] == item);
    }
    if two.contains(item) {
        let i = choose|i: int| 0 <= i < two.len() && two[i] == item;
        assert((one + two)[one.len() + i] == item);
    }
}

proof fn hands_hold_all_abilities(
    s: StateModel,
    player: PlayerId,
    cards: Seq<ObjectId>,
    card: ObjectId,
    ability: AbilityModel,
)
    requires
        cards.contains(card),
        card_abilities(s, player, card).contains(ability),
    ensures
        hand_abilities(s, player, cards).contains(ability),
    decreases cards.len(),
{
    let rest = cards.drop_last();
    if card != cards.last() {
        let i = choose|i: int| 0 <= i < cards.len() && cards[i] == card;
        assert(rest[i] == card);
        hands_hold_all_abilities(s, player, rest, card, ability);
    }
    joined_contains(
        hand_abilities(s, player, rest),
        card_abilities(s, player, cards.last()),
        ability,
    );
}

proof fn openings_hold_all_abilities(
    s: StateModel,
    order: Seq<PlayerId>,
    player: PlayerId,
    ability: AbilityModel,
)
    requires
        order.contains(player),
        hand_abilities(s, player, s.player(player).hand).contains(ability),
    ensures
        opening_abilities(s, order).contains(ability),
    decreases order.len(),
{
    let rest = order.drop_last();
    let last = order.last();
    if player != last {
        let i = choose|i: int| 0 <= i < order.len() && order[i] == player;
        assert(rest[i] == player);
        openings_hold_all_abilities(s, rest, player, ability);
    }
    joined_contains(
        opening_abilities(s, rest),
        hand_abilities(s, last, s.player(last).hand),
        ability,
    );
}

/// CR 103.6: Every ability of kind `BeginGame` of every card in an opening hand is queued, also
/// where a card has several.
pub proof fn all_begin_game_abilities_are_queued(
    s: StateModel,
    player: PlayerId,
    card: ObjectId,
    i: int,
)
    requires
        s.seat_order.contains(player),
        s.player(player).hand.contains(card),
        s.objects.contains_key(card),
        0 <= i < s.objects[card].abilities.len(),
        s.objects[card].abilities[i].kind == AbilityKind::BeginGame,
    ensures
        queued(s).pending_begin_game_abilities.contains(
            resolved_from(s.objects[card].abilities[i], card, player),
        ),
{
    let printed = s.objects[card].abilities;
    let definition = printed[i];
    let ability = resolved_from(definition, card, player);
    let passes = |other: DefinitionModel| other.kind == AbilityKind::BeginGame;
    filter_facts(printed, passes);
    assert(printed.contains(definition));
    let chosen = printed.filter(passes);
    assert(chosen.contains(definition));
    let k = choose|k: int| 0 <= k < chosen.len() && chosen[k] == definition;
    assert(card_abilities(s, player, card)[k] == ability);
    assert(card_abilities(s, player, card).contains(ability));
    hands_hold_all_abilities(s, player, s.player(player).hand, card, ability);
    openings_hold_all_abilities(s, s.seat_order, player, ability);
    let all = opening_abilities(s, s.seat_order);
    let n = choose|n: int| 0 <= n < all.len() && all[n] == ability;
    assert(queued(s).pending_begin_game_abilities[all.len() - 1 - n] == ability);
}

/// CR 103.6: Of two abilities of opening hands the one of the earlier player in turn order, and
/// of one player's the one of the earlier card, and of one card's the one printed earlier,
/// resolves first: abilities are taken from the end of the queue.
pub proof fn abilities_resolve_in_turn_order(s: StateModel, i: int)
    requires
        0 <= i < opening_abilities(s, s.seat_order).len(),
    ensures
        ({
            let queue = queued(s).pending_begin_game_abilities;
            &&& queue.len() == opening_abilities(s, s.seat_order).len()
            &&& queue[queue.len() - 1 - i] == opening_abilities(s, s.seat_order)[i]
        }),
{
}

/// The players of some entries, in the same order.
pub open spec fn deciders(pending: Seq<MulliganDecisionEntry>) -> Seq<PlayerId> {
    pending.map_values(|entry: MulliganDecisionEntry| entry.player)
}

/// The players in turn order who have not locked in a hand.
pub open spec fn undecided(s: StateModel) -> Seq<PlayerId> {
    s.seat_order.filter(|player: PlayerId| !s.final_mulligan_counts.contains_key(player))
}

/// The invariant of the decisions: the players asked are, in turn order, exactly those who have
/// not locked in a hand; each of them has a mulligan left; nobody has taken more than there are,
/// and nobody owes more than a starting hand for the last one.
pub open spec fn decision_phase(s: StateModel, pending: Seq<MulliganDecisionEntry>) -> bool {
    &&& deciders(pending) == undecided(s)
    &&& forall|i: int|
        0 <= i < pending.len() ==> (#[trigger] pending[i]).mulligan_count < MAX_MULLIGANS
    &&& forall|player: PlayerId| #[trigger]
        s.final_mulligan_counts.contains_key(player) ==> s.final_mulligan_counts[player]
            <= MAX_MULLIGANS
    &&& forall|player: PlayerId| #[trigger]
        s.forced_bottom_counts.contains_key(player) ==> s.forced_bottom_counts[player]
            <= STARTING_HAND_SIZE
}

/// Filtering keeps every element that passes and repeats nothing.
pub proof fn filter_facts<A>(order: Seq<A>, passes: spec_fn(A) -> bool)
    ensures
        forall|item: A| #[trigger]
            order.filter(passes).contains(item) <==> order.contains(item) && passes(item),
        order.no_duplicates() ==> order.filter(passes).no_duplicates(),
    decreases order.len(),
{
    reveal(Seq::filter);
    if order.len() > 0 {
        let rest = order.drop_last();
        let last = order.last();
        filter_facts(rest, passes);
        let before = rest.filter(passes);
        let after = order.filter(passes);
        assert(order =~= rest.push(last));
        assert forall|item: A| #[trigger] after.contains(item) <==> order.contains(
            item,
        ) && passes(item) by {
            if rest.contains(item) {
                let i = choose|i: int| 0 <= i < rest.len() && rest[i] == item;
                assert(order[i] == item);
            }
            if order.contains(item) && item != last {
                let i = choose|i: int| 0 <= i < order.len() && order[i] == item;
                assert(rest[i] == item);
            }
            if before.contains(item) {
                let i = choose|i: int| 0 <= i < before.len() && before[i] == item;
                assert(after[i] == item);
            }
            if after.contains(item) && !before.contains(item) {
                let i = choose|i: int| 0 <= i < after.len() && after[i] == item;
                assert(item == last && passes(last)) by {
                    if i < before.len() {
                        assert(before[i] == item);
                    }
                }
            }
            if item == last && passes(last) {
                assert(after[after.len() - 1] == last);
            }
            assert(order[order.len() - 1] == last);
        }
        if order.no_duplicates() {
            assert forall|i: int, j: int| 0 <= i < j < rest.len() implies rest[i] != rest[j] by {
                assert(order[i] != order[j]);
            }
            assert(!rest.contains(last)) by {
                if rest.contains(last) {
                    let i = choose|i: int| 0 <= i < rest.len() && rest[i] == last;
                    assert(order[i] == order[order.len() - 1]);
                }
            }
            assert(!before.contains(last));
            assert forall|i: int, j: int| 0 <= i < j < after.len() implies after[i] != after[j] by {
                if j < before.len() {
                    assert(before[i] != before[j]);
                } else {
                    assert(before[i] == after[i]);
                    assert(before.contains(after[i]));
                }
            }
        }
    }
}

/// Filters that agree on a list give the same list.
pub proof fn filters_agree<A>(
    order: Seq<A>,
    one: spec_fn(A) -> bool,
    two: spec_fn(A) -> bool,
)
    requires
        forall|item: A| order.contains(item) ==> #[trigger] one(item) == two(item),
    ensures
        order.filter(one) == order.filter(two),
    decreases order.len(),
{
    reveal(Seq::filter);
    if order.len() > 0 {
        let rest = order.drop_last();
        assert forall|item: A| rest.contains(item) implies #[trigger] one(item) == two(
            item,
        ) by {
            let i = choose|i: int| 0 <= i < rest.len() && rest[i] == item;
            assert(order[i] == item);
        }
        filters_agree(rest, one, two);
        assert(order[order.len() - 1] == order.last());
    }
}

/// Ruling out one more item takes exactly that one out of the list.
pub proof fn filter_loses_one<A>(
    order: Seq<A>,
    one: spec_fn(A) -> bool,
    two: spec_fn(A) -> bool,
    item: A,
    i: int,
)
    requires
        order.no_duplicates(),
        forall|other: A| #[trigger] two(other) == (one(other) && other != item),
        0 <= i < order.filter(one).len(),
        order.filter(one)[i] == item,
    ensures
        order.filter(two) == order.filter(one).remove(i),
    decreases order.len(),
{
    reveal(Seq::filter);
    filter_facts(order, one);
    if order.len() > 0 {
        let rest = order.drop_last();
        let last = order.last();
        let before = rest.filter(one);
        assert forall|j: int, k: int| 0 <= j < k < rest.len() implies rest[j] != rest[k] by {
            assert(order[j] != order[k]);
        }
        filter_facts(rest, one);
        if last == item {
            assert(!rest.contains(item)) by {
                if rest.contains(item) {
                    let j = choose|j: int| 0 <= j < rest.len() && rest[j] == item;
                    assert(order[j] == order[order.len() - 1]);
                }
            }
            assert(!before.contains(item));
            if i < before.len() {
                assert(before[i] == order.filter(one)[i]);
                assert(before.contains(before[i]));
            }
            filters_agree(rest, one, two);
            assert(order.filter(two) =~= order.filter(one).remove(i));
        } else {
            if i == before.len() {
                assert(order.filter(one)[i] == last);
            }
            assert(before[i] == item);
            filter_loses_one(rest, one, two, item, i);
            assert(order.filter(two) =~= order.filter(one).remove(i));
        }
    }
}

/// CR 103.5: When mulligans start everyone in turn order is asked, and nobody has taken any.
pub proof fn starting_asks_everyone(s: StateModel, events: Seq<GameEvent>)
    requires
        s.valid(),
        s.final_mulligan_counts.dom().is_empty(),
        s.forced_bottom_counts.dom().is_empty(),
    ensures
        ({
            let step = started(s, events);
            &&& step.next is MulliganDecision
            &&& deciders(step.next->MulliganDecision_pending) == s.seat_order
            &&& decision_phase(step.state, step.next->MulliganDecision_pending)
        }),
{
    let ready = libraries_shuffled(s);
    let step = started(s, events);
    let pending = step.next->MulliganDecision_pending;
    dealing_keeps_the_rest(ready, s.seat_order);
    assert(deciders(pending) =~= s.seat_order);
    let t = step.state;
    let passes = |player: PlayerId| !t.final_mulligan_counts.contains_key(player);
    everyone_passes(s.seat_order, passes);
}

/// A filter that everything passes leaves a list as it is.
pub proof fn everyone_passes<A>(order: Seq<A>, passes: spec_fn(A) -> bool)
    requires
        forall|item: A| #[trigger] passes(item),
    ensures
        order.filter(passes) == order,
    decreases order.len(),
{
    reveal(Seq::filter);
    if order.len() > 0 {
        everyone_passes(order.drop_last(), passes);
        assert(order =~= order.drop_last().push(order.last()));
    }
}

proof fn dealing_keeps_the_rest(s: StateModel, order: Seq<PlayerId>)
    ensures
        dealt(s, order).seat_order == s.seat_order,
        dealt(s, order).final_mulligan_counts == s.final_mulligan_counts,
        dealt(s, order).forced_bottom_counts == s.forced_bottom_counts,
    decreases order.len(),
{
    if order.len() > 0 {
        dealing_keeps_the_rest(s, order.drop_last());
    }
}

/// CR 103.5: A decision takes the player out of those who are asked exactly if it locks in their
/// hand. Everybody else is asked as before, in the same order. Once nobody is asked any more,
/// everyone has locked in a hand.
pub proof fn deciding_keeps_asking_the_undecided(
    s: StateModel,
    pending: Seq<MulliganDecisionEntry>,
    i: int,
    keep: bool,
)
    requires
        s.valid(),
        decision_phase(s, pending),
        0 <= i < pending.len(),
    ensures
        decision_phase(decision_state(s, pending[i], keep), decision_left(pending, i, keep)),
        decision_left(pending, i, keep).len() == 0 ==> forall|k: int|
            0 <= k < s.seat_order.len() ==> decision_state(
                s,
                pending[i],
                keep,
            ).final_mulligan_counts.contains_key(#[trigger] s.seat_order[k]),
{
    let entry = pending[i];
    let player = entry.player;
    let t = decision_state(s, entry, keep);
    let left = decision_left(pending, i, keep);
    let before = |other: PlayerId| !s.final_mulligan_counts.contains_key(other);
    let after = |other: PlayerId| !t.final_mulligan_counts.contains_key(other);
    assert(t.seat_order == s.seat_order);
    if keep || counted(entry) >= MAX_MULLIGANS {
        assert(deciders(pending)[i] == player);
        filter_loses_one(s.seat_order, before, after, player, i);
        assert(deciders(left) =~= deciders(pending).remove(i));
        assert forall|j: int| 0 <= j < left.len() implies (#[trigger] left[j]).mulligan_count
            < MAX_MULLIGANS by {
            assert(left[j] == pending[if j < i {
                j
            } else {
                j + 1
            }]);
        }
        assert forall|other: PlayerId| #[trigger]
            t.final_mulligan_counts.contains_key(other) implies t.final_mulligan_counts[other]
            <= MAX_MULLIGANS by {
            if other != player {
                assert(s.final_mulligan_counts.contains_key(other));
            }
        }
        assert(s.has_player(player)) by {
            filter_facts(s.seat_order, before);
            assert(undecided(s).contains(player));
            let k = choose|k: int| 0 <= k < s.seat_order.len() && s.seat_order[k] == player;
            assert(s.has_player(s.seat_order[k]));
        }
        redrawn_hand_is_small(s, player);
        assert forall|other: PlayerId| #[trigger]
            t.forced_bottom_counts.contains_key(other) implies t.forced_bottom_counts[other]
            <= STARTING_HAND_SIZE by {
            if other != player {
                assert(s.forced_bottom_counts.contains_key(other));
            }
        }
    } else {
        assert(deciders(left) =~= deciders(pending));
        assert(before =~= after);
        assert forall|j: int| 0 <= j < left.len() implies (#[trigger] left[j]).mulligan_count
            < MAX_MULLIGANS by {
            assert(pending[j].mulligan_count < MAX_MULLIGANS);
        }
    }
    if left.len() == 0 {
        filter_facts(s.seat_order, after);
        assert(undecided(t) =~= deciders(left));
        assert forall|k: int|
            0 <= k < s.seat_order.len() implies t.final_mulligan_counts.contains_key(
            #[trigger] s.seat_order[k],
        ) by {
            let other = s.seat_order[k];
            assert(s.seat_order.contains(other));
            assert(!s.seat_order.filter(after).contains(other));
        }
    }
}

/// CR 103.5: Nobody puts cards on the bottom, and the game does not begin, before the last player
/// has locked in a hand.
pub proof fn bottoms_wait_for_everyone(
    s: StateModel,
    pending: Seq<MulliganDecisionEntry>,
    i: int,
    keep: bool,
    events: Seq<GameEvent>,
)
    ensures
        decided(s, pending, i, keep, events).next is MulliganDecision <==> decision_left(
            pending,
            i,
            keep,
        ).len() > 0,
{
    let t = decision_state(s, pending[i], keep);
    let begun = StateModel { resolving_begin_game_abilities: true, ..queued(settled(t)) };
    draining_asks_nothing_of_hands(
        begun,
        begun.pending_begin_game_abilities,
        events + decision_events(s, pending[i], keep),
    );
}

/// A decision changes the record of its player alone, and the size of no other hand.
pub proof fn decision_facts(s: StateModel, entry: MulliganDecisionEntry, keep: bool)
    requires
        s.valid(),
        s.has_player(entry.player),
    ensures
        ({
            let t = decision_state(s, entry, keep);
            &&& t.valid()
            &&& t.seat_order == s.seat_order
            &&& t.format_config == s.format_config
            &&& t.final_mulligan_counts == if keep {
                s.final_mulligan_counts.insert(entry.player, entry.mulligan_count)
            } else if counted(entry) >= MAX_MULLIGANS {
                s.final_mulligan_counts.insert(entry.player, counted(entry))
            } else {
                s.final_mulligan_counts
            }
            &&& t.forced_bottom_counts == if keep {
                s.forced_bottom_counts.remove(entry.player)
            } else if counted(entry) >= MAX_MULLIGANS {
                s.forced_bottom_counts.insert(entry.player, hand_size(t, entry.player) as u8)
            } else {
                s.forced_bottom_counts
            }
        }),
        forall|other: PlayerId| #[trigger]
            s.has_player(other) ==> decision_state(s, entry, keep).has_player(other)
                && cards_of(decision_state(s, entry, keep), other) == cards_of(s, other)
                && hand_size(decision_state(s, entry, keep), other) == if other == entry.player
                && !keep {
                deal_size(hand_size(s, other) + library_size(s, other))
            } else {
                hand_size(s, other)
            } && hand_size(decision_state(s, entry, keep), other) + library_size(
                decision_state(s, entry, keep),
                other,
            ) == hand_size(s, other) + library_size(s, other),
{
    let t = decision_state(s, entry, keep);
    let player = entry.player;
    let drawn = redrawn(s, player);
    redrawing_keeps_valid(s, player);
    mulligan_redraws_seven(s, player);
    if keep {
        waiting_keeps_valid(s, t);
    } else {
        waiting_keeps_valid(drawn, t);
    }
    shuffle_permutes(
        s.zone_list(player, Zone::Library) + s.zone_list(player, Zone::Hand),
        s.rng,
    );
    assert forall|other: PlayerId| #[trigger] s.has_player(other) implies t.has_player(other)
        && cards_of(t, other) == cards_of(s, other) && hand_size(t, other) == if other == player
        && !keep {
        deal_size(hand_size(s, other) + library_size(s, other))
    } else {
        hand_size(s, other)
    } && hand_size(t, other) + library_size(t, other) == hand_size(s, other) + library_size(
        s,
        other,
    ) by {
        if keep {
            assert(t.zone_list(other, Zone::Hand) == s.zone_list(other, Zone::Hand));
            assert(t.zone_list(other, Zone::Library) == s.zone_list(other, Zone::Library));
        } else {
            assert(drawn.has_player(other));
            assert(t.zone_list(other, Zone::Hand) == drawn.zone_list(other, Zone::Hand));
            assert(t.zone_list(other, Zone::Library) == drawn.zone_list(other, Zone::Library));
            let whole = drawn.zone_list(player, Zone::Hand) + drawn.zone_list(
                player,
                Zone::Library,
            );
            assert(whole.len() == s.zone_list(player, Zone::Library).len() + s.zone_list(
                player,
                Zone::Hand,
            ).len());
        }
    }
}

/// A player is asked at most once at a time.
pub proof fn nobody_is_asked_twice(s: StateModel, pending: Seq<MulliganDecisionEntry>)
    requires
        s.valid(),
        decision_phase(s, pending),
    ensures
        deciders(pending).no_duplicates(),
{
    filter_facts(
        s.seat_order,
        |player: PlayerId| !s.final_mulligan_counts.contains_key(player),
    );
}

/// The players who owe cards.
pub open spec fn debtors(pending: Seq<MulliganBottomEntry>) -> Seq<PlayerId> {
    pending.map_values(|entry: MulliganBottomEntry| entry.player)
}

/// CR 103.5: The players asked to put cards on the bottom are, in turn order, exactly those who
/// took a mulligan that counts, and each owes one card for every such mulligan.
pub proof fn exactly_the_mulliganers_owe_cards(s: StateModel, order: Seq<PlayerId>)
    ensures
        debtors(owed_bottoms(s, order)) == order.filter(
            |player: PlayerId| owed_by(s, player) > 0,
        ),
        forall|i: int|
            0 <= i < owed_bottoms(s, order).len() ==> (#[trigger] owed_bottoms(s, order)[i]).count
                == owed_by(s, owed_bottoms(s, order)[i].player),
    decreases order.len(),
{
    reveal(Seq::filter);
    let owing = |player: PlayerId| owed_by(s, player) > 0;
    if order.len() == 0 {
        assert(debtors(owed_bottoms(s, order)) =~= order.filter(owing));
    } else {
        exactly_the_mulliganers_owe_cards(s, order.drop_last());
        assert(debtors(owed_bottoms(s, order)) =~= order.filter(owing));
    }
}

/// CR 103.5c: Where the first mulligan is free a player who keeps owes one card less than they
/// took mulligans, and nothing after the first.
pub proof fn first_mulligan_is_free(s: StateModel, entry: MulliganDecisionEntry)
    requires
        grants_free_first(s),
    ensures
        ({
            let owed = owed_by(decision_state(s, entry, true), entry.player);
            &&& entry.mulligan_count <= 1 ==> owed == 0
            &&& entry.mulligan_count > 1 ==> owed == entry.mulligan_count - 1
        }),
{
}

/// CR 103.5: In a duel without a free mulligan a player who keeps owes one card for every mulligan
/// taken.
pub proof fn every_mulligan_counts(s: StateModel, entry: MulliganDecisionEntry)
    requires
        !grants_free_first(s),
    ensures
        owed_by(decision_state(s, entry, true), entry.player) == entry.mulligan_count,
{
}

/// CR 103.5: The last mulligan there is locks in the new hand, and the player owes all of it.
pub proof fn last_mulligan_costs_the_whole_hand(s: StateModel, entry: MulliganDecisionEntry)
    requires
        s.valid(),
        s.has_player(entry.player),
        MAX_MULLIGANS - 1 <= entry.mulligan_count < u8::MAX,
    ensures
        ({
            let t = decision_state(s, entry, false);
            &&& t.final_mulligan_counts.contains_key(entry.player)
            &&& owed_by(t, entry.player) == t.zone_list(entry.player, Zone::Hand).len()
            &&& t.zone_list(entry.player, Zone::Hand).len() == deal_size(
                s.zone_list(entry.player, Zone::Hand).len() + s.zone_list(
                    entry.player,
                    Zone::Library,
                ).len(),
            )
        }),
{
    mulligan_redraws_seven(s, entry.player);
    let t = decision_state(s, entry, false);
    assert(t.zone_list(entry.player, Zone::Hand) == redrawn(s, entry.player).zone_list(
        entry.player,
        Zone::Hand,
    ));
}

/// A player after a card of theirs has gone to the bottom of their library.
pub open spec fn with_card_at_bottom(
    player: PlayerModel,
    card: ObjectId,
    from: Zone,
) -> PlayerModel {
    let library = if from == Zone::Library {
        player.library.remove_value(card)
    } else {
        player.library
    };
    PlayerModel {
        hand: if from == Zone::Hand {
            player.hand.remove_value(card)
        } else {
            player.hand
        },
        library: library.push(card),
        ..player
    }
}

/// The state after a card of a hand or a library has gone to the bottom: the owner's hand and
/// library and the place of the card have changed, and nothing else.
pub open spec fn with_bottom_card(s: StateModel, card: ObjectId) -> StateModel {
    let object = s.objects[card];
    StateModel {
        players: s.players.update(
            position_of(s.players, object.owner),
            with_card_at_bottom(s.player(object.owner), card, object.zone),
        ),
        objects: s.objects.insert(card, ObjectModel { zone: Zone::Library, ..object }),
        ..s
    }
}

/// Putting a card of a hand or a library on the bottom does just that.
pub proof fn bottoming_one_card(s: StateModel, card: ObjectId)
    requires
        s.has_player(s.objects[card].owner),
        s.objects[card].zone == Zone::Hand || s.objects[card].zone == Zone::Library,
    ensures
        s.moved_to_library(card, false) == with_bottom_card(s, card),
        same_ids(s.players, with_bottom_card(s, card).players),
{
    let object = s.objects[card];
    let owner = object.owner;
    let from = object.zone;
    let left = s.zone_list(owner, from).remove_value(card);
    zone_lists_are_separate(s, owner, from, left);
    let lifted = s.lifted(card);
    same_ids_same_positions(s.players, lifted.players, owner);
    assert(s.moved_to_library(card, false).players =~= with_bottom_card(s, card).players);
}

/// CR 103.5: The cards of a choice that is not refused go to the bottom of the library in the
/// order named, and leave the hand otherwise as it was. As many cards leave it as were owed.
pub proof fn chosen_cards_go_to_the_bottom(s: StateModel, player: PlayerId, cards: Seq<ObjectId>)
    requires
        s.valid(),
        s.has_player(player),
        bottom_refusal(s, player, cards) is None,
    ensures
        ({
            let t = bottomed(s, cards);
            let pending = s.waiting_for->MulliganBottomCards_pending;
            &&& t.zone_list(player, Zone::Hand).len() + pending[bottom_index(pending, player)].count
                == s.zone_list(player, Zone::Hand).len()
            &&& t.zone_list(player, Zone::Hand) == s.zone_list(player, Zone::Hand).filter(
                |card: ObjectId| !cards.contains(card),
            )
            &&& t.zone_list(player, Zone::Library) == s.zone_list(player, Zone::Library) + cards
            &&& t.objects == rezoned(s.objects, cards, Zone::Library)
            &&& bottomed_events(s, cards) == zone_changes(cards, Zone::Hand, Zone::Library)
        }),
{
    chosen_cards_exist(s, player, cards);
    bottoming_distinct_cards(s, player, cards);
}

proof fn bottoming_distinct_cards(s: StateModel, player: PlayerId, cards: Seq<ObjectId>)
    requires
        s.valid(),
        s.has_player(player),
        cards.no_duplicates(),
        forall|i: int|
            0 <= i < cards.len() ==> s.resides(#[trigger] cards[i], player, Zone::Hand),
    ensures
        ({
            let t = bottomed(s, cards);
            &&& t.zone_list(player, Zone::Hand) == s.zone_list(player, Zone::Hand).filter(
                |card: ObjectId| !cards.contains(card),
            )
            &&& t.zone_list(player, Zone::Library) == s.zone_list(player, Zone::Library) + cards
            &&& t.objects == rezoned(s.objects, cards, Zone::Library)
            &&& bottomed_events(s, cards) == zone_changes(cards, Zone::Hand, Zone::Library)
            &&& same_ids(s.players, t.players)
            &&& t.zone_list(player, Zone::Hand).len() + cards.len() == hand_size(s, player)
        }),
    decreases cards.len(),
{
    let hand = s.zone_list(player, Zone::Hand);
    let outside = |card: ObjectId| !cards.contains(card);
    if cards.len() == 0 {
        everyone_passes(hand, outside);
        assert(s.zone_list(player, Zone::Library) + cards =~= s.zone_list(player, Zone::Library));
        assert(s.objects =~= rezoned(s.objects, cards, Zone::Library));
        assert(bottomed_events(s, cards) =~= zone_changes(cards, Zone::Hand, Zone::Library));
    } else {
        let rest = cards.drop_last();
        let card = cards.last();
        assert(cards =~= rest.push(card));
        assert forall|i: int| 0 <= i < rest.len() implies s.resides(
            #[trigger] rest[i],
            player,
            Zone::Hand,
        ) by {
            assert(rest[i] == cards[i]);
        }
        assert forall|i: int, j: int| 0 <= i < j < rest.len() implies rest[i] != rest[j] by {
            assert(cards[i] != cards[j]);
        }
        bottoming_distinct_cards(s, player, rest);
        let before = bottomed(s, rest);
        let t = bottomed(s, cards);
        let unmoved = |other: ObjectId| !rest.contains(other);
        assert(!rest.contains(card)) by {
            if rest.contains(card) {
                let i = choose|i: int| 0 <= i < rest.len() && rest[i] == card;
                assert(cards[i] == cards[cards.len() - 1]);
            }
        }
        assert(s.resides(cards[cards.len() - 1], player, Zone::Hand));
        same_ids_same_positions(s.players, before.players, player);
        bottoming_one_card(before, card);
        same_ids_same_positions(before.players, t.players, player);
        let left = before.zone_list(player, Zone::Hand);
        assert(s.zone_matches(player, Zone::Hand));
        assert(hand.contains(card));
        filter_facts(hand, unmoved);
        assert(left.contains(card));
        left.index_of_first_ensures(card);
        let k = left.index_of_first(card).unwrap();
        assert forall|other: ObjectId| #[trigger] outside(other) == (unmoved(other) && other
            != card) by {
            if rest.contains(other) {
                let i = choose|i: int| 0 <= i < rest.len() && rest[i] == other;
                assert(cards[i] == other);
            }
            if cards.contains(other) && other != card {
                let i = choose|i: int| 0 <= i < cards.len() && cards[i] == other;
                assert(rest[i] == other);
            }
            assert(cards[cards.len() - 1] == card);
        }
        filter_loses_one(hand, unmoved, outside, card, k);
        assert(t.zone_list(player, Zone::Hand) =~= hand.filter(outside));
        assert(t.zone_list(player, Zone::Library) =~= s.zone_list(player, Zone::Library) + cards);
        assert(t.objects =~= rezoned(s.objects, cards, Zone::Library)) by {
            assert forall|other: ObjectId| cards.contains(other) <==> !outside(other) by {}
            assert forall|other: ObjectId| rest.contains(other) <==> !unmoved(other) by {}
        }
        assert(bottomed_events(s, cards) =~= zone_changes(cards, Zone::Hand, Zone::Library));
    }
}

/// The cards are in the hand or the library of their owner, `player`.
pub open spec fn holds_cards(s: StateModel, player: PlayerId, cards: Seq<ObjectId>) -> bool {
    forall|i: int|
        0 <= i < cards.len() ==> s.objects.contains_key(#[trigger] cards[i])
            && s.objects[cards[i]].owner == player && (s.objects[cards[i]].zone == Zone::Hand
            || s.objects[cards[i]].zone == Zone::Library)
}

/// Cards going to the bottom concern only the hand and the library of their owner.
pub proof fn bottoming_touches_one_player(s: StateModel, player: PlayerId, cards: Seq<ObjectId>)
    requires
        s.has_player(player),
        holds_cards(s, player, cards),
    ensures
        ({
            let t = bottomed(s, cards);
            &&& t == (StateModel { players: t.players, objects: t.objects, ..s })
            &&& same_ids(s.players, t.players)
            &&& t.objects.dom() == s.objects.dom()
            &&& holds_cards(t, player, cards)
        }),
        forall|k: int|
            0 <= k < s.players.len() && k != position_of(s.players, player)
                ==> #[trigger] bottomed(s, cards).players[k] == s.players[k],
        forall|card: ObjectId| #[trigger]
            s.objects.contains_key(card) ==> bottomed(s, cards).objects[card].owner
                == s.objects[card].owner && (s.objects[card].owner != player ==> bottomed(
                s,
                cards,
            ).objects[card] == s.objects[card]) && (bottomed(s, cards).objects[card].zone
                == s.objects[card].zone || bottomed(s, cards).objects[card].zone == Zone::Library),
    decreases cards.len(),
{
    if cards.len() == 0 {
        same_ids_same_positions(s.players, s.players, player);
    } else {
        let rest = cards.drop_last();
        let card = cards.last();
        assert forall|i: int| 0 <= i < rest.len() implies s.objects.contains_key(#[trigger] rest[i])
            && s.objects[rest[i]].owner == player && (s.objects[rest[i]].zone == Zone::Hand
            || s.objects[rest[i]].zone == Zone::Library) by {
            assert(rest[i] == cards[i]);
        }
        bottoming_touches_one_player(s, player, rest);
        let before = bottomed(s, rest);
        let t = bottomed(s, cards);
        assert(s.objects.contains_key(cards[cards.len() - 1]));
        assert(before.objects.dom().contains(card));
        same_ids_same_positions(s.players, before.players, player);
        bottoming_one_card(before, card);
        assert(t.objects.dom() =~= s.objects.dom());
        assert forall|i: int| 0 <= i < cards.len() implies t.objects.contains_key(
            #[trigger] cards[i],
        ) && t.objects[cards[i]].owner == player && (t.objects[cards[i]].zone == Zone::Hand
            || t.objects[cards[i]].zone == Zone::Library) by {
            assert(s.objects.contains_key(cards[i]));
            assert(s.objects.dom().contains(cards[i]));
        }
    }
}

/// Whatever cards of theirs a player puts on the bottom, no card is lost.
pub proof fn bottoming_loses_no_card(s: StateModel, player: PlayerId, cards: Seq<ObjectId>)
    requires
        s.valid(),
        s.has_player(player),
        holds_cards(s, player, cards),
    ensures
        cards_of(bottomed(s, cards), player) == cards_of(s, player),
    decreases cards.len(),
{
    if cards.len() > 0 {
        let rest = cards.drop_last();
        let card = cards.last();
        assert forall|i: int| 0 <= i < rest.len() implies s.objects.contains_key(#[trigger] rest[i])
            && s.objects[rest[i]].owner == player && (s.objects[rest[i]].zone == Zone::Hand
            || s.objects[rest[i]].zone == Zone::Library) by {
            assert(rest[i] == cards[i]);
        }
        bottoming_loses_no_card(s, player, rest);
        bottoming_touches_one_player(s, player, rest);
        bottoming_keeps_valid(s, rest);
        let before = bottomed(s, rest);
        let t = bottomed(s, cards);
        assert(s.objects.contains_key(cards[cards.len() - 1]));
        assert(before.objects.dom().contains(card));
        same_ids_same_positions(s.players, before.players, player);
        bottoming_one_card(before, card);
        same_ids_same_positions(before.players, t.players, player);
        let from = before.objects[card].zone;
        let list = before.zone_list(player, from);
        assert(before.zone_matches(player, from));
        assert(before.resides(card, player, from));
        assert(list.contains(card));
        list.index_of_first_ensures(card);
        let k = list.index_of_first(card).unwrap();
        vstd::seq_lib::to_multiset_remove(list, k);
        let library = with_card_at_bottom(before.player(player), card, from).library;
        vstd::seq_lib::to_multiset_build(library.drop_last(), card);
        assert(library =~= library.drop_last().push(card));
        assert(library.drop_last() =~= if from == Zone::Library {
            list.remove(k)
        } else {
            before.zone_list(player, Zone::Library)
        });
        vstd::seq_lib::to_multiset_contains(list, card);
        assert(cards_of(t, player) =~= cards_of(before, player));
    }
}

/// No object has left the game.
pub open spec fn keeps_objects(s: StateModel, t: StateModel) -> bool {
    s.objects.dom().subset_of(t.objects.dom())
}

proof fn draining_keeps_objects(s: StateModel, queue: Seq<AbilityModel>, events: Seq<GameEvent>)
    ensures
        keeps_objects(s, drained(s, queue, events).state),
    decreases queue.len(),
{
    if queue.len() > 0 {
        let rest = queue.drop_last();
        let popped = StateModel { pending_begin_game_abilities: rest, ..s };
        let outcome = chain_outcome(popped, queue.last(), events, 0);
        chain_keeps(popped, queue.last(), events, 0);
        if outcome.state.waiting_for is Priority {
            draining_keeps_objects(outcome.state, rest, outcome.events);
        }
    }
}

proof fn finishing_keeps_objects(s: StateModel, events: Seq<GameEvent>)
    ensures
        keeps_objects(s, finished(settled(s), events).state),
{
    let begun = StateModel { resolving_begin_game_abilities: true, ..queued(settled(s)) };
    draining_keeps_objects(begun, begun.pending_begin_game_abilities, events);
}

/// No decision takes a card out of the game, also if it is the last one and the game begins.
pub proof fn deciding_keeps_all_cards(
    s: StateModel,
    pending: Seq<MulliganDecisionEntry>,
    i: int,
    keep: bool,
    events: Seq<GameEvent>,
)
    ensures
        keeps_objects(s, decided(s, pending, i, keep, events).state),
{
    let t = decision_state(s, pending[i], keep);
    assert(t.objects.dom() =~= s.objects.dom());
    finishing_keeps_objects(t, events + decision_events(s, pending[i], keep));
}

/// No choice takes a card out of the game, also if it is the last one and the game begins.
pub proof fn bottoming_keeps_all_cards(
    s: StateModel,
    pending: Seq<MulliganBottomEntry>,
    i: int,
    cards: Seq<ObjectId>,
    events: Seq<GameEvent>,
)
    ensures
        keeps_objects(s, bottoms_chosen(s, pending, i, cards, events).state),
{
    bottomed_objects(s, cards);
    finishing_keeps_objects(bottomed(s, cards), events + bottomed_events(s, cards));
}

proof fn bottomed_objects(s: StateModel, cards: Seq<ObjectId>)
    ensures
        keeps_objects(s, bottomed(s, cards)),
    decreases cards.len(),
{
    if cards.len() > 0 {
        bottomed_objects(s, cards.drop_last());
    }
}

/// How many more mulligans the players who are asked can take, all together.
pub open spec fn decisions_left(pending: Seq<MulliganDecisionEntry>) -> int
    decreases pending.len(),
{
    if pending.len() == 0 {
        0
    } else {
        decisions_left(pending.drop_last()) + MAX_MULLIGANS - pending.last().mulligan_count
    }
}

proof fn decisions_left_without(pending: Seq<MulliganDecisionEntry>, i: int)
    requires
        0 <= i < pending.len(),
    ensures
        decisions_left(pending.remove(i)) == decisions_left(pending) - MAX_MULLIGANS
            + pending[i].mulligan_count,
    decreases pending.len(),
{
    let rest = pending.drop_last();
    if i == pending.len() - 1 {
        assert(pending.remove(i) =~= rest);
    } else {
        decisions_left_without(rest, i);
        assert(pending.remove(i).drop_last() =~= rest.remove(i));
    }
}

proof fn decisions_left_with(
    pending: Seq<MulliganDecisionEntry>,
    i: int,
    entry: MulliganDecisionEntry,
)
    requires
        0 <= i < pending.len(),
    ensures
        decisions_left(pending.update(i, entry)) == decisions_left(pending)
            + pending[i].mulligan_count - entry.mulligan_count,
    decreases pending.len(),
{
    let rest = pending.drop_last();
    if i == pending.len() - 1 {
        assert(pending.update(i, entry).drop_last() =~= rest);
    } else {
        decisions_left_with(rest, i, entry);
        assert(pending.update(i, entry).drop_last() =~= rest.update(i, entry));
    }
}

/// CR 103.5: Nobody can take mulligans for ever: every decision leaves fewer to come, and there
/// are never fewer than none.
pub proof fn decisions_run_out(
    s: StateModel,
    pending: Seq<MulliganDecisionEntry>,
    i: int,
    keep: bool,
)
    requires
        decision_phase(s, pending),
        0 <= i < pending.len(),
    ensures
        0 <= decisions_left(decision_left(pending, i, keep)) < decisions_left(pending),
{
    let left = decision_left(pending, i, keep);
    if keep || counted(pending[i]) >= MAX_MULLIGANS {
        decisions_left_without(pending, i);
        assert forall|j: int| 0 <= j < left.len() implies (#[trigger] left[j]).mulligan_count
            < MAX_MULLIGANS by {
            assert(left[j] == pending[if j < i {
                j
            } else {
                j + 1
            }]);
        }
    } else {
        let entry = MulliganDecisionEntry {
            player: pending[i].player,
            mulligan_count: counted(pending[i]),
        };
        decisions_left_with(pending, i, entry);
        assert forall|j: int| 0 <= j < left.len() implies (#[trigger] left[j]).mulligan_count
            < MAX_MULLIGANS by {
            assert(pending[j].mulligan_count < MAX_MULLIGANS);
        }
    }
    decisions_left_at_least_none(left);
}

proof fn decisions_left_at_least_none(pending: Seq<MulliganDecisionEntry>)
    requires
        forall|i: int|
            0 <= i < pending.len() ==> (#[trigger] pending[i]).mulligan_count < MAX_MULLIGANS,
    ensures
        decisions_left(pending) >= 0,
    decreases pending.len(),
{
    if pending.len() > 0 {
        let rest = pending.drop_last();
        assert forall|i: int| 0 <= i < rest.len() implies (#[trigger] rest[i]).mulligan_count
            < MAX_MULLIGANS by {
            assert(rest[i] == pending[i]);
        }
        decisions_left_at_least_none(rest);
        assert(pending[pending.len() - 1].mulligan_count < MAX_MULLIGANS);
    }
}

/// Everyone in turn order holds at least a starting hand.
pub open spec fn hands_full(s: StateModel) -> bool {
    forall|i: int|
        0 <= i < s.seat_order.len() ==> hand_size(s, #[trigger] s.seat_order[i])
            >= STARTING_HAND_SIZE
}

/// With seven cards or more in every library everyone starts with a full hand.
pub proof fn large_libraries_fill_hands(s: StateModel, events: Seq<GameEvent>)
    requires
        s.valid(),
        forall|i: int|
            0 <= i < s.seat_order.len() ==> library_size(s, #[trigger] s.seat_order[i])
                >= STARTING_HAND_SIZE,
    ensures
        hands_full(started(s, events).state),
{
    let t = started(s, events).state;
    dealing_keeps_the_rest(libraries_shuffled(s), s.seat_order);
    assert forall|i: int| 0 <= i < t.seat_order.len() implies hand_size(
        t,
        #[trigger] t.seat_order[i],
    ) >= STARTING_HAND_SIZE by {
        let player = s.seat_order[i];
        assert(s.has_player(player));
        assert(library_size(s, player) >= STARTING_HAND_SIZE);
        starting_deals_seven(s, events, player);
        assert(s.seat_order.contains(player));
    }
}

/// Hands stay full whatever players decide.
pub proof fn deciding_keeps_hands_full(s: StateModel, entry: MulliganDecisionEntry, keep: bool)
    requires
        s.valid(),
        s.has_player(entry.player),
        hands_full(s),
    ensures
        hands_full(decision_state(s, entry, keep)),
{
    let t = decision_state(s, entry, keep);
    decision_facts(s, entry, keep);
    assert forall|i: int| 0 <= i < t.seat_order.len() implies hand_size(
        t,
        #[trigger] t.seat_order[i],
    ) >= STARTING_HAND_SIZE by {
        assert(s.has_player(s.seat_order[i]));
        assert(hand_size(s, s.seat_order[i]) >= STARTING_HAND_SIZE);
    }
}

/// Each of the players who owe cards owes once, and holds at least as many.
pub open spec fn payable(s: StateModel, pending: Seq<MulliganBottomEntry>) -> bool {
    &&& debtors(pending).no_duplicates()
    &&& forall|i: int|
        0 <= i < pending.len() ==> s.has_player((#[trigger] pending[i]).player)
            && pending[i].count <= hand_size(s, pending[i].player)
}

/// With full hands nobody owes more cards than they hold.
pub proof fn full_hands_can_pay(s: StateModel, pending: Seq<MulliganDecisionEntry>)
    requires
        s.valid(),
        decision_phase(s, pending),
        hands_full(s),
    ensures
        payable(s, owed_bottoms(s, s.seat_order)),
{
    let owed = owed_bottoms(s, s.seat_order);
    exactly_the_mulliganers_owe_cards(s, s.seat_order);
    filter_facts(s.seat_order, |player: PlayerId| owed_by(s, player) > 0);
    assert forall|i: int| 0 <= i < owed.len() implies s.has_player((#[trigger] owed[i]).player)
        && owed[i].count <= hand_size(s, owed[i].player) by {
        let player = owed[i].player;
        assert(debtors(owed)[i] == player);
        assert(debtors(owed).contains(player));
        assert(s.seat_order.contains(player));
        let k = choose|k: int| 0 <= k < s.seat_order.len() && s.seat_order[k] == player;
        assert(s.has_player(s.seat_order[k]));
        assert(hand_size(s, s.seat_order[k]) >= STARTING_HAND_SIZE);
        if s.final_mulligan_counts.contains_key(player) {
            assert(s.final_mulligan_counts[player] <= MAX_MULLIGANS);
        }
        if s.forced_bottom_counts.contains_key(player) {
            assert(s.forced_bottom_counts[player] <= STARTING_HAND_SIZE);
        }
    }
}

/// Paying what one player owes leaves what the others owe payable.
pub proof fn paying_leaves_debts_payable(s: StateModel, player: PlayerId, cards: Seq<ObjectId>)
    requires
        s.valid(),
        bottom_refusal(s, player, cards) is None,
        payable(s, s.waiting_for->MulliganBottomCards_pending),
    ensures
        ({
            let pending = s.waiting_for->MulliganBottomCards_pending;
            payable(bottomed(s, cards), pending.remove(bottom_index(pending, player)))
        }),
{
    let pending = s.waiting_for->MulliganBottomCards_pending;
    let i = bottom_index(pending, player);
    assert(is_bottom_of(pending, player, i));
    assert(s.has_player(pending[i].player));
    chosen_cards_exist(s, player, cards);
    assert forall|k: int| 0 <= k < cards.len() implies s.objects.contains_key(#[trigger] cards[k])
        && s.objects[cards[k]].owner == player && (s.objects[cards[k]].zone == Zone::Hand
        || s.objects[cards[k]].zone == Zone::Library) by {
        assert(s.resides(cards[k], player, Zone::Hand));
    }
    bottoming_touches_one_player(s, player, cards);
    let t = bottomed(s, cards);
    let left = pending.remove(i);
    assert(debtors(left) =~= debtors(pending).remove(i));
    assert forall|j: int| 0 <= j < left.len() implies t.has_player((#[trigger] left[j]).player)
        && left[j].count <= hand_size(t, left[j].player) by {
        let from = if j < i {
            j
        } else {
            j + 1
        };
        assert(left[j] == pending[from]);
        let other = left[j].player;
        assert(debtors(pending)[from] == other);
        assert(debtors(pending)[i] == player);
        assert(s.has_player(other));
        same_ids_same_positions(s.players, t.players, other);
        same_ids_same_positions(s.players, t.players, player);
        let k = position_of(s.players, other);
        assert(t.players[k] == s.players[k]);
    }
}

/// What a mulligan leaves where: the shuffled cards, the top ones in the hand and the others in
/// the library, each object where its card is, and everything but cards and numbers as it was.
pub proof fn redrawn_cards(s: StateModel, player: PlayerId)
    requires
        s.valid(),
        s.has_player(player),
    ensures
        ({
            let t = redrawn(s, player);
            let cards = s.zone_list(player, Zone::Library) + s.zone_list(player, Zone::Hand);
            let deck = arranged(cards, cards.len(), picks_of(s.rng, cards.len()));
            let drawn: int = if deck.len() < 7 {
                deck.len() as int
            } else {
                7
            };
            let at = position_of(s.players, player);
            &&& deck.len() == cards.len()
            &&& same_ids(s.players, t.players)
            &&& t.zone_list(player, Zone::Hand) == deck.take(drawn)
            &&& t.zone_list(player, Zone::Library) == deck.skip(drawn)
            &&& t.players[at] == (PlayerModel {
                hand: deck.take(drawn),
                library: deck.skip(drawn),
                ..s.players[at]
            })
            &&& forall|k: int|
                0 <= k < s.players.len() && k != at ==> #[trigger] t.players[k] == s.players[k]
            &&& t.objects.dom() == s.objects.dom()
            &&& forall|id: ObjectId| #[trigger]
                s.objects.contains_key(id) ==> t.objects[id] == (ObjectModel {
                    zone: if deck.take(drawn).contains(id) {
                        Zone::Hand
                    } else if deck.contains(id) {
                        Zone::Library
                    } else {
                        s.objects[id].zone
                    },
                    ..s.objects[id]
                })
            &&& t == (StateModel {
                players: t.players,
                objects: t.objects,
                rng: advanced_by(
                    s.rng,
                    if cards.len() == 0 {
                        0
                    } else {
                        (cards.len() - 1) as nat
                    },
                ),
                ..s
            })
        }),
{
    let hand = s.zone_list(player, Zone::Hand);
    let library = s.zone_list(player, Zone::Library);
    let cards = library + hand;
    shuffling_goes_by_the_numbers_drawn(cards, s.rng);
    shuffle_permutes(cards, s.rng);
    let deck = shuffled(cards, s.rng);
    let mid = reshuffled(s, player);
    let t = redrawn(s, player);
    let k = drawable(mid, player, STARTING_HAND_SIZE as nat);
    reshuffle_lists(s, player);
    assert(mid.has_player(player));
    transfer_lists(mid, player, Zone::Library, Zone::Hand, k);
    same_ids_same_positions(s.players, mid.players, player);
    same_ids_same_positions(mid.players, t.players, player);
    assert(mid.zone_list(player, Zone::Library) == deck);
    assert(mid.zone_list(player, Zone::Hand) == Seq::<ObjectId>::empty());
    assert(Seq::<ObjectId>::empty() + deck.take(k as int) =~= deck.take(k as int));
    let gathered = s.transferred(player, Zone::Hand, Zone::Library, hand.len());
    transfer_lists(s, player, Zone::Hand, Zone::Library, hand.len());
    assert(hand.take(hand.len() as int) =~= hand);
    same_ids_same_positions(s.players, gathered.players, player);
    let at = position_of(s.players, player);
    assert(is_position(s.players, player, at));
    assert(gathered.has_player(player));
    assert(gathered.zone_list(player, Zone::Library) == cards);
    assert(mid.rng == rng_after_shuffle(s.rng, cards.len()));
    assert(t.rng == mid.rng);
    transferring_touches_one_player(s, player, Zone::Hand, Zone::Library, hand.len());
    transferring_touches_one_player(mid, player, Zone::Library, Zone::Hand, k);
    assert(t.players[at] =~= (PlayerModel {
        hand: deck.take(k as int),
        library: deck.skip(k as int),
        ..s.players[at]
    })) by {
        assert(t.zone_list(player, Zone::Hand) == deck.take(k as int));
        assert(t.zone_list(player, Zone::Library) == deck.skip(k as int));
    }
    assert(t.objects.dom() =~= s.objects.dom());
    assert forall|id: ObjectId| #[trigger] s.objects.contains_key(id) implies t.objects[id] == (
    ObjectModel {
        zone: if deck.take(k as int).contains(id) {
            Zone::Hand
        } else if deck.contains(id) {
            Zone::Library
        } else {
            s.objects[id].zone
        },
        ..s.objects[id]
    }) by {
        permutation_facts(cards, deck);
        assert(s.zone_matches(player, Zone::Library));
        assert(library.contains(id) <==> s.resides(id, player, Zone::Library));
        assert(cards.contains(id) <==> library.contains(id) || hand.contains(id)) by {
            joined_contains(library, hand, id);
            if cards.contains(id) {
                let n = choose|n: int| 0 <= n < cards.len() && cards[n] == id;
                if n < library.len() {
                    assert(library[n] == id);
                } else {
                    assert(hand[n - library.len()] == id);
                }
            }
        }
    }
}

/// A transfer between zones of a player changes no other player, and nothing but the two lists and
/// the zones of the cards.
pub proof fn transferring_touches_one_player(
    s: StateModel,
    player: PlayerId,
    from: Zone,
    to: Zone,
    k: nat,
)
    requires
        s.has_player(player),
        from != to,
        is_private(from),
        is_private(to),
    ensures
        ({
            let t = s.transferred(player, from, to, k);
            let at = position_of(s.players, player);
            &&& t == (StateModel { players: t.players, objects: t.objects, ..s })
            &&& t.players.len() == s.players.len()
            &&& t.players[at] == (PlayerModel {
                hand: t.players[at].hand,
                library: t.players[at].library,
                graveyard: t.players[at].graveyard,
                ..s.players[at]
            })
            &&& from != Zone::Graveyard && to != Zone::Graveyard ==> t.players[at].graveyard
                == s.players[at].graveyard
            &&& forall|n: int|
                0 <= n < s.players.len() && n != at ==> #[trigger] t.players[n] == s.players[n]
        }),
{
    same_ids_same_positions(s.players, s.players, player);
    let list = s.zone_list(player, from);
    let once = s.with_zone_list(player, from, list.skip(k as int));
    zone_lists_are_separate(s, player, from, list.skip(k as int));
    same_ids_same_positions(s.players, once.players, player);
}

} // verus!
