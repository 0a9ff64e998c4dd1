use vstd::prelude::*;
use vstd::string::*;
use crate::game::ability_utils::build_resolved_from_def;
#[allow(unused_imports)]
use crate::game::ability_utils::resolved_from;
use crate::game::effects::resolve_ability_chain;
#[allow(unused_imports)]
use crate::game::effects::{
    asks_nothing_of_hands, chain_asks_nothing_of_hands, chain_keeps, chain_outcome,
};
use crate::game::turns::auto_advance;
#[allow(unused_imports)]
use crate::game::turns::{advance_events, advanced, priority};
use crate::game::zones::{move_to_library_position, move_to_zone};
#[allow(unused_imports)]
use crate::game::zones::{
    moving_keeps_valid, moving_to_library_keeps_valid, transfer_lists, transfer_of_nothing,
    transfer_step, transferring_keeps_valid, zone_changes,
};
use crate::types::ability::{AbilityDefinition, AbilityKind};
#[allow(unused_imports)]
use crate::types::ability::{AbilityModel, DefinitionModel};
use crate::types::events::GameEvent;
#[allow(unused_imports)]
use crate::types::format::free_first_format;
use crate::types::game_object::GameObject;
use crate::types::game_state::{
    GameState, MulliganBottomEntry, MulliganDecisionEntry, PendingBeginGameAbility, WaitingFor,
};
#[allow(unused_imports)]
use crate::types::game_state::{
    pending_models, permuting_keeps_valid, waiting_keeps_valid, zone_lists_are_separate, StateModel,
    WaitModel,
};
use crate::types::identifiers::{ObjectId, PlayerId};
use crate::types::player::{find_player, Player};
#[allow(unused_imports)]
use crate::types::player::{position_of, same_ids, same_ids_same_positions, PlayerModel};
use crate::types::zones::Zone;
use crate::util::rng::shuffle_vector;
#[allow(unused_imports)]
use crate::util::rng::{rng_after_shuffle, shuffle_permutes, shuffled, GameRng};
use crate::util::text::decimal_text;
#[allow(unused_imports)]
use crate::util::text::decimal;

verus! {

/// CR 103.4: The starting hand is seven cards.
pub const STARTING_HAND_SIZE: usize = 7;

/// CR 103.5: The mulligan after which the opening hand would be empty.
pub const MAX_MULLIGANS: u8 = 7;

/// CR 103.5c: The first mulligan is free in a multiplayer game, and in a duel whose format says
/// so.
pub open spec fn grants_free_first(s: StateModel) -> bool {
    s.seat_order.len() > 2 || free_first_format(s.format_config.format)
}

/// Whether the first mulligan is free.
pub fn free_first_mulligan(state: &GameState) -> (granted: bool)
    ensures
        granted == grants_free_first(state@),
{
    state.seat_order.len() > 2 || state.format_config.format.grants_free_first_mulligan()
}

/// CR 103.5: The cards a player puts on the bottom, one for each mulligan that counts.
pub open spec fn bottom_count(mulligan_count: u8, free_first: bool) -> u8 {
    if free_first && mulligan_count > 0 {
        (mulligan_count - 1) as u8
    } else {
        mulligan_count
    }
}

/// Counts the cards a player puts on the bottom.
pub fn bottom_count_for(mulligan_count: u8, free_first: bool) -> (count: u8)
    ensures
        count == bottom_count(mulligan_count, free_first),
{
    if free_first {
        mulligan_count.saturating_sub(1)
    } else {
        mulligan_count
    }
}

/// How many of `n` cards a player can draw.
pub open spec fn drawable(s: StateModel, player: PlayerId, n: nat) -> nat {
    if n <= s.player(player).library.len() {
        n
    } else {
        s.player(player).library.len()
    }
}

/// The state after a player has drawn `n` cards, or all there are.
pub open spec fn drawn(s: StateModel, player: PlayerId, n: nat) -> StateModel {
    s.transferred(player, Zone::Library, Zone::Hand, drawable(s, player, n))
}

/// What drawing reports: each card that moves, then how many cards were to be drawn.
pub open spec fn draw_events(s: StateModel, player: PlayerId, n: usize) -> Seq<GameEvent> {
    let cards = s.player(player).library.take(drawable(s, player, n as nat) as int);
    zone_changes(cards, Zone::Library, Zone::Hand).push(
        GameEvent::CardsDrawn { player_id: player, count: n as u32 },
    )
}

/// Draws up to `count` cards from the top of a player's library.
fn draw_n(state: &mut GameState, player_id: PlayerId, count: usize, events: &mut Vec<GameEvent>)
    requires
        old(state)@.valid(),
        old(state)@.has_player(player_id),
    ensures
        final(state)@ == drawn(old(state)@, player_id, count as nat),
        final(events)@ == old(events)@ + draw_events(old(state)@, player_id, count),
        final(state)@.valid(),
{
    let ghost start = state@;
    let ghost library = start.zone_list(player_id, Zone::Library);
    proof {
        transfer_of_nothing(start, player_id, Zone::Library, Zone::Hand);
    }
    let mut i: usize = 0;
    while i < count
        invariant_except_break
            i <= count,
        invariant
            start == old(state)@,
            start.valid(),
            start.has_player(player_id),
            library == start.zone_list(player_id, Zone::Library),
            i <= library.len(),
            state@ == start.transferred(player_id, Zone::Library, Zone::Hand, i as nat),
            state@.valid(),
            events@ =~= old(events)@ + zone_changes(
                library.take(i as int),
                Zone::Library,
                Zone::Hand,
            ),
        ensures
            i == drawable(start, player_id, count as nat),
        decreases count - i,
    {
        proof {
            transfer_lists(start, player_id, Zone::Library, Zone::Hand, i as nat);
            assert(state@.has_player(player_id));
        }
        let seat: usize = find_player(&state.players, player_id).unwrap();
        assert(state@.players[seat as int].library == library.skip(i as int)) by {
            assert(state@.zone_list(player_id, Zone::Library) == library.skip(i as int));
        }
        if state.players[seat].library.is_empty() {
            break ;
        }
        let top_card: ObjectId = state.players[seat].library[0];
        proof {
            transfer_step(start, player_id, Zone::Library, Zone::Hand, i as nat);
            moving_keeps_valid(state@, top_card, Zone::Hand);
            assert(library.take(i + 1) =~= library.take(i as int).push(top_card));
        }
        move_to_zone(state, top_card, Zone::Hand, events);
        i = i + 1;
    }
    events.push(GameEvent::CardsDrawn { player_id, count: count as u32 });
}

/// The state after a player has shuffled their hand into their library.
pub open spec fn reshuffled(s: StateModel, player: PlayerId) -> StateModel {
    let gathered = s.transferred(
        player,
        Zone::Hand,
        Zone::Library,
        s.player(player).hand.len(),
    );
    let library = gathered.player(player).library;
    StateModel {
        rng: rng_after_shuffle(s.rng, library.len()),
        ..gathered.with_zone_list(player, Zone::Library, shuffled(library, s.rng))
    }
}

pub open spec fn reshuffle_events(s: StateModel, player: PlayerId) -> Seq<GameEvent> {
    zone_changes(s.player(player).hand, Zone::Hand, Zone::Library)
}

/// What shuffling a hand away does to the zones of every player.
pub proof fn reshuffle_lists(s: StateModel, player: PlayerId)
    requires
        s.has_player(player),
    ensures
        same_ids(s.players, reshuffled(s, player).players),
        forall|other: PlayerId| #[trigger]
            reshuffled(s, player).has_player(other) == s.has_player(other),
        forall|other: PlayerId, zone: Zone|
            s.has_player(other) ==> #[trigger] reshuffled(s, player).zone_list(other, zone)
                == if other == player && zone == Zone::Hand {
                Seq::empty()
            } else if other == player && zone == Zone::Library {
                shuffled(s.player(player).library + s.player(player).hand, s.rng)
            } else {
                s.zone_list(other, zone)
            },
{
    let hand = s.zone_list(player, Zone::Hand);
    let library = s.zone_list(player, Zone::Library);
    let gathered = s.transferred(player, Zone::Hand, Zone::Library, hand.len());
    transfer_lists(s, player, Zone::Hand, Zone::Library, hand.len());
    assert(gathered.has_player(player));
    assert(hand.take(hand.len() as int) =~= hand);
    assert(hand.skip(hand.len() as int) =~= Seq::empty());
    let list = shuffled(library + hand, s.rng);
    assert(gathered.zone_list(player, Zone::Library) == library + hand);
    let ordered = gathered.with_zone_list(player, Zone::Library, list);
    zone_lists_are_separate(gathered, player, Zone::Library, list);
    let t = reshuffled(s, player);
    assert forall|other: PlayerId| #[trigger] t.has_player(other) == s.has_player(other) by {
        assert(ordered.has_player(other) == gathered.has_player(other));
        assert(gathered.has_player(other) == s.has_player(other));
    }
    assert forall|other: PlayerId, zone: Zone| s.has_player(other) implies #[trigger] t.zone_list(
        other,
        zone,
    ) == if other == player && zone == Zone::Hand {
        Seq::empty()
    } else if other == player && zone == Zone::Library {
        list
    } else {
        s.zone_list(other, zone)
    } by {
        assert(gathered.has_player(other));
        assert(t.zone_list(other, zone) == ordered.zone_list(other, zone));
        assert(gathered.zone_list(other, zone) == gathered.zone_list(other, zone));
    }
}

/// Shuffling a hand away keeps a valid game valid.
pub proof fn reshuffling_keeps_valid(s: StateModel, player: PlayerId)
    requires
        s.valid(),
        s.has_player(player),
    ensures
        reshuffled(s, player).valid(),
{
    let hand = s.zone_list(player, Zone::Hand);
    let gathered = s.transferred(player, Zone::Hand, Zone::Library, hand.len());
    transferring_keeps_valid(s, player, Zone::Hand, Zone::Library, hand.len());
    transfer_lists(s, player, Zone::Hand, Zone::Library, hand.len());
    assert(gathered.has_player(player));
    let library = gathered.zone_list(player, Zone::Library);
    shuffle_permutes(library, s.rng);
    zone_lists_are_separate(gathered, player, Zone::Library, shuffled(library, s.rng));
    let ordered = gathered.with_zone_list(player, Zone::Library, shuffled(library, s.rng));
    let t = reshuffled(s, player);
    assert forall|owner: PlayerId, zone: Zone| gathered.has_player(owner) implies (
    #[trigger] t.zone_list(owner, zone)).to_multiset() == gathered.zone_list(
        owner,
        zone,
    ).to_multiset() by {
        assert(t.zone_list(owner, zone) == ordered.zone_list(owner, zone));
    }
    permuting_keeps_valid(gathered, t);
}

/// Puts a player's hand into their library and shuffles it.
fn shuffle_hand_into_library(
    state: &mut GameState,
    player: PlayerId,
    events: &mut Vec<GameEvent>,
)
    requires
        old(state)@.valid(),
        old(state)@.has_player(player),
    ensures
        final(state)@ == reshuffled(old(state)@, player),
        final(events)@ == old(events)@ + reshuffle_events(old(state)@, player),
        final(state)@.valid(),
{
    let ghost start = state@;
    let seat: usize = find_player(&state.players, player).unwrap();
    let hand: Vec<ObjectId> = state.players[seat].hand.clone();
    proof {
        transfer_of_nothing(start, player, Zone::Hand, Zone::Library);
    }
    for i in 0..hand.len()
        invariant
            start == old(state)@,
            start.valid(),
            start.has_player(player),
            hand@ == start.zone_list(player, Zone::Hand),
            state@ == start.transferred(player, Zone::Hand, Zone::Library, i as nat),
            state@.valid(),
            events@ =~= old(events)@ + zone_changes(
                hand@.take(i as int),
                Zone::Hand,
                Zone::Library,
            ),
    {
        proof {
            transfer_step(start, player, Zone::Hand, Zone::Library, i as nat);
            moving_keeps_valid(state@, hand@[i as int], Zone::Library);
            assert(hand@.take(i + 1) =~= hand@.take(i as int).push(hand@[i as int]));
        }
        move_to_zone(state, hand[i], Zone::Library, events);
    }
    assert(hand@.take(hand@.len() as int) =~= hand@);
    let ghost gathered = state@;
    proof {
        transfer_lists(start, player, Zone::Hand, Zone::Library, hand@.len());
        assert(gathered.has_player(player));
        same_ids_same_positions(gathered.players, gathered.players, player);
    }
    let seat: usize = find_player(&state.players, player).unwrap();
    shuffle_vector(&mut state.players[seat].library, &mut state.rng);
    proof {
        assert(state@ =~= reshuffled(start, player));
        reshuffling_keeps_valid(start, player);
    }
}

/// A state, what has been reported on the way to it, and what the game waits for next.
#[verifier::ext_equal]
pub struct Step {
    pub state: StateModel,
    pub events: Seq<GameEvent>,
    pub next: WaitModel,
}

/// The state in which the game waits for the next answer.
pub open spec fn awaiting(step: Step) -> StateModel {
    StateModel { waiting_for: step.next, ..step.state }
}

/// The abilities among some printed on a card that function at the beginning of the game, made
/// ready to resolve, in the order in which they are printed.
pub open spec fn begin_game_abilities(
    definitions: Seq<DefinitionModel>,
    card: ObjectId,
    player: PlayerId,
) -> Seq<AbilityModel> {
    definitions.filter(
        |definition: DefinitionModel| definition.kind == AbilityKind::BeginGame,
    ).map_values(|definition: DefinitionModel| resolved_from(definition, card, player))
}

/// What a card in a player's opening hand does at the beginning of the game.
pub open spec fn card_abilities(s: StateModel, player: PlayerId, card: ObjectId) -> Seq<
    AbilityModel,
> {
    if s.objects.contains_key(card) {
        begin_game_abilities(s.objects[card].abilities, card, player)
    } else {
        Seq::empty()
    }
}

/// The beginning-of-game abilities of some cards of a player, in the order of the cards.
pub open spec fn hand_abilities(s: StateModel, player: PlayerId, cards: Seq<ObjectId>) -> Seq<
    AbilityModel,
>
    decreases cards.len(),
{
    if cards.len() == 0 {
        Seq::empty()
    } else {
        hand_abilities(s, player, cards.drop_last()) + card_abilities(s, player, cards.last())
    }
}

/// The beginning-of-game abilities in the opening hands of some players, in turn order.
pub open spec fn opening_abilities(s: StateModel, order: Seq<PlayerId>) -> Seq<AbilityModel>
    decreases order.len(),
{
    if order.len() == 0 {
        Seq::empty()
    } else {
        opening_abilities(s, order.drop_last()) + hand_abilities(
            s,
            order.last(),
            s.player(order.last()).hand,
        )
    }
}

/// The state once the beginning-of-game abilities wait to resolve, the next one last.
pub open spec fn queued(s: StateModel) -> StateModel {
    StateModel {
        pending_begin_game_abilities: opening_abilities(s, s.seat_order).reverse(),
        ..s
    }
}

/// Appends the beginning-of-game abilities of a card.
fn push_begin_game_abilities(
    object: &GameObject,
    card: ObjectId,
    player: PlayerId,
    queue: &mut Vec<PendingBeginGameAbility>,
)
    ensures
        pending_models(final(queue)@) == pending_models(old(queue)@) + begin_game_abilities(
            object@.abilities,
            card,
            player,
        ),
{
    let ghost definitions = object@.abilities;
    let ghost earlier = pending_models(queue@);
    proof {
        reveal(Seq::filter);
        assert(begin_game_abilities(definitions.take(0), card, player) =~= Seq::empty());
    }
    for i in 0..object.abilities.len()
        invariant
            definitions == object@.abilities,
            pending_models(queue@) =~= earlier + begin_game_abilities(
                definitions.take(i as int),
                card,
                player,
            ),
    {
        let definition: &AbilityDefinition = &object.abilities[i];
        let ghost collected = pending_models(queue@);
        let ghost before = begin_game_abilities(definitions.take(i as int), card, player);
        let ghost after = begin_game_abilities(definitions.take(i + 1), card, player);
        proof {
            reveal(Seq::filter);
            assert(definitions.take(i + 1).drop_last() =~= definitions.take(i as int));
            assert(definitions.take(i + 1).last() == definition@);
            if definition.kind == AbilityKind::BeginGame {
                assert(after =~= before.push(resolved_from(definition@, card, player)));
            } else {
                assert(after =~= before);
            }
        }
        if definition.kind == AbilityKind::BeginGame {
            queue.push(
                PendingBeginGameAbility {
                    ability: build_resolved_from_def(definition, card, player),
                },
            );
            assert(pending_models(queue@) =~= collected.push(queue@.last().ability@));
        }
    }
    assert(definitions.take(definitions.len() as int) =~= definitions);
}

/// Queues all beginning-of-game abilities of the cards in every opening hand.
fn queue_begin_game_abilities(state: &mut GameState)
    requires
        old(state)@.seats_taken(),
    ensures
        final(state)@ == queued(old(state)@),
{
    let mut begin_game: Vec<PendingBeginGameAbility> = Vec::new();
    let ghost start = state@;
    let ghost order = start.seat_order;
    for i in 0..state.seat_order.len()
        invariant
            start == state@,
            start.seats_taken(),
            order == start.seat_order,
            pending_models(begin_game@) =~= opening_abilities(start, order.take(i as int)),
    {
        let player_id: PlayerId = state.seat_order[i];
        assert(start.has_player(order[i as int]));
        let seat: usize = find_player(&state.players, player_id).unwrap();
        let player: &Player = &state.players[seat];
        let ghost hand = start.player(player_id).hand;
        let ghost earlier = pending_models(begin_game@);
        assert(player.hand@ == hand);
        for k in 0..player.hand.len()
            invariant
                start == state@,
                player.hand@ == hand,
                pending_models(begin_game@) =~= earlier + hand_abilities(
                    start,
                    player_id,
                    hand.take(k as int),
                ),
        {
            let card: ObjectId = player.hand[k];
            assert(hand.take(k + 1).drop_last() =~= hand.take(k as int));
            assert(hand.take(k + 1).last() == card);
            if let Some(object) = state.objects.get(&card) {
                push_begin_game_abilities(object, card, player_id, &mut begin_game);
            }
        }
        assert(hand.take(hand.len() as int) =~= hand);
        assert(order.take(i + 1).drop_last() =~= order.take(i as int));
    }
    assert(order.take(order.len() as int) =~= order);
    let ghost forward = pending_models(begin_game@);
    let mut reversed: Vec<PendingBeginGameAbility> = Vec::new();
    assert(forward.skip(forward.len() as int).reverse() =~= Seq::empty());
    loop
        invariant
            begin_game@.len() <= forward.len(),
            pending_models(begin_game@) =~= forward.take(begin_game@.len() as int),
            pending_models(reversed@) =~= forward.skip(begin_game@.len() as int).reverse(),
        ensures
            begin_game@.len() == 0,
        decreases begin_game@.len(),
    {
        let ghost left = begin_game@.len() as int;
        let ghost remaining = pending_models(begin_game@);
        let ghost turned = pending_models(reversed@);
        match begin_game.pop() {
            Some(next) => {
                assert(next.ability@ == remaining[left - 1]);
                assert(remaining[left - 1] == forward.take(left)[left - 1]);
                reversed.push(next);
                assert(pending_models(begin_game@) =~= remaining.take(left - 1));
                assert(pending_models(reversed@) =~= turned.push(forward[left - 1]));
                assert(forward.skip(left - 1).reverse() =~= forward.skip(left).reverse().push(
                    forward[left - 1],
                ));
            },
            None => {
                break ;
            },
        }
    }
    assert(forward.skip(0) =~= forward);
    state.pending_begin_game_abilities = reversed;
    assert(state@ =~= queued(start));
}

/// The abilities of `queue` resolve from its end on; the first that asks for a choice stops the
/// rest. Once all have resolved the first turn goes on.
pub open spec fn drained(s: StateModel, queue: Seq<AbilityModel>, events: Seq<GameEvent>) -> Step
    decreases queue.len(),
{
    if queue.len() == 0 {
        let done = StateModel {
            pending_begin_game_abilities: queue,
            resolving_begin_game_abilities: false,
            ..s
        };
        Step {
            state: advanced(done),
            events: events + advance_events(done),
            next: priority(done),
        }
    } else {
        let rest = queue.drop_last();
        let outcome = chain_outcome(
            StateModel { pending_begin_game_abilities: rest, ..s },
            queue.last(),
            events,
            0,
        );
        if outcome.state.waiting_for is Priority {
            drained(outcome.state, rest, outcome.events)
        } else {
            Step {
                state: outcome.state,
                events: outcome.events,
                next: outcome.state.waiting_for,
            }
        }
    }
}

pub open spec fn resumed(s: StateModel, events: Seq<GameEvent>) -> Step {
    drained(s, s.pending_begin_game_abilities, events)
}

/// CR 103.6: Drains the beginning-of-game abilities after mulligans, prompting for optional ones
/// before anyone receives priority in the first turn.
pub fn resume_begin_game_abilities(
    state: &mut GameState,
    events: &mut Vec<GameEvent>,
) -> (waiting: WaitingFor)
    ensures
        resumed(old(state)@, old(events)@) == (Step {
            state: final(state)@,
            events: final(events)@,
            next: waiting@,
        }),
        old(state)@.valid() ==> final(state)@.valid(),
{
    loop
        invariant
            resumed(state@, events@) == resumed(old(state)@, old(events)@),
            old(state)@.valid() ==> state@.valid(),
        ensures
            state.pending_begin_game_abilities@.len() == 0,
        decreases state.pending_begin_game_abilities@.len(),
    {
        let ghost before = state@;
        let ghost reported = events@;
        let ghost queue = before.pending_begin_game_abilities;
        match state.pending_begin_game_abilities.pop() {
            Some(pending) => {
                let ghost popped = state@;
                proof {
                    assert(pending_models(state.pending_begin_game_abilities@)
                        =~= queue.drop_last());
                    assert(popped =~= (StateModel {
                        pending_begin_game_abilities: queue.drop_last(),
                        ..before
                    }));
                    if before.valid() {
                        waiting_keeps_valid(before, popped);
                    }
                    chain_keeps(popped, pending.ability@, reported, 0);
                }
                let _ = resolve_ability_chain(state, &pending.ability, events, 0);
                assert(state@.pending_begin_game_abilities.len() == queue.len() - 1);
                if !matches!(state.waiting_for, WaitingFor::Priority { .. }) {
                    return state.waiting_for.clone();
                }
            },
            None => {
                break ;
            },
        }
    }
    let ghost before = state@;
    state.resolving_begin_game_abilities = false;
    proof {
        assert(before.pending_begin_game_abilities =~= Seq::empty());
        assert(state@ =~= (StateModel {
            pending_begin_game_abilities: before.pending_begin_game_abilities,
            resolving_begin_game_abilities: false,
            ..before
        }));
        if before.valid() {
            waiting_keeps_valid(before, state@);
            waiting_keeps_valid(state@, advanced(state@));
        }
    }
    auto_advance(state, events)
}

/// The game begins: the opening abilities are queued and resolve.
pub open spec fn finished(s: StateModel, events: Seq<GameEvent>) -> Step {
    resumed(StateModel { resolving_begin_game_abilities: true, ..queued(s) }, events)
}

/// All players have kept: the game starts.
fn finish_mulligans(state: &mut GameState, events: &mut Vec<GameEvent>) -> (waiting: WaitingFor)
    requires
        old(state)@.seats_taken(),
    ensures
        finished(old(state)@, old(events)@) == (Step {
            state: final(state)@,
            events: final(events)@,
            next: waiting@,
        }),
        old(state)@.valid() ==> final(state)@.valid(),
{
    queue_begin_game_abilities(state);
    state.resolving_begin_game_abilities = true;
    proof {
        assert(state@ =~= (StateModel {
            resolving_begin_game_abilities: true,
            ..queued(old(state)@)
        }));
        if old(state)@.valid() {
            waiting_keeps_valid(old(state)@, state@);
        }
    }
    resume_begin_game_abilities(state, events)
}

/// The mulligans a player locked in a hand with; none if the player never decided.
pub open spec fn final_count(s: StateModel, player: PlayerId) -> u8 {
    if s.final_mulligan_counts.contains_key(player) {
        s.final_mulligan_counts[player]
    } else {
        0
    }
}

/// The cards that a player owes to the bottom of their library: the whole hand after the last
/// mulligan there is, else one card for each mulligan that counts.
pub open spec fn owed_by(s: StateModel, player: PlayerId) -> u8 {
    if s.forced_bottom_counts.contains_key(player) {
        s.forced_bottom_counts[player]
    } else {
        bottom_count(final_count(s, player), grants_free_first(s))
    }
}

/// The players among `order` who owe cards, and how many, in turn order.
pub open spec fn owed_bottoms(s: StateModel, order: Seq<PlayerId>) -> Seq<MulliganBottomEntry>
    decreases order.len(),
{
    if order.len() == 0 {
        Seq::empty()
    } else {
        let before = owed_bottoms(s, order.drop_last());
        let count = owed_by(s, order.last());
        if count > 0 {
            before.push(MulliganBottomEntry { player: order.last(), count })
        } else {
            before
        }
    }
}

/// No mulligans are on record.
pub open spec fn settled(s: StateModel) -> StateModel {
    StateModel { final_mulligan_counts: Map::empty(), forced_bottom_counts: Map::empty(), ..s }
}

/// Clears the record of mulligans.
fn settle(state: &mut GameState)
    ensures
        final(state)@ == settled(old(state)@),
        old(state)@.valid() ==> final(state)@.valid(),
{
    state.final_mulligan_counts.clear();
    state.forced_bottom_counts.clear();
    proof {
        assert(state@ =~= settled(old(state)@));
        if old(state)@.valid() {
            waiting_keeps_valid(old(state)@, state@);
        }
    }
}

/// Seats stay taken as long as seats and players stay.
proof fn same_seats(s: StateModel, t: StateModel)
    requires
        t.players == s.players,
        t.seat_order == s.seat_order,
    ensures
        t.seats_taken() == s.seats_taken(),
{
    assert forall|player: PlayerId| s.has_player(player) == #[trigger] t.has_player(player) by {}
    if s.seats_taken() {
        assert forall|i: int| 0 <= i < t.seat_order.len() implies t.has_player(
            #[trigger] t.seat_order[i],
        ) by {
            assert(s.has_player(s.seat_order[i]));
        }
    }
    if t.seats_taken() {
        assert forall|i: int| 0 <= i < s.seat_order.len() implies s.has_player(
            #[trigger] s.seat_order[i],
        ) by {
            assert(t.has_player(t.seat_order[i]));
        }
    }
}

/// Players put cards on the bottom if anyone owes any; else the game begins.
pub open spec fn bottom_phase(s: StateModel, events: Seq<GameEvent>) -> Step {
    let pending = owed_bottoms(s, s.seat_order);
    if pending.len() == 0 {
        finished(settled(s), events)
    } else {
        Step { state: s, events, next: WaitModel::MulliganBottomCards { pending } }
    }
}

/// CR 103.5: Enters the bottoms phase. Each player who took a mulligan that counts must put cards
/// on the bottom of their library, and who took the last one there is all of their hand; all of
/// them choose at the same time.
fn enter_bottom_phase(state: &mut GameState, events: &mut Vec<GameEvent>) -> (waiting: WaitingFor)
    requires
        old(state)@.seats_taken(),
    ensures
        bottom_phase(old(state)@, old(events)@) == (Step {
            state: final(state)@,
            events: final(events)@,
            next: waiting@,
        }),
        old(state)@.valid() ==> final(state)@.valid(),
{
    let free_first = free_first_mulligan(state);
    let mut pending: Vec<MulliganBottomEntry> = Vec::new();
    let ghost order = state@.seat_order;
    for i in 0..state.seat_order.len()
        invariant
            state@ == old(state)@,
            order == state@.seat_order,
            free_first == grants_free_first(state@),
            pending@ == owed_bottoms(state@, order.take(i as int)),
    {
        let player: PlayerId = state.seat_order[i];
        assert(order.take(i + 1).drop_last() =~= order.take(i as int));
        assert(order.take(i + 1).last() == player);
        let taken: u8 = match state.final_mulligan_counts.get(player) {
            Some(taken) => taken,
            None => 0,
        };
        let count: u8 = match state.forced_bottom_counts.get(player) {
            Some(hand) => hand,
            None => bottom_count_for(taken, free_first),
        };
        if count > 0 {
            pending.push(MulliganBottomEntry { player, count });
        }
    }
    assert(order.take(order.len() as int) =~= order);
    if pending.is_empty() {
        settle(state);
        proof {
            same_seats(old(state)@, state@);
        }
        finish_mulligans(state, events)
    } else {
        WaitingFor::MulliganBottomCards { pending }
    }
}

/// CR 103.5 + CR 800.4a: Drives the flow to the bottoms phase as if the decisions had ended, for
/// when the last player to decide leaves the game.
pub fn enter_bottom_phase_public(
    state: &mut GameState,
    events: &mut Vec<GameEvent>,
) -> (waiting: WaitingFor)
    requires
        old(state)@.seats_taken(),
    ensures
        bottom_phase(old(state)@, old(events)@) == (Step {
            state: final(state)@,
            events: final(events)@,
            next: waiting@,
        }),
        old(state)@.valid() ==> final(state)@.valid(),
{
    enter_bottom_phase(state, events)
}

/// CR 103.5 + CR 800.4a: Drives the flow to the start of the game as if all bottoms had been
/// submitted, for when the last player to owe cards leaves the game.
pub fn finish_mulligans_public(
    state: &mut GameState,
    events: &mut Vec<GameEvent>,
) -> (waiting: WaitingFor)
    requires
        old(state)@.seats_taken(),
    ensures
        finished(old(state)@, old(events)@) == (Step {
            state: final(state)@,
            events: final(events)@,
            next: waiting@,
        }),
        old(state)@.valid() ==> final(state)@.valid(),
{
    finish_mulligans(state, events)
}

/// The state once a player's mulligans are on record.
pub open spec fn locked_in(s: StateModel, player: PlayerId, count: u8) -> StateModel {
    StateModel {
        final_mulligan_counts: s.final_mulligan_counts.insert(player, count),
        forced_bottom_counts: s.forced_bottom_counts.remove(player),
        ..s
    }
}

/// CR 103.5: Records the mulligans a player locked in a hand with.
fn record_final_count(state: &mut GameState, player: PlayerId, count: u8)
    ensures
        final(state)@ == locked_in(old(state)@, player, count),
{
    state.final_mulligan_counts.insert(player, count);
    state.forced_bottom_counts.remove(player);
}

/// The state once the last mulligan there is has locked in a player's hand, all of which they owe.
pub open spec fn forced_in(s: StateModel, player: PlayerId, count: u8) -> StateModel {
    StateModel {
        final_mulligan_counts: s.final_mulligan_counts.insert(player, count),
        forced_bottom_counts: s.forced_bottom_counts.insert(
            player,
            s.zone_list(player, Zone::Hand).len() as u8,
        ),
        ..s
    }
}

/// CR 103.5: Records the mulligans of a player who may take no more, and that they owe their hand.
fn record_forced_count(state: &mut GameState, player: PlayerId, count: u8)
    requires
        old(state)@.has_player(player),
        old(state)@.zone_list(player, Zone::Hand).len() <= u8::MAX,
    ensures
        final(state)@ == forced_in(old(state)@, player, count),
{
    let ghost start = state@;
    record_final_count(state, player, count);
    let seat: usize = find_player(&state.players, player).unwrap();
    let hand: usize = state.players[seat].hand.len();
    state.forced_bottom_counts.insert(player, hand as u8);
    proof {
        assert(start.forced_bottom_counts.remove(player).insert(player, hand as u8)
            =~= start.forced_bottom_counts.insert(player, hand as u8));
    }
}

/// Once nobody has to decide any more the bottoms phase begins.
pub open spec fn after_decision(
    s: StateModel,
    pending: Seq<MulliganDecisionEntry>,
    free_first: bool,
    events: Seq<GameEvent>,
) -> Step {
    if pending.len() > 0 {
        Step {
            state: s,
            events,
            next: WaitModel::MulliganDecision { pending, free_first_mulligan: free_first },
        }
    } else {
        bottom_phase(s, events)
    }
}

/// CR 103.5: Asks the players who are left again, or goes on to the bottoms phase.
fn advance_after_decision(
    state: &mut GameState,
    pending: Vec<MulliganDecisionEntry>,
    free_first: bool,
    events: &mut Vec<GameEvent>,
) -> (waiting: WaitingFor)
    requires
        pending@.len() == 0 ==> old(state)@.seats_taken(),
    ensures
        after_decision(old(state)@, pending@, free_first, old(events)@) == (Step {
            state: final(state)@,
            events: final(events)@,
            next: waiting@,
        }),
        old(state)@.valid() ==> final(state)@.valid(),
{
    if !pending.is_empty() {
        return WaitingFor::MulliganDecision { pending, free_first_mulligan: free_first };
    }
    enter_bottom_phase(state, events)
}

/// The place of a player among those who have to decide.
pub open spec fn is_decision_of(
    pending: Seq<MulliganDecisionEntry>,
    player: PlayerId,
    i: int,
) -> bool {
    &&& 0 <= i < pending.len()
    &&& pending[i].player == player
    &&& forall|j: int| 0 <= j < i ==> (#[trigger] pending[j]).player != player
}

pub open spec fn must_decide(pending: Seq<MulliganDecisionEntry>, player: PlayerId) -> bool {
    exists|i: int| is_decision_of(pending, player, i)
}

pub open spec fn decision_index(pending: Seq<MulliganDecisionEntry>, player: PlayerId) -> int {
    choose|i: int| is_decision_of(pending, player, i)
}

/// The state after a mulligan: the hand is shuffled away and a new one is drawn.
pub open spec fn redrawn(s: StateModel, player: PlayerId) -> StateModel {
    drawn(reshuffled(s, player), player, STARTING_HAND_SIZE as nat)
}

pub open spec fn redraw_events(s: StateModel, player: PlayerId) -> Seq<GameEvent> {
    reshuffle_events(s, player) + draw_events(reshuffled(s, player), player, STARTING_HAND_SIZE)
}

/// A mulligan keeps a valid game valid.
pub proof fn redrawing_keeps_valid(s: StateModel, player: PlayerId)
    requires
        s.valid(),
        s.has_player(player),
    ensures
        redrawn(s, player).valid(),
        same_ids(s.players, redrawn(s, player).players),
        forall|other: PlayerId| #[trigger]
            redrawn(s, player).has_player(other) == s.has_player(other),
{
    let t = reshuffled(s, player);
    reshuffling_keeps_valid(s, player);
    reshuffle_lists(s, player);
    assert(t.has_player(player));
    let n = drawable(t, player, STARTING_HAND_SIZE as nat);
    transfer_lists(t, player, Zone::Library, Zone::Hand, n);
    transferring_keeps_valid(t, player, Zone::Library, Zone::Hand, n);
    assert forall|other: PlayerId| #[trigger]
        redrawn(s, player).has_player(other) == s.has_player(other) by {
        assert(t.has_player(other) == s.has_player(other));
    }
}

/// Nobody redraws more than a starting hand.
pub proof fn redrawn_hand_is_small(s: StateModel, player: PlayerId)
    requires
        s.has_player(player),
    ensures
        redrawn(s, player).has_player(player),
        redrawn(s, player).zone_list(player, Zone::Hand).len() <= STARTING_HAND_SIZE,
{
    let t = reshuffled(s, player);
    reshuffle_lists(s, player);
    assert(t.has_player(player));
    assert(t.zone_list(player, Zone::Hand) == Seq::<ObjectId>::empty());
    transfer_lists(
        t,
        player,
        Zone::Library,
        Zone::Hand,
        drawable(t, player, STARTING_HAND_SIZE as nat),
    );
}

/// The mulligans of a player once they have taken one more.
pub open spec fn counted(entry: MulliganDecisionEntry) -> u8 {
    (entry.mulligan_count + 1) as u8
}

/// The state after a decision: who keeps, or has taken the last mulligan there is, is on record
/// with the mulligans taken. The latter owes the whole hand.
pub open spec fn decision_state(
    s: StateModel,
    entry: MulliganDecisionEntry,
    keep: bool,
) -> StateModel {
    if keep {
        locked_in(s, entry.player, entry.mulligan_count)
    } else if counted(entry) >= MAX_MULLIGANS {
        forced_in(redrawn(s, entry.player), entry.player, counted(entry))
    } else {
        redrawn(s, entry.player)
    }
}

/// Who has to decide after the player at place `i` has.
pub open spec fn decision_left(
    pending: Seq<MulliganDecisionEntry>,
    i: int,
    keep: bool,
) -> Seq<MulliganDecisionEntry> {
    if keep || counted(pending[i]) >= MAX_MULLIGANS {
        pending.remove(i)
    } else {
        pending.update(
            i,
            MulliganDecisionEntry {
                player: pending[i].player,
                mulligan_count: counted(pending[i]),
            },
        )
    }
}

pub open spec fn decision_events(
    s: StateModel,
    entry: MulliganDecisionEntry,
    keep: bool,
) -> Seq<GameEvent> {
    if keep {
        Seq::empty()
    } else {
        redraw_events(s, entry.player)
    }
}

/// The decision of the player at place `i` of those who have to decide.
pub open spec fn decided(
    s: StateModel,
    pending: Seq<MulliganDecisionEntry>,
    i: int,
    keep: bool,
    events: Seq<GameEvent>,
) -> Step {
    after_decision(
        decision_state(s, pending[i], keep),
        decision_left(pending, i, keep),
        grants_free_first(s),
        events + decision_events(s, pending[i], keep),
    )
}

/// The decision of a player whom the game waits for.
pub open spec fn decision_step(
    s: StateModel,
    player: PlayerId,
    keep: bool,
    events: Seq<GameEvent>,
) -> Step {
    let pending = s.waiting_for->MulliganDecision_pending;
    decided(s, pending, decision_index(pending, player), keep, events)
}

/// Whoever takes a mulligan is a player of a valid game, and the mulligan can be counted. Who keeps
/// as the last one to decide leaves every seat with its player.
pub open spec fn decision_is_possible(s: StateModel, player: PlayerId, keep: bool) -> bool {
    (s.waiting_for matches WaitModel::MulliganDecision { pending, .. } && must_decide(
        pending,
        player,
    )) ==> {
        let pending = s.waiting_for->MulliganDecision_pending;
        &&& keep && pending.len() == 1 ==> s.seats_taken()
        &&& !keep ==> s.valid() && s.has_player(player) && pending[decision_index(
            pending,
            player,
        )].mulligan_count < u8::MAX
    }
}

/// What the game answers to a decision out of place.
pub open spec fn decision_refusal(s: StateModel, player: PlayerId) -> Option<Seq<char>> {
    match s.waiting_for {
        WaitModel::MulliganDecision { pending, .. } => if must_decide(pending, player) {
            None
        } else {
            Some(
                "Player PlayerId("@ + decimal(player.0 as nat)
                    + ") is not in the mulligan pending set"@,
            )
        },
        _ => Some("handle_mulligan_decision called outside MulliganDecision"@),
    }
}

/// Finds the place of a player among those who have to decide.
pub fn find_decision(pending: &Vec<MulliganDecisionEntry>, player: PlayerId) -> (found: Option<
    usize,
>)
    ensures
        found is Some <==> must_decide(pending@, player),
        found matches Some(i) ==> i < pending@.len() && pending@[i as int].player == player && i
            == decision_index(pending@, player),
{
    for i in 0..pending.len()
        invariant
            forall|j: int| 0 <= j < i ==> (#[trigger] pending@[j]).player != player,
    {
        if pending[i].player == player {
            proof {
                assert(is_decision_of(pending@, player, i as int));
                let other = decision_index(pending@, player);
                assert(is_decision_of(pending@, player, other));
                if other < i {
                    assert(pending@[other].player != player);
                }
            }
            return Some(i);
        }
    }
    None
}

/// CR 103.5: Resolves the decision of one player.
///
/// A player who keeps has locked in a hand and decides no more. A player who does not keep
/// shuffles the hand into the library, draws seven new cards and decides again, unless that was
/// the last mulligan there is, which locks the hand in and puts all of it on the bottom. The
/// players who have to put cards on the bottom do so once nobody has to decide any more.
pub fn handle_mulligan_decision(
    state: &mut GameState,
    player: PlayerId,
    keep: bool,
    events: &mut Vec<GameEvent>,
) -> (result: Result<WaitingFor, String>)
    requires
        decision_is_possible(old(state)@, player, keep),
    ensures
        result is Ok <==> decision_refusal(old(state)@, player) is None,
        result matches Err(message) ==> Some(message@) == decision_refusal(old(state)@, player)
            && final(state)@ == old(state)@ && final(events)@ == old(events)@,
        result matches Ok(waiting) ==> decision_step(old(state)@, player, keep, old(events)@) == (
        Step { state: final(state)@, events: final(events)@, next: waiting@ }),
        old(state)@.valid() ==> final(state)@.valid(),
{
    let free_first = free_first_mulligan(state);
    let mut pending: Vec<MulliganDecisionEntry> = match &state.waiting_for {
        WaitingFor::MulliganDecision { pending, .. } => pending.clone(),
        _ => {
            return Err("handle_mulligan_decision called outside MulliganDecision".to_string());
        },
    };
    let i: usize = match find_decision(&pending, player) {
        Some(i) => i,
        None => {
            return Err(
                "Player PlayerId(".to_string().concat(
                    decimal_text(player.0 as u64).as_str(),
                ).concat(") is not in the mulligan pending set"),
            );
        },
    };
    let count: u8 = pending[i].mulligan_count;
    let ghost start = state@;
    let ghost asked = pending@;
    if keep {
        record_final_count(state, player, count);
        pending.remove(i);
        proof {
            if start.valid() {
                waiting_keeps_valid(start, state@);
            }
            same_seats(start, state@);
            assert(events@ =~= old(events)@ + decision_events(start, asked[i as int], true));
        }
    } else {
        let new_count: u8 = count + 1;
        shuffle_hand_into_library(state, player, events);
        proof {
            reshuffle_lists(start, player);
        }
        draw_n(state, player, STARTING_HAND_SIZE, events);
        assert(events@ =~= old(events)@ + redraw_events(start, player));
        assert(state@.seat_order == start.seat_order);
        if new_count >= MAX_MULLIGANS {
            let ghost before = state@;
            proof {
                redrawn_hand_is_small(start, player);
            }
            record_forced_count(state, player, new_count);
            pending.remove(i);
            proof {
                waiting_keeps_valid(before, state@);
            }
        } else {
            pending.set(i, MulliganDecisionEntry { player, mulligan_count: new_count });
        }
    }
    Ok(advance_after_decision(state, pending, free_first, events))
}

/// The place of a player among those who owe cards.
pub open spec fn is_bottom_of(pending: Seq<MulliganBottomEntry>, player: PlayerId, i: int) -> bool {
    &&& 0 <= i < pending.len()
    &&& pending[i].player == player
    &&& forall|j: int| 0 <= j < i ==> (#[trigger] pending[j]).player != player
}

pub open spec fn must_bottom(pending: Seq<MulliganBottomEntry>, player: PlayerId) -> bool {
    exists|i: int| is_bottom_of(pending, player, i)
}

pub open spec fn bottom_index(pending: Seq<MulliganBottomEntry>, player: PlayerId) -> int {
    choose|i: int| is_bottom_of(pending, player, i)
}

/// Finds the place of a player among those who owe cards.
pub fn find_bottom(pending: &Vec<MulliganBottomEntry>, player: PlayerId) -> (found: Option<usize>)
    ensures
        found is Some <==> must_bottom(pending@, player),
        found matches Some(i) ==> i < pending@.len() && pending@[i as int].player == player && i
            == bottom_index(pending@, player),
{
    for i in 0..pending.len()
        invariant
            forall|j: int| 0 <= j < i ==> (#[trigger] pending@[j]).player != player,
    {
        if pending[i].player == player {
            proof {
                assert(is_bottom_of(pending@, player, i as int));
                let other = bottom_index(pending@, player);
                assert(is_bottom_of(pending@, player, other));
                if other < i {
                    assert(pending@[other].player != player);
                }
            }
            return Some(i);
        }
    }
    None
}

/// The first of some cards that is not in a hand.
pub open spec fn first_missing(hand: Seq<ObjectId>, cards: Seq<ObjectId>) -> Option<ObjectId>
    decreases cards.len(),
{
    if cards.len() == 0 {
        None
    } else if !hand.contains(cards[0]) {
        Some(cards[0])
    } else {
        first_missing(hand, cards.drop_first())
    }
}

fn holds_card(hand: &Vec<ObjectId>, card: ObjectId) -> (held: bool)
    ensures
        held == hand@.contains(card),
{
    for i in 0..hand.len()
        invariant
            forall|j: int| 0 <= j < i ==> hand@[j] != card,
    {
        if hand[i] == card {
            assert(hand@[i as int] == card);
            return true;
        }
    }
    false
}

fn find_missing(hand: &Vec<ObjectId>, cards: &Vec<ObjectId>) -> (missing: Option<ObjectId>)
    ensures
        missing == first_missing(hand@, cards@),
        missing is None ==> forall|i: int|
            0 <= i < cards@.len() ==> hand@.contains(#[trigger] cards@[i]),
{
    assert(cards@.skip(0) =~= cards@);
    for i in 0..cards.len()
        invariant
            first_missing(hand@, cards@.skip(i as int)) == first_missing(hand@, cards@),
            forall|j: int| 0 <= j < i ==> hand@.contains(#[trigger] cards@[j]),
    {
        assert(cards@.skip(i as int)[0] == cards@[i as int]);
        if !holds_card(hand, cards[i]) {
            return Some(cards[i]);
        }
        assert(cards@.skip(i as int).drop_first() =~= cards@.skip(i + 1));
    }
    None
}

fn all_different(cards: &Vec<ObjectId>) -> (different: bool)
    ensures
        different == cards@.no_duplicates(),
{
    for i in 0..cards.len()
        invariant
            forall|j: int, k: int| 0 <= j < k < i ==> cards@[j] != cards@[k],
    {
        for j in 0..i
            invariant
                i < cards@.len(),
                forall|k: int| 0 <= k < j ==> cards@[k] != cards@[i as int],
        {
            if cards[j] == cards[i] {
                return false;
            }
        }
    }
    true
}

/// The state after some cards have gone to the bottom of the library, one by one.
pub open spec fn bottomed(s: StateModel, cards: Seq<ObjectId>) -> StateModel
    decreases cards.len(),
{
    if cards.len() == 0 {
        s
    } else {
        bottomed(s, cards.drop_last()).moved_to_library(cards.last(), false)
    }
}

pub open spec fn bottomed_events(s: StateModel, cards: Seq<ObjectId>) -> Seq<GameEvent>
    decreases cards.len(),
{
    if cards.len() == 0 {
        Seq::empty()
    } else {
        bottomed_events(s, cards.drop_last()).push(
            bottomed(s, cards.drop_last()).zone_change(cards.last(), Zone::Library),
        )
    }
}

/// Cards going to the bottom keep a valid game valid, and every card in it.
pub proof fn bottoming_keeps_valid(s: StateModel, cards: Seq<ObjectId>)
    requires
        s.valid(),
        forall|i: int| 0 <= i < cards.len() ==> s.objects.contains_key(#[trigger] cards[i]),
    ensures
        bottomed(s, cards).valid(),
        bottomed(s, cards).objects.dom() == s.objects.dom(),
    decreases cards.len(),
{
    if cards.len() > 0 {
        let rest = cards.drop_last();
        assert forall|i: int| 0 <= i < rest.len() implies s.objects.contains_key(
            #[trigger] rest[i],
        ) by {
            assert(rest[i] == cards[i]);
        }
        bottoming_keeps_valid(s, rest);
        let before = bottomed(s, rest);
        assert(s.objects.contains_key(cards[cards.len() - 1]));
        assert(before.objects.dom().contains(cards.last()));
        moving_to_library_keeps_valid(before, cards.last(), false);
        assert(bottomed(s, cards).objects.dom() =~= s.objects.dom());
    }
}

/// The cards of a choice that is not refused are all in the hand, and so in the game.
pub proof fn chosen_cards_exist(s: StateModel, player: PlayerId, cards: Seq<ObjectId>)
    requires
        s.valid(),
        s.has_player(player),
        first_missing(s.player(player).hand, cards) is None,
    ensures
        forall|i: int|
            0 <= i < cards.len() ==> s.resides(#[trigger] cards[i], player, Zone::Hand)
                && s.objects.contains_key(cards[i]) && s.player(player).hand.contains(cards[i]),
    decreases cards.len(),
{
    if cards.len() > 0 {
        let rest = cards.drop_first();
        chosen_cards_exist(s, player, rest);
        assert(s.zone_matches(player, Zone::Hand));
        let hand = s.zone_list(player, Zone::Hand);
        assert forall|i: int| 0 <= i < cards.len() implies s.resides(
            #[trigger] cards[i],
            player,
            Zone::Hand,
        ) && s.objects.contains_key(cards[i]) && s.player(player).hand.contains(cards[i]) by {
            if i == 0 {
                assert(hand.contains(cards[0]) <==> s.resides(cards[0], player, Zone::Hand));
            } else {
                assert(rest[i - 1] == cards[i]);
            }
        }
    }
}

/// Cards going to the bottom leave the same players in the game.
pub proof fn bottoming_keeps_players(s: StateModel, cards: Seq<ObjectId>)
    requires
        s.valid(),
        forall|i: int| 0 <= i < cards.len() ==> s.objects.contains_key(#[trigger] cards[i]),
    ensures
        same_ids(s.players, bottomed(s, cards).players),
    decreases cards.len(),
{
    if cards.len() > 0 {
        let rest = cards.drop_last();
        assert forall|i: int| 0 <= i < rest.len() implies s.objects.contains_key(
            #[trigger] rest[i],
        ) by {
            assert(rest[i] == cards[i]);
        }
        bottoming_keeps_players(s, rest);
        bottoming_keeps_valid(s, rest);
        let before = bottomed(s, rest);
        let card = cards.last();
        assert(s.objects.contains_key(cards[cards.len() - 1]));
        assert(before.objects.dom().contains(card));
        let owner = before.objects[card].owner;
        let from = before.objects[card].zone;
        let left = before.zone_list(owner, from).remove_value(card);
        zone_lists_are_separate(before, owner, from, left);
        let lifted = before.lifted(card);
        assert(lifted.has_player(owner));
        zone_lists_are_separate(
            lifted,
            owner,
            Zone::Library,
            lifted.zone_list(owner, Zone::Library).push(card),
        );
    }
}

/// The cards chosen by the player at place `i` of those who owe some.
pub open spec fn bottoms_chosen(
    s: StateModel,
    pending: Seq<MulliganBottomEntry>,
    i: int,
    cards: Seq<ObjectId>,
    events: Seq<GameEvent>,
) -> Step {
    let t = bottomed(s, cards);
    let reported = events + bottomed_events(s, cards);
    if pending.len() == 1 {
        finished(settled(t), reported)
    } else {
        Step {
            state: t,
            events: reported,
            next: WaitModel::MulliganBottomCards { pending: pending.remove(i) },
        }
    }
}

/// The choice of a player whom the game waits for.
pub open spec fn bottom_step(
    s: StateModel,
    player: PlayerId,
    cards: Seq<ObjectId>,
    events: Seq<GameEvent>,
) -> Step {
    let pending = s.waiting_for->MulliganBottomCards_pending;
    bottoms_chosen(s, pending, bottom_index(pending, player), cards, events)
}

/// What the game answers to a choice of cards that is out of place.
pub open spec fn bottom_refusal(s: StateModel, player: PlayerId, cards: Seq<ObjectId>) -> Option<
    Seq<char>,
> {
    match s.waiting_for {
        WaitModel::MulliganBottomCards { pending } => if !must_bottom(pending, player) {
            Some(
                "Player PlayerId("@ + decimal(player.0 as nat)
                    + ") is not in the bottoms pending set"@,
            )
        } else if cards.len() != pending[bottom_index(pending, player)].count {
            Some(
                "Expected "@ + decimal(pending[bottom_index(pending, player)].count as nat)
                    + " cards to bottom, got "@ + decimal(cards.len()),
            )
        } else {
            match first_missing(s.player(player).hand, cards) {
                Some(card) => Some(
                    "Card ObjectId("@ + decimal(card.0 as nat) + ") is not in player's hand"@,
                ),
                None => if !cards.no_duplicates() {
                    Some("Cards to bottom must all be different"@)
                } else {
                    None
                },
            }
        },
        _ => Some("handle_mulligan_bottom called outside MulliganBottomCards"@),
    }
}

/// Whoever names the right number of cards is a player, and a choice that is not refused is made
/// in a valid game.
pub open spec fn bottom_is_possible(
    s: StateModel,
    player: PlayerId,
    cards: Seq<ObjectId>,
) -> bool {
    &&& (s.waiting_for matches WaitModel::MulliganBottomCards { pending } && must_bottom(
        pending,
        player,
    ) && cards.len() == pending[bottom_index(pending, player)].count) ==> s.has_player(player)
    &&& bottom_refusal(s, player, cards) is None ==> s.valid()
}

/// CR 103.5: Resolves the choice of one player in the bottoms phase.
///
/// The player must name as many cards of their hand as they owe, each once. These go to the bottom
/// of the library in the order named, and the player owes nothing any more. The game begins once
/// nobody does.
pub fn handle_mulligan_bottom(
    state: &mut GameState,
    player: PlayerId,
    cards: Vec<ObjectId>,
    events: &mut Vec<GameEvent>,
) -> (result: Result<WaitingFor, String>)
    requires
        bottom_is_possible(old(state)@, player, cards@),
    ensures
        result is Ok <==> bottom_refusal(old(state)@, player, cards@) is None,
        result matches Err(message) ==> Some(message@) == bottom_refusal(
            old(state)@,
            player,
            cards@,
        ) && final(state)@ == old(state)@ && final(events)@ == old(events)@,
        result matches Ok(waiting) ==> bottom_step(old(state)@, player, cards@, old(events)@) == (
        Step { state: final(state)@, events: final(events)@, next: waiting@ }),
        old(state)@.valid() ==> final(state)@.valid(),
{
    let mut pending: Vec<MulliganBottomEntry> = match &state.waiting_for {
        WaitingFor::MulliganBottomCards { pending } => pending.clone(),
        _ => {
            return Err("handle_mulligan_bottom called outside MulliganBottomCards".to_string());
        },
    };
    let i: usize = match find_bottom(&pending, player) {
        Some(i) => i,
        None => {
            return Err(
                "Player PlayerId(".to_string().concat(
                    decimal_text(player.0 as u64).as_str(),
                ).concat(") is not in the bottoms pending set"),
            );
        },
    };
    let expected_count: u8 = pending[i].count;
    if cards.len() != expected_count as usize {
        return Err(
            "Expected ".to_string().concat(decimal_text(expected_count as u64).as_str()).concat(
                " cards to bottom, got ",
            ).concat(decimal_text(cards.len() as u64).as_str()),
        );
    }
    let seat: usize = find_player(&state.players, player).unwrap();
    if let Some(card) = find_missing(&state.players[seat].hand, &cards) {
        return Err(
            "Card ObjectId(".to_string().concat(decimal_text(card.0).as_str()).concat(
                ") is not in player's hand",
            ),
        );
    }
    if !all_different(&cards) {
        return Err("Cards to bottom must all be different".to_string());
    }
    let ghost start = state@;
    let ghost hand = start.zone_list(player, Zone::Hand);
    proof {
        assert(start.zone_matches(player, Zone::Hand));
        assert forall|k: int| 0 <= k < cards@.len() implies start.objects.contains_key(
            #[trigger] cards@[k],
        ) by {
            assert(hand.contains(cards@[k]));
            assert(start.resides(cards@[k], player, Zone::Hand));
        }
        assert(bottomed_events(start, cards@.take(0)) =~= Seq::empty());
        assert(cards@.take(0) =~= Seq::empty());
        assert(state@ == bottomed(start, cards@.take(0)));
    }
    for k in 0..cards.len()
        invariant
            start == old(state)@,
            start.valid(),
            forall|j: int| 0 <= j < cards@.len() ==> start.objects.contains_key(
                #[trigger] cards@[j],
            ),
            state@ == bottomed(start, cards@.take(k as int)),
            events@ =~= old(events)@ + bottomed_events(start, cards@.take(k as int)),
    {
        proof {
            assert forall|j: int| 0 <= j < k implies start.objects.contains_key(
                #[trigger] cards@.take(k as int)[j],
            ) by {
                assert(cards@.take(k as int)[j] == cards@[j]);
            }
            bottoming_keeps_valid(start, cards@.take(k as int));
            assert(start.objects.dom().contains(cards@[k as int]));
            assert(cards@.take(k + 1).drop_last() =~= cards@.take(k as int));
        }
        move_to_library_position(state, cards[k], false, events);
    }
    proof {
        assert(cards@.take(cards@.len() as int) =~= cards@);
        bottoming_keeps_valid(start, cards@);
    }
    pending.remove(i);
    if pending.is_empty() {
        settle(state);
        Ok(finish_mulligans(state, events))
    } else {
        Ok(WaitingFor::MulliganBottomCards { pending })
    }
}

/// The generator once the libraries of the first `n` players have been shuffled.
pub open spec fn rng_after_libraries(players: Seq<PlayerModel>, rng: GameRng, n: nat) -> GameRng
    decreases n,
{
    if n == 0 {
        rng
    } else {
        rng_after_shuffle(
            rng_after_libraries(players, rng, (n - 1) as nat),
            players[n - 1].library.len(),
        )
    }
}

/// The state once every player has shuffled their library, one after the other.
pub open spec fn libraries_shuffled(s: StateModel) -> StateModel {
    StateModel {
        players: Seq::new(
            s.players.len(),
            |i: int|
                PlayerModel {
                    library: shuffled(
                        s.players[i].library,
                        rng_after_libraries(s.players, s.rng, i as nat),
                    ),
                    ..s.players[i]
                },
        ),
        rng: rng_after_libraries(s.players, s.rng, s.players.len()),
        ..s
    }
}

/// Shuffling the libraries loses no card of anyone and keeps a valid game valid.
pub proof fn shuffling_keeps_valid(s: StateModel)
    ensures
        same_ids(s.players, libraries_shuffled(s).players),
        forall|player: PlayerId, zone: Zone|
            s.has_player(player) ==> (#[trigger] libraries_shuffled(s).zone_list(
                player,
                zone,
            )).to_multiset() == s.zone_list(player, zone).to_multiset() && (zone != Zone::Library
                ==> libraries_shuffled(s).zone_list(player, zone) == s.zone_list(player, zone)),
        s.valid() ==> libraries_shuffled(s).valid(),
{
    let t = libraries_shuffled(s);
    assert forall|player: PlayerId, zone: Zone| s.has_player(player) implies (
    #[trigger] t.zone_list(player, zone)).to_multiset() == s.zone_list(player, zone).to_multiset()
        && (zone != Zone::Library ==> t.zone_list(player, zone) == s.zone_list(player, zone)) by {
        same_ids_same_positions(s.players, t.players, player);
        let i = position_of(s.players, player);
        shuffle_permutes(
            s.players[i].library,
            rng_after_libraries(s.players, s.rng, i as nat),
        );
    }
    if s.valid() {
        permuting_keeps_valid(s, t);
    }
}

/// Some players have drawn their starting hands, in turn order.
pub open spec fn dealt(s: StateModel, order: Seq<PlayerId>) -> StateModel
    decreases order.len(),
{
    if order.len() == 0 {
        s
    } else {
        drawn(dealt(s, order.drop_last()), order.last(), STARTING_HAND_SIZE as nat)
    }
}

pub open spec fn deal_events(s: StateModel, order: Seq<PlayerId>) -> Seq<GameEvent>
    decreases order.len(),
{
    if order.len() == 0 {
        Seq::empty()
    } else {
        deal_events(s, order.drop_last()) + draw_events(
            dealt(s, order.drop_last()),
            order.last(),
            STARTING_HAND_SIZE,
        )
    }
}

/// Dealing keeps a valid game valid, with the same players.
pub proof fn dealing_keeps_players(s: StateModel, order: Seq<PlayerId>)
    requires
        s.valid(),
        forall|i: int| 0 <= i < order.len() ==> s.has_player(#[trigger] order[i]),
    ensures
        dealt(s, order).valid(),
        same_ids(s.players, dealt(s, order).players),
    decreases order.len(),
{
    if order.len() > 0 {
        let rest = order.drop_last();
        assert forall|i: int| 0 <= i < rest.len() implies s.has_player(#[trigger] rest[i]) by {
            assert(rest[i] == order[i]);
        }
        dealing_keeps_players(s, rest);
        let t = dealt(s, rest);
        let player = order.last();
        assert(s.has_player(order[order.len() - 1]));
        same_ids_same_positions(s.players, t.players, player);
        let n = drawable(t, player, STARTING_HAND_SIZE as nat);
        transfer_lists(t, player, Zone::Library, Zone::Hand, n);
        transferring_keeps_valid(t, player, Zone::Library, Zone::Hand, n);
    }
}

/// Everyone has to decide, and nobody has taken a mulligan.
pub open spec fn first_decisions(order: Seq<PlayerId>) -> Seq<MulliganDecisionEntry> {
    order.map_values(|player: PlayerId| MulliganDecisionEntry { player, mulligan_count: 0 })
}

/// The libraries are shuffled, the hands are dealt and everyone is asked.
pub open spec fn started(s: StateModel, events: Seq<GameEvent>) -> Step {
    let ready = libraries_shuffled(s);
    Step {
        state: dealt(ready, s.seat_order),
        events: events.push(GameEvent::MulliganStarted) + deal_events(ready, s.seat_order),
        next: WaitModel::MulliganDecision {
            pending: first_decisions(s.seat_order),
            free_first_mulligan: grants_free_first(s),
        },
    }
}

fn shuffle_libraries(state: &mut GameState)
    ensures
        final(state)@ == libraries_shuffled(old(state)@),
{
    let ghost start = state@;
    let ghost ready = libraries_shuffled(start);
    let len: usize = state.players.len();
    for i in 0..len
        invariant
            len == state.players@.len(),
            len == start.players.len(),
            start == old(state)@,
            ready == libraries_shuffled(start),
            state@.rng == rng_after_libraries(start.players, start.rng, i as nat),
            state@ == (StateModel { players: state@.players, rng: state@.rng, ..start }),
            forall|j: int| 0 <= j < i ==> #[trigger] state@.players[j] == ready.players[j],
            forall|j: int| i <= j < len ==> #[trigger] state@.players[j] == start.players[j],
    {
        let ghost before = state@;
        assert(before.players[i as int] == start.players[i as int]);
        shuffle_vector(&mut state.players[i].library, &mut state.rng);
        assert(state@.players =~= before.players.update(i as int, ready.players[i as int]));
        assert(state@ =~= (StateModel { players: state@.players, rng: state@.rng, ..start }));
    }
    assert(state@ =~= ready);
}

/// CR 103.4: Starts the mulligans: every library is shuffled and every player draws seven cards.
///
/// CR 103.5: All players decide at the same time. The game waits for each of them, in turn order,
/// and takes their decisions in any order of arrival.
pub fn start_mulligan(state: &mut GameState, events: &mut Vec<GameEvent>) -> (waiting: WaitingFor)
    requires
        old(state)@.valid(),
    ensures
        started(old(state)@, old(events)@) == (Step {
            state: final(state)@,
            events: final(events)@,
            next: waiting@,
        }),
        final(state)@.valid(),
{
    let ghost start = state@;
    events.push(GameEvent::MulliganStarted);
    shuffle_libraries(state);
    let ghost ready = state@;
    let ghost order = ready.seat_order;
    proof {
        shuffling_keeps_valid(start);
        assert(order.take(0) =~= Seq::empty());
        assert(first_decisions(order).take(0) =~= Seq::empty());
    }
    let mut pending: Vec<MulliganDecisionEntry> = Vec::new();
    let seats: usize = state.seat_order.len();
    for i in 0..seats
        invariant
            ready.valid(),
            seats == order.len(),
            order == ready.seat_order,
            state@ == dealt(ready, order.take(i as int)),
            state@.valid(),
            state@.seat_order == order,
            state@.format_config == ready.format_config,
            same_ids(ready.players, state@.players),
            events@ =~= old(events)@.push(GameEvent::MulliganStarted) + deal_events(
                ready,
                order.take(i as int),
            ),
            pending@ =~= first_decisions(order).take(i as int),
    {
        let player_id: PlayerId = state.seat_order[i];
        let ghost before = state@;
        proof {
            assert(order.take(i + 1).drop_last() =~= order.take(i as int));
            assert(before.has_player(before.seat_order[i as int]));
            transfer_lists(
                before,
                player_id,
                Zone::Library,
                Zone::Hand,
                drawable(before, player_id, STARTING_HAND_SIZE as nat),
            );
        }
        draw_n(state, player_id, STARTING_HAND_SIZE, events);
        pending.push(MulliganDecisionEntry { player: player_id, mulligan_count: 0 });
    }
    assert(order.take(order.len() as int) =~= order);
    assert(first_decisions(order).take(order.len() as int) =~= first_decisions(order));
    WaitingFor::MulliganDecision { pending, free_first_mulligan: free_first_mulligan(state) }
}

/// Whoever is asked about their hand is a player, and whoever decides may still take a mulligan.
pub open spec fn asks_players(s: StateModel, next: WaitModel) -> bool {
    match next {
        WaitModel::MulliganDecision { pending, .. } => forall|i: int|
            0 <= i < pending.len() ==> s.has_player((#[trigger] pending[i]).player)
                && pending[i].mulligan_count < MAX_MULLIGANS,
        WaitModel::MulliganBottomCards { pending } => forall|i: int|
            0 <= i < pending.len() ==> s.has_player((#[trigger] pending[i]).player),
        _ => true,
    }
}

/// The beginning of the game asks nobody about their hand any more.
pub proof fn draining_asks_nothing_of_hands(
    s: StateModel,
    queue: Seq<AbilityModel>,
    events: Seq<GameEvent>,
)
    ensures
        same_ids(s.players, drained(s, queue, events).state.players),
        asks_nothing_of_hands(drained(s, queue, events).next),
    decreases queue.len(),
{
    if queue.len() > 0 {
        let popped = StateModel { pending_begin_game_abilities: queue.drop_last(), ..s };
        let outcome = chain_outcome(popped, queue.last(), events, 0);
        chain_keeps(popped, queue.last(), events, 0);
        chain_asks_nothing_of_hands(popped, queue.last(), events, 0);
        if outcome.state.waiting_for is Priority {
            draining_asks_nothing_of_hands(outcome.state, queue.drop_last(), outcome.events);
        }
    }
}

proof fn owed_players(s: StateModel, order: Seq<PlayerId>)
    ensures
        forall|i: int|
            0 <= i < owed_bottoms(s, order).len() ==> order.contains(
                (#[trigger] owed_bottoms(s, order)[i]).player,
            ),
    decreases order.len(),
{
    if order.len() > 0 {
        let rest = order.drop_last();
        owed_players(s, rest);
        assert forall|i: int| 0 <= i < owed_bottoms(s, order).len() implies order.contains(
            (#[trigger] owed_bottoms(s, order)[i]).player,
        ) by {
            if i < owed_bottoms(s, rest).len() {
                let player = owed_bottoms(s, rest)[i].player;
                assert(rest.contains(player));
                let k = choose|k: int| 0 <= k < rest.len() && rest[k] == player;
                assert(order[k] == player);
            } else {
                assert(order[order.len() - 1] == order.last());
            }
        }
    }
}

proof fn bottom_phase_asks_players(s: StateModel, events: Seq<GameEvent>)
    requires
        s.valid(),
    ensures
        asks_players(bottom_phase(s, events).state, bottom_phase(s, events).next),
{
    owed_players(s, s.seat_order);
    let t = settled(s);
    let begun = StateModel { resolving_begin_game_abilities: true, ..queued(t) };
    draining_asks_nothing_of_hands(begun, begun.pending_begin_game_abilities, events);
    let pending = owed_bottoms(s, s.seat_order);
    assert forall|i: int| 0 <= i < pending.len() implies s.has_player(
        (#[trigger] pending[i]).player,
    ) by {
        let k = choose|k: int|
            0 <= k < s.seat_order.len() && s.seat_order[k] == pending[i].player;
        assert(s.has_player(s.seat_order[k]));
    }
}

/// However mulligans start, only players who may still take one are asked.
pub proof fn starting_asks_players(s: StateModel, events: Seq<GameEvent>)
    requires
        s.valid(),
    ensures
        asks_players(started(s, events).state, started(s, events).next),
{
    let ready = libraries_shuffled(s);
    shuffling_keeps_valid(s);
    dealing_keeps_players(ready, s.seat_order);
    let t = dealt(ready, s.seat_order);
    let pending = first_decisions(s.seat_order);
    assert forall|i: int| 0 <= i < pending.len() implies t.has_player(
        (#[trigger] pending[i]).player,
    ) by {
        let player = s.seat_order[i];
        assert(s.has_player(player));
        same_ids_same_positions(s.players, ready.players, player);
        same_ids_same_positions(ready.players, t.players, player);
    }
}

/// Whatever a player decides, only players are asked, and to decide only those who may still take
/// a mulligan.
pub proof fn deciding_asks_players(
    s: StateModel,
    player: PlayerId,
    keep: bool,
    events: Seq<GameEvent>,
)
    requires
        s.valid(),
        asks_players(s, s.waiting_for),
        decision_refusal(s, player) is None,
    ensures
        asks_players(
            decision_step(s, player, keep, events).state,
            decision_step(s, player, keep, events).next,
        ),
{
    let pending = s.waiting_for->MulliganDecision_pending;
    let i = decision_index(pending, player);
    assert(is_decision_of(pending, player, i));
    let count = pending[i].mulligan_count;
    assert(s.has_player(pending[i].player));
    if keep {
        let t = locked_in(s, player, count);
        waiting_keeps_valid(s, t);
        bottom_phase_asks_players(t, events + decision_events(s, pending[i], true));
        let left = pending.remove(i);
        assert forall|j: int| 0 <= j < left.len() implies t.has_player(
            (#[trigger] left[j]).player,
        ) && left[j].mulligan_count < MAX_MULLIGANS by {
            assert(left[j] == pending[if j < i {
                j
            } else {
                j + 1
            }]);
        }
    } else {
        let next = (count + 1) as u8;
        let t = redrawn(s, player);
        let reported = events + redraw_events(s, player);
        redrawing_keeps_valid(s, player);
        let locked = forced_in(t, player, next);
        waiting_keeps_valid(t, locked);
        bottom_phase_asks_players(locked, reported);
        let left = pending.remove(i);
        assert forall|j: int| 0 <= j < left.len() implies locked.has_player(
            (#[trigger] left[j]).player,
        ) && left[j].mulligan_count < MAX_MULLIGANS by {
            assert(left[j] == pending[if j < i {
                j
            } else {
                j + 1
            }]);
            assert(t.has_player(left[j].player) == s.has_player(left[j].player));
        }
        let again = pending.update(i, MulliganDecisionEntry { player, mulligan_count: next });
        assert forall|j: int| 0 <= j < again.len() && next < MAX_MULLIGANS implies t.has_player(
            (#[trigger] again[j]).player,
        ) && again[j].mulligan_count < MAX_MULLIGANS by {
            assert(t.has_player(pending[j].player) == s.has_player(pending[j].player));
            assert(s.has_player(pending[j].player));
        }
    }
}

/// Whatever cards a player puts on the bottom, only players are asked.
pub proof fn bottoming_asks_players(
    s: StateModel,
    player: PlayerId,
    cards: Seq<ObjectId>,
    events: Seq<GameEvent>,
)
    requires
        s.valid(),
        asks_players(s, s.waiting_for),
        bottom_refusal(s, player, cards) is None,
    ensures
        asks_players(
            bottom_step(s, player, cards, events).state,
            bottom_step(s, player, cards, events).next,
        ),
{
    let pending = s.waiting_for->MulliganBottomCards_pending;
    let i = bottom_index(pending, player);
    assert(is_bottom_of(pending, player, i));
    assert(s.has_player(pending[i].player));
    let t = bottomed(s, cards);
    let reported = events + bottomed_events(s, cards);
    chosen_cards_exist(s, player, cards);
    bottoming_keeps_players(s, cards);
    let begun = StateModel { resolving_begin_game_abilities: true, ..queued(settled(t)) };
    draining_asks_nothing_of_hands(begun, begun.pending_begin_game_abilities, reported);
    let left = pending.remove(i);
    assert forall|j: int| 0 <= j < left.len() implies t.has_player((#[trigger] left[j]).player) by {
        assert(left[j] == pending[if j < i {
            j
        } else {
            j + 1
        }]);
        same_ids_same_positions(s.players, t.players, left[j].player);
    }
}

} // verus!
