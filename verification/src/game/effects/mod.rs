use vstd::prelude::*;
#[allow(unused_imports)]
use crate::game::effects::change_zone::{after_change_zone, change_zone_events, change_zone_keeps};
#[allow(unused_imports)]
use crate::game::effects::copy_spell::{
    after_copy_effect, copy_effect_events, copy_effect_keeps, copy_source, nothing_to_copy,
};
#[allow(unused_imports)]
use crate::game::turns::priority;
use crate::types::ability::{Effect, EffectError, EffectKind, QuantityExpr, ResolvedAbility};
#[allow(unused_imports)]
use crate::types::ability::{effect_kind, AbilityModel, EffectModel, ErrorModel};
use crate::types::events::GameEvent;
use crate::types::game_state::{GameState, WaitingFor};
#[allow(unused_imports)]
use crate::types::game_state::{same_frame, waiting_keeps_valid, StateModel, WaitModel};

pub mod chain_laws;
pub mod change_zone;
pub mod copy_laws;
pub mod copy_spell;

verus! {

/// How many sub-abilities in a row the engine follows.
pub const MAX_CHAIN_DEPTH: u32 = 20;

/// A state, what has been reported on the way to it, and the error that ended the way, if any.
#[verifier::ext_equal]
pub struct Outcome {
    pub state: StateModel,
    pub events: Seq<GameEvent>,
    pub error: Option<ErrorModel>,
}

impl Outcome {
    /// Resolution goes on: nothing failed and nobody has to choose.
    pub open spec fn goes_on(self) -> bool {
        self.error is None && self.state.waiting_for is Priority
    }
}

/// The outcome of an effect, carried out once.
pub open spec fn effect_outcome(
    s: StateModel,
    ability: AbilityModel,
    events: Seq<GameEvent>,
) -> Outcome {
    match ability.effect {
        EffectModel::CopySpell { .. } => if s.next_object_id == u64::MAX {
            Outcome { state: s, events, error: Some(ErrorModel::IdsExhausted) }
        } else {
            Outcome {
                state: after_copy_effect(s, ability),
                events: events + copy_effect_events(s, ability),
                error: if copy_source(s, ability) is Some {
                    None
                } else {
                    Some(nothing_to_copy())
                },
            }
        },
        EffectModel::ChangeZone { .. } => Outcome {
            state: after_change_zone(s, ability),
            events: events + change_zone_events(s, ability),
            error: None,
        },
        _ => Outcome {
            state: s,
            events,
            error: Some(ErrorModel::NoHandler(effect_kind(ability.effect))),
        },
    }
}

/// How often an effect happens.
pub open spec fn repetitions(ability: AbilityModel) -> nat {
    match ability.repeat_for {
        None => 1,
        Some(QuantityExpr::Fixed { value }) => if value > 0 {
            value as nat
        } else {
            0
        },
    }
}

/// The outcome of an effect that happens `n` times, as long as resolution goes on.
pub open spec fn repeated_outcome(
    s: StateModel,
    ability: AbilityModel,
    events: Seq<GameEvent>,
    n: nat,
) -> Outcome
    decreases n,
{
    if n == 0 {
        Outcome { state: s, events, error: None }
    } else {
        let once = effect_outcome(s, ability, events);
        if once.goes_on() {
            repeated_outcome(once.state, ability, once.events, (n - 1) as nat)
        } else {
            once
        }
    }
}

/// The state in which the controller of an optional ability is asked whether it happens.
pub open spec fn prompted(s: StateModel, ability: AbilityModel) -> StateModel {
    StateModel {
        waiting_for: WaitModel::OptionalEffectChoice {
            player: ability.controller,
            source_id: ability.source_id,
            description: ability.description,
        },
        pending_optional_ability: Some(AbilityModel { optional: false, ..ability }),
        ..s
    }
}

/// The active player has priority, unless resolving asks someone for a choice.
pub open spec fn chain_start(s: StateModel, depth: nat) -> StateModel {
    if depth == 0 {
        StateModel { waiting_for: priority(s), ..s }
    } else {
        s
    }
}

/// The outcome of an ability and the sub-abilities that follow it.
pub open spec fn chain_outcome(
    s: StateModel,
    ability: AbilityModel,
    events: Seq<GameEvent>,
    depth: nat,
) -> Outcome
    decreases ability,
{
    let start = chain_start(s, depth);
    if depth > MAX_CHAIN_DEPTH {
        Outcome { state: s, events, error: Some(ErrorModel::ChainTooDeep) }
    } else if ability.optional {
        Outcome { state: prompted(start, ability), events, error: None }
    } else {
        let done = repeated_outcome(start, ability, events, repetitions(ability));
        match ability.sub_ability {
            Some(sub) => if done.goes_on() {
                chain_outcome(done.state, *sub, done.events, depth + 1)
            } else {
                done
            },
            None => done,
        }
    }
}

proof fn effect_keeps(s: StateModel, ability: AbilityModel, events: Seq<GameEvent>)
    ensures
        same_frame(s, effect_outcome(s, ability, events).state),
        s.objects.dom().subset_of(effect_outcome(s, ability, events).state.objects.dom()),
        s.valid() ==> effect_outcome(s, ability, events).state.valid(),
        events.is_prefix_of(effect_outcome(s, ability, events).events),
{
    match ability.effect {
        EffectModel::CopySpell { .. } => if s.next_object_id < u64::MAX {
            copy_effect_keeps(s, ability);
        },
        EffectModel::ChangeZone { .. } => {
            change_zone_keeps(s, ability);
        },
        _ => {},
    }
}

proof fn repeating_keeps(s: StateModel, ability: AbilityModel, events: Seq<GameEvent>, n: nat)
    ensures
        same_frame(s, repeated_outcome(s, ability, events, n).state),
        s.objects.dom().subset_of(repeated_outcome(s, ability, events, n).state.objects.dom()),
        s.valid() ==> repeated_outcome(s, ability, events, n).state.valid(),
        events.is_prefix_of(repeated_outcome(s, ability, events, n).events),
    decreases n,
{
    if n > 0 {
        let once = effect_outcome(s, ability, events);
        effect_keeps(s, ability, events);
        if once.goes_on() {
            repeating_keeps(once.state, ability, once.events, (n - 1) as nat);
        }
    }
}

/// Resolving an ability keeps a valid game valid, takes no object out of it, never takes back
/// what has been reported, and leaves the turn, the mulligans and the abilities still to come
/// alone.
pub proof fn chain_keeps(
    s: StateModel,
    ability: AbilityModel,
    events: Seq<GameEvent>,
    depth: nat,
)
    ensures
        same_frame(s, chain_outcome(s, ability, events, depth).state),
        s.objects.dom().subset_of(chain_outcome(s, ability, events, depth).state.objects.dom()),
        s.valid() ==> chain_outcome(s, ability, events, depth).state.valid(),
        events.is_prefix_of(chain_outcome(s, ability, events, depth).events),
    decreases ability,
{
    let start = chain_start(s, depth);
    if s.valid() {
        waiting_keeps_valid(s, start);
        waiting_keeps_valid(start, prompted(start, ability));
    }
    if depth <= MAX_CHAIN_DEPTH && !ability.optional {
        let done = repeated_outcome(start, ability, events, repetitions(ability));
        repeating_keeps(start, ability, events, repetitions(ability));
        match ability.sub_ability {
            Some(sub) => if done.goes_on() {
                chain_keeps(done.state, *sub, done.events, depth + 1);
            },
            None => {},
        }
    }
}

/// An outcome, with more reported before.
pub open spec fn preceded(outcome: Outcome, events: Seq<GameEvent>) -> Outcome {
    Outcome { events: events + outcome.events, ..outcome }
}

proof fn effect_only_adds_events(s: StateModel, ability: AbilityModel, events: Seq<GameEvent>)
    ensures
        effect_outcome(s, ability, events) == preceded(
            effect_outcome(s, ability, Seq::empty()),
            events,
        ),
{
    assert(effect_outcome(s, ability, events) =~= preceded(
        effect_outcome(s, ability, Seq::empty()),
        events,
    ));
}

proof fn repeating_only_adds_events(
    s: StateModel,
    ability: AbilityModel,
    events: Seq<GameEvent>,
    n: nat,
)
    ensures
        repeated_outcome(s, ability, events, n) == preceded(
            repeated_outcome(s, ability, Seq::empty(), n),
            events,
        ),
    decreases n,
{
    if n > 0 {
        let bare = effect_outcome(s, ability, Seq::empty());
        let once = effect_outcome(s, ability, events);
        effect_only_adds_events(s, ability, events);
        if once.goes_on() {
            repeating_only_adds_events(once.state, ability, once.events, (n - 1) as nat);
            repeating_only_adds_events(bare.state, ability, bare.events, (n - 1) as nat);
        }
    }
    assert(repeated_outcome(s, ability, events, n) =~= preceded(
        repeated_outcome(s, ability, Seq::empty(), n),
        events,
    ));
}

/// What has been reported before an ability resolves stays, and has no bearing on what happens.
pub proof fn chain_only_adds_events(
    s: StateModel,
    ability: AbilityModel,
    events: Seq<GameEvent>,
    depth: nat,
)
    ensures
        chain_outcome(s, ability, events, depth) == preceded(
            chain_outcome(s, ability, Seq::empty(), depth),
            events,
        ),
    decreases ability,
{
    let start = chain_start(s, depth);
    if depth <= MAX_CHAIN_DEPTH && !ability.optional {
        let bare = repeated_outcome(start, ability, Seq::empty(), repetitions(ability));
        let done = repeated_outcome(start, ability, events, repetitions(ability));
        repeating_only_adds_events(start, ability, events, repetitions(ability));
        match ability.sub_ability {
            Some(sub) => if done.goes_on() {
                chain_only_adds_events(done.state, *sub, done.events, depth + 1);
                chain_only_adds_events(bare.state, *sub, bare.events, depth + 1);
            },
            None => {},
        }
    }
    assert(chain_outcome(s, ability, events, depth) =~= preceded(
        chain_outcome(s, ability, Seq::empty(), depth),
        events,
    ));
}

/// The game waits for neither a mulligan nor cards to put on the bottom.
pub open spec fn asks_nothing_of_hands(waiting: WaitModel) -> bool {
    !(waiting is MulliganDecision) && !(waiting is MulliganBottomCards)
}

proof fn repeating_asks_nothing_of_hands(
    s: StateModel,
    ability: AbilityModel,
    events: Seq<GameEvent>,
    n: nat,
)
    requires
        asks_nothing_of_hands(s.waiting_for),
    ensures
        asks_nothing_of_hands(repeated_outcome(s, ability, events, n).state.waiting_for),
    decreases n,
{
    if n > 0 {
        let once = effect_outcome(s, ability, events);
        change_zone_keeps(s, ability);
        if once.goes_on() {
            repeating_asks_nothing_of_hands(once.state, ability, once.events, (n - 1) as nat);
        }
    }
}

/// An ability that resolves never asks about opening hands.
pub proof fn chain_asks_nothing_of_hands(
    s: StateModel,
    ability: AbilityModel,
    events: Seq<GameEvent>,
    depth: nat,
)
    requires
        depth == 0 || asks_nothing_of_hands(s.waiting_for),
    ensures
        asks_nothing_of_hands(chain_outcome(s, ability, events, depth).state.waiting_for),
    decreases ability,
{
    let start = chain_start(s, depth);
    if depth <= MAX_CHAIN_DEPTH && !ability.optional {
        let done = repeated_outcome(start, ability, events, repetitions(ability));
        repeating_asks_nothing_of_hands(start, ability, events, repetitions(ability));
        match ability.sub_ability {
            Some(sub) => if done.goes_on() {
                chain_asks_nothing_of_hands(done.state, *sub, done.events, depth + 1);
            },
            None => {},
        }
    }
}

pub open spec fn result_error(result: Result<(), EffectError>) -> Option<ErrorModel> {
    match result {
        Ok(_) => None,
        Err(error) => Some(error@),
    }
}

/// Carries out an effect once.
fn resolve_effect(
    state: &mut GameState,
    ability: &ResolvedAbility,
    events: &mut Vec<GameEvent>,
) -> (result: Result<(), EffectError>)
    ensures
        effect_outcome(old(state)@, ability@, old(events)@) == (Outcome {
            state: final(state)@,
            events: final(events)@,
            error: result_error(result),
        }),
{
    match &ability.effect {
        Effect::CopySpell { .. } => if state.next_object_id == u64::MAX {
            Err(EffectError::IdsExhausted)
        } else {
            copy_spell::resolve(state, ability, events)
        },
        Effect::ChangeZone { .. } => {
            change_zone::resolve(state, ability, events);
            Ok(())
        },
        _ => Err(EffectError::NoHandler(EffectKind::from(&ability.effect))),
    }
}

fn resolve_repeatedly(
    state: &mut GameState,
    ability: &ResolvedAbility,
    events: &mut Vec<GameEvent>,
    times: u32,
) -> (result: Result<(), EffectError>)
    ensures
        repeated_outcome(old(state)@, ability@, old(events)@, times as nat) == (Outcome {
            state: final(state)@,
            events: final(events)@,
            error: result_error(result),
        }),
{
    let mut left: u32 = times;
    while left > 0
        invariant
            repeated_outcome(state@, ability@, events@, left as nat) == repeated_outcome(
                old(state)@,
                ability@,
                old(events)@,
                times as nat,
            ),
        decreases left,
    {
        match resolve_effect(state, ability, events) {
            Ok(()) => {},
            Err(error) => {
                return Err(error);
            },
        }
        if !matches!(state.waiting_for, WaitingFor::Priority { .. }) {
            return Ok(());
        }
        left = left - 1;
    }
    Ok(())
}

/// Resolves an ability, then its sub-ability, and so on, until one of them fails or asks for a
/// choice. An optional ability asks first. A chain begins with the active player having
/// priority, so that anything else in `waiting_for` afterwards is a choice that came up in it.
pub fn resolve_ability_chain(
    state: &mut GameState,
    ability: &ResolvedAbility,
    events: &mut Vec<GameEvent>,
    depth: u32,
) -> (result: Result<(), EffectError>)
    ensures
        chain_outcome(old(state)@, ability@, old(events)@, depth as nat) == (Outcome {
            state: final(state)@,
            events: final(events)@,
            error: result_error(result),
        }),
    decreases ability,
{
    if depth > MAX_CHAIN_DEPTH {
        return Err(EffectError::ChainTooDeep);
    }
    if depth == 0 {
        state.waiting_for = WaitingFor::Priority { player: state.active_player };
    }
    let ghost start = state@;
    assert(start =~= chain_start(old(state)@, depth as nat));
    if ability.optional {
        let mut pending = ability.clone();
        pending.optional = false;
        state.waiting_for = WaitingFor::OptionalEffectChoice {
            player: ability.controller,
            source_id: ability.source_id,
            description: ability.description.clone(),
        };
        state.pending_optional_ability = Some(pending);
        assert(state@ =~= prompted(start, ability@));
        return Ok(());
    }
    let times: u32 = match ability.repeat_for {
        None => 1,
        Some(QuantityExpr::Fixed { value }) => if value > 0 {
            value as u32
        } else {
            0
        },
    };
    match resolve_repeatedly(state, ability, events, times) {
        Ok(()) => {},
        Err(error) => {
            return Err(error);
        },
    }
    if !matches!(state.waiting_for, WaitingFor::Priority { .. }) {
        return Ok(());
    }
    match &ability.sub_ability {
        Some(sub) => resolve_ability_chain(state, &**sub, events, depth + 1),
        None => Ok(()),
    }
}

} // verus!
