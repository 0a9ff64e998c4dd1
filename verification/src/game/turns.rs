use vstd::prelude::*;
use crate::types::events::GameEvent;
use crate::types::game_state::{GameState, WaitingFor};
#[allow(unused_imports)]
use crate::types::game_state::{StateModel, WaitModel};
use crate::types::phase::Phase;

verus! {

/// Nobody gets priority in the untap step (CR 502.4), so the turn goes on to the upkeep.
pub open spec fn advanced(s: StateModel) -> StateModel {
    if s.phase == Phase::Untap {
        StateModel { phase: Phase::Upkeep, ..s }
    } else {
        s
    }
}

pub open spec fn advance_events(s: StateModel) -> Seq<GameEvent> {
    if s.phase == Phase::Untap {
        seq![GameEvent::PhaseChanged { phase: Phase::Upkeep }]
    } else {
        Seq::empty()
    }
}

pub open spec fn priority(s: StateModel) -> WaitModel {
    WaitModel::Priority { player: s.active_player }
}

/// Advances the turn to the next step in which the active player gets priority.
pub fn auto_advance(state: &mut GameState, events: &mut Vec<GameEvent>) -> (waiting: WaitingFor)
    ensures
        waiting@ == priority(old(state)@),
        final(state)@ == advanced(old(state)@),
        final(events)@ == old(events)@ + advance_events(old(state)@),
{
    if state.phase == Phase::Untap {
        state.phase = Phase::Upkeep;
        events.push(GameEvent::PhaseChanged { phase: Phase::Upkeep });
    }
    assert(events@ =~= old(events)@ + advance_events(old(state)@));
    WaitingFor::Priority { player: state.active_player }
}

} // verus!
