use vstd::prelude::*;
use crate::game::effects::resolve_ability_chain;
#[allow(unused_imports)]
use crate::game::effects::{chain_keeps, chain_outcome, Outcome};
#[allow(unused_imports)]
use crate::game::turns::priority;
use crate::types::events::GameEvent;
use crate::types::game_state::{GameState, WaitingFor};
#[allow(unused_imports)]
use crate::types::game_state::{waiting_keeps_valid, StateModel};
#[allow(unused_imports)]
use crate::types::stack::ability_of;

verus! {

/// The top entry leaves the stack and its ability, if it has one, resolves.
pub open spec fn top_outcome(s: StateModel, events: Seq<GameEvent>) -> Outcome {
    let popped = StateModel { stack: s.stack.drop_last(), ..s };
    match ability_of(s.stack.last().kind) {
        Some(ability) => chain_outcome(popped, ability, events, 0),
        None => Outcome {
            state: StateModel { waiting_for: priority(s), ..popped },
            events,
            error: None,
        },
    }
}

/// CR 608: Resolves the top of the stack, if there is anything on it. An ability that fails has
/// no further effect. The card of a spell stays where it is.
pub fn resolve_top(state: &mut GameState, events: &mut Vec<GameEvent>)
    ensures
        old(state)@.stack.len() == 0 ==> final(state)@ == old(state)@ && final(events)@ == old(
            events,
        )@,
        old(state)@.stack.len() > 0 ==> final(state)@ == top_outcome(
            old(state)@,
            old(events)@,
        ).state && final(events)@ == top_outcome(old(state)@, old(events)@).events.push(
            GameEvent::StackResolved { object_id: old(state)@.stack.last().id },
        ),
        old(state)@.valid() ==> final(state)@.valid(),
{
    let ghost before = state@;
    let ghost top = before.stack.last();
    if let Some(entry) = state.stack.pop() {
        let ghost popped = StateModel { stack: before.stack.drop_last(), ..before };
        proof {
            assert(entry@ == top);
            assert(state@.stack =~= before.stack.drop_last());
            assert(state@ =~= popped);
            if before.valid() {
                waiting_keeps_valid(before, popped);
            }
        }
        match entry.ability() {
            Some(ability) => {
                proof {
                    chain_keeps(popped, ability@, events@, 0);
                }
                let _ = resolve_ability_chain(state, ability, events, 0);
            },
            None => {
                state.waiting_for = WaitingFor::Priority { player: state.active_player };
                proof {
                    assert(state@ =~= top_outcome(before, events@).state);
                    if before.valid() {
                        waiting_keeps_valid(popped, state@);
                    }
                }
            },
        }
        events.push(GameEvent::StackResolved { object_id: entry.id });
    }
}

} // verus!
