use vstd::prelude::*;
use crate::game::mulligan::{find_bottom, find_decision};
#[allow(unused_imports)]
use crate::game::mulligan::{must_bottom, must_decide};
use crate::types::game_state::{GameState, WaitingFor};
#[allow(unused_imports)]
use crate::types::game_state::{StateModel, WaitModel};
use crate::types::identifiers::PlayerId;

verus! {

/// The game waits for an answer of the player. While hands are being settled it may wait for
/// several players at once.
pub open spec fn may_submit(s: StateModel, player: PlayerId) -> bool {
    match s.waiting_for {
        WaitModel::Priority { player: asked } => asked == player,
        WaitModel::MulliganDecision { pending, .. } => must_decide(pending, player),
        WaitModel::MulliganBottomCards { pending } => must_bottom(pending, player),
        WaitModel::OptionalEffectChoice { player: asked, .. } => asked == player,
        WaitModel::CopyRetarget { player: asked, .. } => asked == player,
    }
}

/// Whether the game waits for an answer of the player.
pub fn is_authorized_submitter(state: &GameState, player: PlayerId) -> (authorized: bool)
    ensures
        authorized == may_submit(state@, player),
{
    match &state.waiting_for {
        WaitingFor::Priority { player: asked } => *asked == player,
        WaitingFor::MulliganDecision { pending, .. } => find_decision(pending, player).is_some(),
        WaitingFor::MulliganBottomCards { pending } => find_bottom(pending, player).is_some(),
        WaitingFor::OptionalEffectChoice { player: asked, .. } => *asked == player,
        WaitingFor::CopyRetarget { player: asked, .. } => *asked == player,
    }
}

} // verus!
