use vstd::prelude::*;
use crate::types::identifiers::ObjectId;

verus! {

/// What a player answers the game.
#[derive(Debug)]
pub enum GameAction {
    MulliganDecision { keep: bool },
    SelectCards { cards: Vec<ObjectId> },
    DecideOptionalEffect { accept: bool },
}

/// An answer as a value.
#[verifier::ext_equal]
pub enum ActionModel {
    MulliganDecision { keep: bool },
    SelectCards { cards: Seq<ObjectId> },
    DecideOptionalEffect { accept: bool },
}

impl View for GameAction {
    type V = ActionModel;

    open spec fn view(&self) -> ActionModel {
        match *self {
            GameAction::MulliganDecision { keep } => ActionModel::MulliganDecision { keep },
            GameAction::SelectCards { cards } => ActionModel::SelectCards { cards: cards@ },
            GameAction::DecideOptionalEffect { accept } => ActionModel::DecideOptionalEffect {
                accept,
            },
        }
    }
}

} // verus!
