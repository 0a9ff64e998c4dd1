use vstd::prelude::*;
use crate::types::ability::EffectKind;
use crate::types::identifiers::{ObjectId, PlayerId};
use crate::types::phase::Phase;
use crate::types::zones::Zone;

verus! {

/// What happened, in the order in which it happened.
#[derive(Clone, Copy, Debug, PartialEq, Eq, Structural, Hash)]
pub enum GameEvent {
    GameStarted,
    MulliganStarted,
    CardsDrawn { player_id: PlayerId, count: u32 },
    ZoneChanged { object_id: ObjectId, from: Zone, to: Zone },
    StackPushed { object_id: ObjectId },
    StackResolved { object_id: ObjectId },
    EffectResolved { kind: EffectKind, source_id: ObjectId },
    PhaseChanged { phase: Phase },
}

} // verus!
