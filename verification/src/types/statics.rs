use vstd::prelude::*;

verus! {

/// What a static ability does.
#[derive(Clone, Copy, Debug, PartialEq, Eq, Structural, Hash)]
pub enum StaticMode {
    CantBeCopied,
    CantBeCountered,
}

#[derive(Clone, Copy, Debug, PartialEq, Eq, Structural, Hash)]
pub struct StaticDefinition {
    pub mode: StaticMode,
}

} // verus!
