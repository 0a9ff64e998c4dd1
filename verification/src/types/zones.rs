use vstd::prelude::*;

verus! {

/// The places an object can be.
#[derive(Clone, Copy, Debug, PartialEq, Eq, Structural, Hash)]
pub enum Zone {
    Library,
    Hand,
    Battlefield,
    Graveyard,
    Stack,
    Exile,
    Command,
}

/// A library, a hand or a graveyard belongs to one player; the other zones are shared.
pub open spec fn is_private(zone: Zone) -> bool {
    zone is Library || zone is Hand || zone is Graveyard
}

} // verus!
