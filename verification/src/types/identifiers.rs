use vstd::prelude::*;

verus! {

/// A seat at the table.
#[derive(Clone, Copy, Debug, PartialEq, Eq, Structural, Hash)]
pub struct PlayerId(pub u8);

/// An object of the game: a card in some zone, or an entry on the stack.
#[derive(Clone, Copy, Debug, PartialEq, Eq, Structural, Hash)]
pub struct ObjectId(pub u64);

/// The printed card that an object represents.
#[derive(Clone, Copy, Debug, PartialEq, Eq, Structural, Hash)]
pub struct CardId(pub u64);

} // verus!
