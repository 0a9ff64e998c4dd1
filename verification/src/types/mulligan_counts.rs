use std::collections::HashMap;
use vstd::prelude::*;
use crate::types::identifiers::PlayerId;

verus! {

broadcast use vstd::std_specs::hash::group_hash_axioms;

/// A number for each of some players who have locked in a hand.
#[derive(Debug)]
pub struct MulliganCounts {
    counts: HashMap<u8, u8>,
}

impl View for MulliganCounts {
    type V = Map<PlayerId, u8>;

    closed spec fn view(&self) -> Map<PlayerId, u8> {
        Map::new(
            |player: PlayerId| self.counts@.contains_key(player.0),
            |player: PlayerId| self.counts@[player.0],
        )
    }
}

impl MulliganCounts {
    pub fn new() -> (counts: MulliganCounts)
        ensures
            counts@ == Map::<PlayerId, u8>::empty(),
    {
        MulliganCounts { counts: HashMap::new() }
    }

    pub fn get(&self, player: PlayerId) -> (count: Option<u8>)
        ensures
            count == (if self@.contains_key(player) {
                Some(self@[player])
            } else {
                None
            }),
    {
        match self.counts.get(&player.0) {
            Some(count) => Some(*count),
            None => None,
        }
    }

    pub fn insert(&mut self, player: PlayerId, count: u8)
        ensures
            final(self)@ == old(self)@.insert(player, count),
    {
        self.counts.insert(player.0, count);
    }

    pub fn remove(&mut self, player: PlayerId)
        ensures
            final(self)@ == old(self)@.remove(player),
    {
        self.counts.remove(&player.0);
    }

    pub fn clear(&mut self)
        ensures
            final(self)@ == Map::<PlayerId, u8>::empty(),
    {
        self.counts.clear();
    }
}

} // verus!
