use vstd::prelude::*;

verus! {

/// A deterministic source of random numbers: the same seed gives the same game.
#[derive(Clone, Copy, Debug, PartialEq, Eq, Structural, Hash)]
pub struct GameRng {
    pub state: u64,
}

pub open spec fn mix_once(z: u64) -> u64 {
    (z ^ (z >> 30u64)).wrapping_mul(0xBF58_476D_1CE4_E5B9u64)
}

pub open spec fn mix_twice(z: u64) -> u64 {
    (z ^ (z >> 27u64)).wrapping_mul(0x94D0_49BB_1331_11EBu64)
}

/// Spreads the bits of a counter over a word.
pub open spec fn mixed(z: u64) -> u64 {
    let y = mix_twice(mix_once(z));
    y ^ (y >> 31u64)
}

impl GameRng {
    /// The generator after one more number.
    pub open spec fn advanced(self) -> GameRng {
        GameRng { state: self.state.wrapping_add(0x9E37_79B9_7F4A_7C15u64) }
    }

    /// The number the generator gives next, reduced below `bound`.
    pub open spec fn pick(self, bound: nat) -> nat {
        (mixed(self.advanced().state) as nat) % bound
    }

    pub fn new(seed: u64) -> (rng: GameRng)
        ensures
            rng == (GameRng { state: seed }),
    {
        GameRng { state: seed }
    }

    pub fn next_below(&mut self, bound: usize) -> (picked: usize)
        requires
            bound > 0,
        ensures
            picked == old(self).pick(bound as nat),
            picked < bound,
            *final(self) == old(self).advanced(),
    {
        self.state = self.state.wrapping_add(0x9E37_79B9_7F4A_7C15u64);
        let z: u64 = self.state;
        let z1: u64 = (z ^ (z >> 30u64)).wrapping_mul(0xBF58_476D_1CE4_E5B9u64);
        let z2: u64 = (z1 ^ (z1 >> 27u64)).wrapping_mul(0x94D0_49BB_1331_11EBu64);
        let z3: u64 = z2 ^ (z2 >> 31u64);
        (z3 % (bound as u64)) as usize
    }
}

pub open spec fn swapped<A>(s: Seq<A>, i: int, j: int) -> Seq<A> {
    s.update(i, s[j]).update(j, s[i])
}

/// A list with its first `n` places put in random order: from the last of them down, each place
/// takes the card of a place picked among it and those before it.
pub open spec fn shuffled_prefix<A>(s: Seq<A>, n: nat, rng: GameRng) -> Seq<A>
    decreases n,
{
    if n <= 1 {
        s
    } else {
        shuffled_prefix(
            swapped(s, n - 1, rng.pick(n) as int),
            (n - 1) as nat,
            rng.advanced(),
        )
    }
}

/// The generator after `n` more numbers.
pub open spec fn advanced_by(rng: GameRng, n: nat) -> GameRng
    decreases n,
{
    if n == 0 {
        rng
    } else {
        advanced_by(rng.advanced(), (n - 1) as nat)
    }
}

/// The generator after a list of `len` has been shuffled.
pub open spec fn rng_after_shuffle(rng: GameRng, len: nat) -> GameRng {
    if len == 0 {
        rng
    } else {
        advanced_by(rng, (len - 1) as nat)
    }
}

pub open spec fn shuffled<A>(s: Seq<A>, rng: GameRng) -> Seq<A> {
    shuffled_prefix(s, s.len(), rng)
}

/// Puts a list in random order.
pub fn shuffle_vector<A: Copy>(v: &mut Vec<A>, rng: &mut GameRng)
    ensures
        final(v)@ == shuffled(old(v)@, *old(rng)),
        *final(rng) == rng_after_shuffle(*old(rng), old(v)@.len()),
{
    let mut n: usize = v.len();
    while n > 1
        invariant
            n <= v@.len(),
            shuffled_prefix(v@, n as nat, *rng) == shuffled(old(v)@, *old(rng)),
            rng_after_shuffle(*rng, n as nat) == rng_after_shuffle(*old(rng), old(v)@.len()),
        decreases n,
    {
        let j: usize = rng.next_below(n);
        let last: A = v[n - 1];
        let picked: A = v[j];
        v.set(n - 1, picked);
        v.set(j, last);
        n = n - 1;
    }
}

/// Shuffling loses no card and adds none.
pub proof fn shuffled_prefix_permutes<A>(s: Seq<A>, n: nat, rng: GameRng)
    requires
        n <= s.len(),
    ensures
        shuffled_prefix(s, n, rng).to_multiset() == s.to_multiset(),
        shuffled_prefix(s, n, rng).len() == s.len(),
    decreases n,
{
    broadcast use vstd::seq_lib::group_to_multiset_ensures;

    if n > 1 {
        let j = rng.pick(n) as int;
        let once = s.update(n - 1, s[j]);
        shuffled_prefix_permutes(swapped(s, n - 1, j), (n - 1) as nat, rng.advanced());
        assert(swapped(s, n - 1, j).to_multiset() =~= s.to_multiset());
    }
}

/// A shuffled list holds what it held, in another order.
pub proof fn shuffle_permutes<A>(s: Seq<A>, rng: GameRng)
    ensures
        shuffled(s, rng).to_multiset() == s.to_multiset(),
        shuffled(s, rng).len() == s.len(),
{
    shuffled_prefix_permutes(s, s.len(), rng);
}

} // verus!
