//! What makes a shuffle one: the numbers drawn decide the order, every order can come up, and the
//! generator keeps giving new numbers.

use vstd::prelude::*;
#[allow(unused_imports)]
use crate::util::rng::{
    advanced_by, mix_once, mix_twice, mixed, rng_after_shuffle, shuffled, shuffled_prefix, swapped,
    GameRng,
};

verus! {

/// One number for each place from the last down to the second, each at most that place.
pub open spec fn are_picks(picks: Seq<nat>, len: nat) -> bool {
    &&& picks.len() == if len == 0 {
        0
    } else {
        len - 1
    }
    &&& forall|k: int| 0 <= k < picks.len() ==> #[trigger] picks[k] < len - k
}

/// The list once each of its first `n` places, from the last of them down, has traded its card
/// for the one at the place picked.
pub open spec fn arranged<A>(s: Seq<A>, n: nat, picks: Seq<nat>) -> Seq<A>
    decreases n,
{
    if n <= 1 {
        s
    } else {
        let p = picks[0] as int;
        arranged(s.update(n - 1, s[p]).update(p, s[n - 1]), (n - 1) as nat, picks.skip(1))
    }
}

/// The numbers that a generator gives for a list of `len`, one after the other.
pub open spec fn picks_of(rng: GameRng, len: nat) -> Seq<nat> {
    Seq::new(
        if len == 0 {
            0
        } else {
            (len - 1) as nat
        },
        |k: int| advanced_by(rng, k as nat).pick((len - k) as nat),
    )
}

/// A shuffle goes by the numbers the generator gives, each of them once, and by nothing else.
pub proof fn shuffling_goes_by_the_numbers_drawn<A>(s: Seq<A>, rng: GameRng)
    ensures
        are_picks(picks_of(rng, s.len()), s.len()),
        shuffled(s, rng) == arranged(s, s.len(), picks_of(rng, s.len())),
        rng_after_shuffle(rng, s.len()) == advanced_by(rng, picks_of(rng, s.len()).len()),
{
    prefix_goes_by_the_numbers_drawn(s, s.len(), rng);
}

proof fn prefix_goes_by_the_numbers_drawn<A>(s: Seq<A>, n: nat, rng: GameRng)
    ensures
        shuffled_prefix(s, n, rng) == arranged(s, n, picks_of(rng, n)),
    decreases n,
{
    if n > 1 {
        let p = rng.pick(n) as int;
        assert(picks_of(rng, n)[0] == p);
        assert(picks_of(rng, n).skip(1) =~= picks_of(rng.advanced(), (n - 1) as nat)) by {
            assert forall|k: int| 0 <= k < n - 2 implies picks_of(rng, n).skip(1)[k] == picks_of(
                rng.advanced(),
                (n - 1) as nat,
            )[k] by {
                assert(advanced_by(rng, (k + 1) as nat) == advanced_by(rng.advanced(), k as nat));
            }
        }
        assert(swapped(s, n - 1, p) =~= s.update(n - 1, s[p]).update(p, s[n - 1]));
        prefix_goes_by_the_numbers_drawn(swapped(s, n - 1, p), (n - 1) as nat, rng.advanced());
    }
}

/// A place that has traded keeps its card.
proof fn later_places_stay<A>(s: Seq<A>, n: nat, picks: Seq<nat>)
    requires
        n <= s.len(),
        are_picks(picks, n),
    ensures
        arranged(s, n, picks).len() == s.len(),
        forall|i: int| n <= i < s.len() ==> #[trigger] arranged(s, n, picks)[i] == s[i],
    decreases n,
{
    if n > 1 {
        let p = picks[0] as int;
        let next = s.update(n - 1, s[p]).update(p, s[n - 1]);
        let rest = picks.skip(1);
        assert forall|k: int| 0 <= k < rest.len() implies #[trigger] rest[k] < (n - 1) - k by {
            assert(rest[k] == picks[k + 1]);
        }
        later_places_stay(next, (n - 1) as nat, rest);
        assert forall|i: int| n <= i < s.len() implies #[trigger] arranged(s, n, picks)[i]
            == s[i] by {
            assert(arranged(next, (n - 1) as nat, rest)[i] == next[i]);
        }
    }
}

proof fn trading_keeps_apart<A>(s: Seq<A>, i: int, j: int)
    requires
        s.no_duplicates(),
        0 <= i < s.len(),
        0 <= j < s.len(),
    ensures
        s.update(i, s[j]).update(j, s[i]).no_duplicates(),
        forall|item: A| #[trigger]
            s.update(i, s[j]).update(j, s[i]).contains(item) <==> s.contains(item),
{
    let t = s.update(i, s[j]).update(j, s[i]);
    assert forall|item: A| #[trigger] t.contains(item) <==> s.contains(item) by {
        if s.contains(item) {
            let k = choose|k: int| 0 <= k < s.len() && s[k] == item;
            assert(t[if k == i {
                j
            } else if k == j {
                i
            } else {
                k
            }] == item);
        }
        if t.contains(item) {
            let k = choose|k: int| 0 <= k < t.len() && t[k] == item;
            assert(s[if k == j {
                i
            } else if k == i {
                j
            } else {
                k
            }] == item);
        }
    }
}

/// No two sequences of numbers put different cards in the same order.
pub proof fn different_numbers_give_different_orders<A>(
    s: Seq<A>,
    one: Seq<nat>,
    two: Seq<nat>,
)
    requires
        s.no_duplicates(),
        are_picks(one, s.len()),
        are_picks(two, s.len()),
        one != two,
    ensures
        arranged(s, s.len(), one) != arranged(s, s.len(), two),
{
    if arranged(s, s.len(), one) == arranged(s, s.len(), two) {
        same_order_same_numbers(s, s.len(), one, two);
    }
}

proof fn same_order_same_numbers<A>(s: Seq<A>, n: nat, one: Seq<nat>, two: Seq<nat>)
    requires
        s.no_duplicates(),
        n <= s.len(),
        are_picks(one, n),
        are_picks(two, n),
        arranged(s, n, one) == arranged(s, n, two),
    ensures
        one == two,
    decreases n,
{
    if n <= 1 {
        assert(one =~= two);
    } else {
        let p = one[0] as int;
        let q = two[0] as int;
        let next_one = s.update(n - 1, s[p]).update(p, s[n - 1]);
        let next_two = s.update(n - 1, s[q]).update(q, s[n - 1]);
        let rest_one = one.skip(1);
        let rest_two = two.skip(1);
        assert forall|k: int| 0 <= k < rest_one.len() implies #[trigger] rest_one[k] < (n - 1)
            - k by {
            assert(rest_one[k] == one[k + 1]);
        }
        assert forall|k: int| 0 <= k < rest_two.len() implies #[trigger] rest_two[k] < (n - 1)
            - k by {
            assert(rest_two[k] == two[k + 1]);
        }
        later_places_stay(next_one, (n - 1) as nat, rest_one);
        later_places_stay(next_two, (n - 1) as nat, rest_two);
        assert(arranged(s, n, one)[n - 1] == s[p]);
        assert(arranged(s, n, two)[n - 1] == s[q]);
        assert(p == q);
        trading_keeps_apart(s, n - 1, p);
        same_order_same_numbers(next_one, (n - 1) as nat, rest_one, rest_two);
        assert(one =~= seq![one[0]] + rest_one);
        assert(two =~= seq![two[0]] + rest_two);
    }
}

/// The numbers that put `s` in the order `t`.
spec fn picks_for<A>(s: Seq<A>, t: Seq<A>, n: nat) -> Seq<nat>
    decreases n,
{
    if n <= 1 {
        Seq::empty()
    } else {
        let p = choose|p: int| 0 <= p < n && s[p] == t[n - 1];
        seq![p as nat] + picks_for(
            s.update(n - 1, s[p]).update(p, s[n - 1]),
            t,
            (n - 1) as nat,
        )
    }
}

proof fn picks_for_arrange<A>(s: Seq<A>, t: Seq<A>, n: nat)
    requires
        s.no_duplicates(),
        t.no_duplicates(),
        s.len() == t.len(),
        n <= s.len(),
        forall|item: A| #[trigger] s.contains(item) <==> t.contains(item),
        forall|i: int| n <= i < s.len() ==> #[trigger] s[i] == t[i],
    ensures
        are_picks(picks_for(s, t, n), n),
        arranged(s, n, picks_for(s, t, n)) == t,
    decreases n,
{
    if n <= 1 {
        if s.len() > 0 && n == 1 {
            assert(t.contains(t[0]));
            assert(s.contains(t[0]));
            let k = choose|k: int| 0 <= k < s.len() && s[k] == t[0];
            if k > 0 {
                assert(s[k] == t[k]);
            }
        }
        assert(s =~= t);
    } else {
        let wanted = t[n - 1];
        assert(t.contains(wanted));
        assert(s.contains(wanted));
        let k = choose|k: int| 0 <= k < s.len() && s[k] == wanted;
        if k >= n {
            assert(s[k] == t[k]);
        }
        let p = choose|p: int| 0 <= p < n && s[p] == t[n - 1];
        assert(0 <= p < n && s[p] == t[n - 1]);
        let next = s.update(n - 1, s[p]).update(p, s[n - 1]);
        trading_keeps_apart(s, n - 1, p);
        assert forall|i: int| n - 1 <= i < next.len() implies #[trigger] next[i] == t[i] by {
            if i >= n {
                assert(s[i] == t[i]);
            }
        }
        picks_for_arrange(next, t, (n - 1) as nat);
        let rest = picks_for(next, t, (n - 1) as nat);
        let picks = picks_for(s, t, n);
        assert(picks == seq![p as nat] + rest);
        assert(picks.skip(1) =~= rest);
        assert forall|i: int| 0 <= i < picks.len() implies #[trigger] picks[i] < n - i by {
            if i > 0 {
                assert(picks[i] == rest[i - 1]);
            }
        }
    }
}

/// Every order of different cards comes up for some numbers, and by the law above for no others.
pub proof fn every_order_comes_up<A>(s: Seq<A>, t: Seq<A>) -> (picks: Seq<nat>)
    requires
        s.no_duplicates(),
        t.to_multiset() == s.to_multiset(),
    ensures
        are_picks(picks, s.len()),
        arranged(s, s.len(), picks) == t,
{
    vstd::seq_lib::to_multiset_len(s);
    vstd::seq_lib::to_multiset_len(t);
    s.lemma_multiset_has_no_duplicates();
    t.lemma_multiset_has_no_duplicates_conv();
    assert forall|item: A| #[trigger] s.contains(item) <==> t.contains(item) by {
        vstd::seq_lib::to_multiset_contains(s, item);
        vstd::seq_lib::to_multiset_contains(t, item);
    }
    picks_for_arrange(s, t, s.len());
    picks_for(s, t, s.len())
}

/// Every card can come to every place.
pub proof fn every_card_comes_to_every_place<A>(s: Seq<A>, card: int, place: int) -> (picks: Seq<
    nat,
>)
    requires
        s.no_duplicates(),
        0 <= card < s.len(),
        0 <= place < s.len(),
    ensures
        are_picks(picks, s.len()),
        arranged(s, s.len(), picks)[place] == s[card],
{
    let t = s.update(place, s[card]).update(card, s[place]);
    trading_keeps_apart(s, place, card);
    picks_for_arrange(s, t, s.len());
    picks_for(s, t, s.len())
}

/// Multiplying by an odd number can be undone.
proof fn multiplying_back(x: u64, factor: u64, inverse: u64, whole: int)
    requires
        factor as int * inverse as int == 1 + whole * 0x1_0000_0000_0000_0000,
    ensures
        x.wrapping_mul(inverse).wrapping_mul(factor) == x,
{
    let range: int = 0x1_0000_0000_0000_0000;
    let y = x as int * inverse as int;
    vstd::arithmetic::div_mod::lemma_mul_mod_noop_left(y, factor as int, range);
    assert(y * factor as int == x as int + range * (x as int * whole)) by (nonlinear_arith)
        requires
            y == x as int * inverse as int,
            factor as int * inverse as int == 1 + whole * range,
    ;
    vstd::arithmetic::div_mod::lemma_mod_multiples_vanish(x as int * whole, x as int, range);
    vstd::arithmetic::div_mod::lemma_small_mod(x as nat, range as nat);
    assert((y % range) * factor as int % range == x as int);
}

/// The state before a number that mixes to `k`.
proof fn mixing_reaches(k: u64) -> (z: u64)
    ensures
        mixed(z) == k,
{
    let y = k ^ (k >> 31u64) ^ (k >> 62u64);
    assert((k ^ (k >> 31u64) ^ (k >> 62u64)) ^ ((k ^ (k >> 31u64) ^ (k >> 62u64)) >> 31u64) == k)
        by (bit_vector);
    let v = y.wrapping_mul(0x3196_42b2_d24d_8ec3u64);
    multiplying_back(
        y,
        0x94D0_49BB_1331_11EBu64,
        0x3196_42b2_d24d_8ec3u64,
        0x1cd336eda85f1453,
    );
    let w = v ^ (v >> 27u64) ^ (v >> 54u64);
    assert((v ^ (v >> 27u64) ^ (v >> 54u64)) ^ ((v ^ (v >> 27u64) ^ (v >> 54u64)) >> 27u64) == v)
        by (bit_vector);
    let u = w.wrapping_mul(0x96de_1b17_3f11_9089u64);
    multiplying_back(
        w,
        0xBF58_476D_1CE4_E5B9u64,
        0x96de_1b17_3f11_9089u64,
        0x70c3bca78f27f46c,
    );
    let z = u ^ (u >> 30u64) ^ (u >> 60u64);
    assert((u ^ (u >> 30u64) ^ (u >> 60u64)) ^ ((u ^ (u >> 30u64) ^ (u >> 60u64)) >> 30u64) == u)
        by (bit_vector);
    assert(mix_once(z) == w);
    assert(mix_twice(w) == y);
    z
}

/// Every number below a bound comes up for some generator.
pub proof fn every_number_comes_up(bound: nat, k: nat) -> (rng: GameRng)
    requires
        k < bound <= 0x1_0000_0000_0000_0000,
    ensures
        rng.pick(bound) == k,
{
    let z = mixing_reaches(k as u64);
    let step = 0x9E37_79B9_7F4A_7C15u64;
    let state: u64 = if z >= step {
        (z - step) as u64
    } else {
        (z + 0x1_0000_0000_0000_0000 - step) as u64
    };
    let rng = GameRng { state };
    assert(rng.advanced().state == z);
    vstd::arithmetic::div_mod::lemma_small_mod(k, bound);
    rng
}

/// What is shuffled depends on the generator: for every one of different cards some generator
/// brings it to the last place.
pub proof fn every_card_is_shuffled_last_by_some_generator<A>(s: Seq<A>, card: int) -> (rng:
    GameRng)
    requires
        s.no_duplicates(),
        0 <= card < s.len() <= 0x1_0000_0000_0000_0000,
    ensures
        shuffled(s, rng).last() == s[card],
{
    let rng = every_number_comes_up(s.len(), card as nat);
    shuffling_goes_by_the_numbers_drawn(s, rng);
    if s.len() > 1 {
        let n = s.len();
        let picks = picks_of(rng, n);
        assert(picks[0] == rng.pick(n)) by {
            assert(advanced_by(rng, 0) == rng);
        }
        let rest = picks.skip(1);
        assert forall|k: int| 0 <= k < rest.len() implies #[trigger] rest[k] < (n - 1) - k by {
            assert(rest[k] == picks[k + 1]);
        }
        let next = s.update(n - 1, s[card]).update(card, s[n - 1]);
        later_places_stay(next, (n - 1) as nat, rest);
        assert(arranged(s, n, picks)[n - 1] == next[n - 1]);
    }
    later_places_stay(s, s.len(), picks_of(rng, s.len()));
    rng
}

proof fn advancing_adds(rng: GameRng, n: nat)
    ensures
        advanced_by(rng, n).state as int == (rng.state as int + n as int
            * 0x9E37_79B9_7F4A_7C15int) % 0x1_0000_0000_0000_0000,
    decreases n,
{
    let range: int = 0x1_0000_0000_0000_0000;
    let step: int = 0x9E37_79B9_7F4A_7C15;
    if n == 0 {
        vstd::arithmetic::div_mod::lemma_small_mod(rng.state as nat, range as nat);
    } else {
        let next = rng.advanced();
        advancing_adds(next, (n - 1) as nat);
        let m = (n - 1) * step;
        assert(n as int * step == step + m) by (nonlinear_arith)
            requires
                m == (n - 1) * step,
        ;
        let sum = rng.state as int + step;
        assert(next.state as int == sum || next.state as int == sum - range);
        if next.state as int == sum - range {
            vstd::arithmetic::div_mod::lemma_mod_multiples_vanish(-1, sum + m, range);
        }
    }
}

/// The generator does not repeat itself: after any number of steps short of the whole range it is
/// in a state it has not been in.
pub proof fn generator_does_not_repeat(rng: GameRng, m: nat, n: nat)
    requires
        m < n < m + 0x1_0000_0000_0000_0000,
    ensures
        advanced_by(rng, m) != advanced_by(rng, n),
{
    let range: int = 0x1_0000_0000_0000_0000;
    let step: int = 0x9E37_79B9_7F4A_7C15;
    let back: int = 0xf1de_83e1_9937_733d;
    if advanced_by(rng, m) == advanced_by(rng, n) {
        advancing_adds(rng, m);
        advancing_adds(rng, n);
        let a = rng.state as int + m as int * step;
        let b = rng.state as int + n as int * step;
        let d = n as int - m as int;
        assert(b - a == d * step) by (nonlinear_arith)
            requires
                a == rng.state as int + m as int * step,
                b == rng.state as int + n as int * step,
                d == n as int - m as int,
        ;
        vstd::arithmetic::div_mod::lemma_fundamental_div_mod(a, range);
        vstd::arithmetic::div_mod::lemma_fundamental_div_mod(b, range);
        let q = b / range - a / range;
        assert(d * step == range * q) by (nonlinear_arith)
            requires
                b - a == d * step,
                a == range * (a / range) + a % range,
                b == range * (b / range) + b % range,
                a % range == b % range,
                q == b / range - a / range,
        ;
        assert(d == range * (q * back - d * 0x957bbf35006ed677int)) by (nonlinear_arith)
            requires
                d * step == range * q,
                step * back == 1 + 0x957bbf35006ed677int * range,
        ;
        let r = q * back - d * 0x957bbf35006ed677int;
        assert(false) by (nonlinear_arith)
            requires
                d == range * r,
                0 < d < range,
                range > 0,
        ;
    }
}

} // verus!
