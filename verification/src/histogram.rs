//! Scores that are derived from a histogram: dispersion around the expected
//! count, the number of slots in use, and the fullest slot.

use vstd::prelude::*;
use vstd::arithmetic::div_mod::lemma_add_mod_noop;

verus! {

/// Dispersion scores are kept in 32 bits: they are sums taken modulo this.
pub open spec fn score_modulus() -> int {
    0x1_0000_0000
}

/// The sum over all slots of the squared distance between the count in the
/// slot and the expected count.
pub open spec fn deviation_sum(hist: Seq<u32>, expected: int) -> int
    decreases hist.len(),
{
    if hist.len() == 0 {
        0
    } else {
        deviation_sum(hist.drop_last(), expected) + (hist.last() - expected) * (hist.last()
            - expected)
    }
}

/// The dispersion score of a histogram: its deviation sum in wrapping 32-bit
/// arithmetic.
pub open spec fn dispersion(hist: Seq<u32>, expected: int) -> int {
    deviation_sum(hist, expected) % score_modulus()
}

/// The number of slots that hold at least one observation.
pub open spec fn filled(hist: Seq<u32>) -> nat
    decreases hist.len(),
{
    if hist.len() == 0 {
        0
    } else {
        filled(hist.drop_last()) + if hist.last() >= 1 {
            1nat
        } else {
            0nat
        }
    }
}

/// `m` is the largest count of the histogram; 0 stands for the largest count
/// of a histogram without slots.
pub open spec fn is_largest(hist: Seq<u32>, m: int) -> bool {
    if hist.len() == 0 {
        m == 0
    } else {
        &&& forall|i: int| 0 <= i < hist.len() ==> hist[i] <= m
        &&& exists|i: int| 0 <= i < hist.len() && hist[i] == m
    }
}

/// The number of slots in use is at most the number of slots.
pub proof fn lemma_filled_bound(hist: Seq<u32>)
    ensures
        filled(hist) <= hist.len(),
    decreases hist.len(),
{
    if hist.len() > 0 {
        lemma_filled_bound(hist.drop_last());
    }
}

/// A deviation sum is never negative.
pub proof fn lemma_deviation_sum_nonnegative(hist: Seq<u32>, expected: int)
    ensures
        deviation_sum(hist, expected) >= 0,
    decreases hist.len(),
{
    if hist.len() > 0 {
        lemma_deviation_sum_nonnegative(hist.drop_last(), expected);
        let d = hist.last() - expected;
        assert(d * d >= 0) by (nonlinear_arith);
    }
}

/// Computes the dispersion score of `hist` around `expected`.
pub fn dispersion_of(hist: &[u32], expected: u32) -> (score: u32)
    ensures
        score == dispersion(hist@, expected as int),
{
    let mut acc: u64 = 0;
    let mut i: usize = 0;
    while i < hist.len()
        invariant
            i <= hist@.len(),
            acc < 0x1_0000_0000,
            acc == deviation_sum(hist@.take(i as int), expected as int) % score_modulus(),
        decreases hist@.len() - i,
    {
        let observed: u32 = hist[i];
        let distance: u64 = if observed >= expected {
            (observed - expected) as u64
        } else {
            (expected - observed) as u64
        };
        assert(distance * distance <= 0xffff_ffff * 0xffff_ffff) by (nonlinear_arith)
            requires
                distance <= 0xffff_ffff,
        ;
        let square: u64 = distance * distance;
        proof {
            let before = deviation_sum(hist@.take(i as int), expected as int);
            let d = observed - expected;
            assert(square == d * d) by (nonlinear_arith)
                requires
                    square == distance * distance,
                    distance == d || distance == -d,
            ;
            assert(hist@.take(i + 1).drop_last() =~= hist@.take(i as int));
            assert(deviation_sum(hist@.take(i + 1), expected as int) == before + square);
            lemma_add_mod_noop(before, square as int, score_modulus());
        }
        acc = (acc + square % 0x1_0000_0000) % 0x1_0000_0000;
        i += 1;
    }
    assert(hist@.take(i as int) =~= hist@);
    acc as u32
}

/// Counts the slots of `hist` that hold at least one observation.
pub fn filled_of(hist: &[u32]) -> (slots: usize)
    ensures
        slots == filled(hist@),
{
    let mut slots: usize = 0;
    let mut i: usize = 0;
    while i < hist.len()
        invariant
            i <= hist@.len(),
            slots <= i,
            slots == filled(hist@.take(i as int)),
        decreases hist@.len() - i,
    {
        proof {
            assert(hist@.take(i + 1).drop_last() =~= hist@.take(i as int));
        }
        if hist[i] >= 1 {
            slots += 1;
        }
        i += 1;
    }
    assert(hist@.take(i as int) =~= hist@);
    slots
}

/// Finds the largest count of `hist`.
pub fn largest_of(hist: &[u32]) -> (m: u32)
    ensures
        is_largest(hist@, m as int),
{
    if hist.len() == 0 {
        return 0;
    }
    let mut m: u32 = hist[0];
    let mut i: usize = 1;
    while i < hist.len()
        invariant
            1 <= i <= hist@.len(),
            forall|j: int| 0 <= j < i ==> hist@[j] <= m,
            exists|j: int| 0 <= j < i && hist@[j] == m,
        decreases hist@.len() - i,
    {
        if hist[i] > m {
            m = hist[i];
        }
        i += 1;
    }
    m
}

/// The number of observations that a histogram holds: the sum of its
/// counts.
pub open spec fn total(hist: Seq<u32>) -> int
    decreases hist.len(),
{
    if hist.len() == 0 {
        0
    } else {
        total(hist.drop_last()) + hist.last()
    }
}

/// All observations of the histogram are in slot `j`: that slot holds `n`,
/// every other slot is empty.
pub open spec fn spike(hist: Seq<u32>, j: int, n: int) -> bool {
    &&& 0 <= j < hist.len()
    &&& forall|i: int|
        0 <= i < hist.len() ==> #[trigger] hist[i] == if i == j {
            n
        } else {
            0
        }
}

/// No histogram is more dispersed than one that has all its observations in
/// one slot: the deviation sum is at most that of such a histogram with the
/// same number of slots and observations.
pub proof fn lemma_deviation_sum_bound(hist: Seq<u32>, expected: int)
    requires
        hist.len() >= 1,
    ensures
        total(hist) >= 0,
        deviation_sum(hist, expected) <= (total(hist) - expected) * (total(hist) - expected) + (
        hist.len() - 1) * (expected * expected),
    decreases hist.len(),
{
    let x = hist.last() as int;
    let rest = hist.drop_last();
    if hist.len() == 1 {
        assert(rest.len() == 0);
        assert(total(rest) == 0);
        assert(deviation_sum(rest, expected) == 0);
        assert((hist.len() - 1) * (expected * expected) == 0) by (nonlinear_arith)
            requires
                hist.len() == 1,
        ;
    } else {
        lemma_deviation_sum_bound(rest, expected);
        let t = total(rest);
        let k = hist.len() as int;
        let e = expected;
        assert((t - e) * (t - e) + (k - 2) * (e * e) + (x - e) * (x - e) <= (t + x - e) * (t + x
            - e) + (k - 1) * (e * e)) by (nonlinear_arith)
            requires
                t >= 0,
                x >= 0,
        ;
        assert(rest.len() - 1 == k - 2);
    }
}

/// What the scores of a histogram are that has all its observations in one
/// slot.
pub proof fn lemma_spike_scores(hist: Seq<u32>, j: int, n: int, expected: int)
    requires
        spike(hist, j, n),
    ensures
        total(hist) == n,
        deviation_sum(hist, expected) == (n - expected) * (n - expected) + (hist.len() - 1) * (
        expected * expected),
        filled(hist) == if n >= 1 {
            1nat
        } else {
            0nat
        },
        is_largest(hist, n),
    decreases hist.len(),
{
    let rest = hist.drop_last();
    let k = hist.len() as int;
    let e = expected;
    assert(hist[j] == n);
    if j == k - 1 {
        assert forall|i: int| 0 <= i < rest.len() implies #[trigger] rest[i] == 0 by {
            assert(rest[i] == hist[i]);
        }
        lemma_empty_scores(rest, expected);
    } else {
        assert(spike(rest, j, n)) by {
            assert forall|i: int| 0 <= i < rest.len() implies #[trigger] rest[i] == if i == j {
                n
            } else {
                0
            } by {
                assert(rest[i] == hist[i]);
            }
        }
        lemma_spike_scores(rest, j, n, expected);
        assert(hist.last() == hist[k - 1]);
        assert((n - e) * (n - e) + (k - 2) * (e * e) + (0 - e) * (0 - e) == (n - e) * (n - e) + (k
            - 1) * (e * e)) by (nonlinear_arith);
        assert(rest.len() - 1 == k - 2);
    }
}

/// What the scores of a histogram without observations are.
pub proof fn lemma_empty_scores(hist: Seq<u32>, expected: int)
    requires
        forall|i: int| 0 <= i < hist.len() ==> #[trigger] hist[i] == 0,
    ensures
        total(hist) == 0,
        deviation_sum(hist, expected) == hist.len() * (expected * expected),
        filled(hist) == 0,
    decreases hist.len(),
{
    if hist.len() > 0 {
        let rest = hist.drop_last();
        assert forall|i: int| 0 <= i < rest.len() implies #[trigger] rest[i] == 0 by {
            assert(rest[i] == hist[i]);
        }
        lemma_empty_scores(rest, expected);
        let k = hist.len() as int;
        let e = expected;
        assert(hist.last() == hist[k - 1]);
        assert((k - 1) * (e * e) + (0 - e) * (0 - e) == k * (e * e)) by (nonlinear_arith);
    } else {
        assert(hist.len() * (expected * expected) == 0) by (nonlinear_arith)
            requires
                hist.len() == 0,
        ;
    }
}

/// A histogram that holds an observation has a slot in use.
pub proof fn lemma_filled_positive(hist: Seq<u32>)
    requires
        total(hist) >= 1,
    ensures
        filled(hist) >= 1,
    decreases hist.len(),
{
    if hist.len() > 0 && hist.last() == 0 {
        lemma_filled_positive(hist.drop_last());
    }
}

/// The sum of `f` over the slots below `slots`.
pub open spec fn sum_below(f: spec_fn(int) -> nat, slots: nat) -> nat
    decreases slots,
{
    if slots == 0 {
        0
    } else {
        sum_below(f, (slots - 1) as nat) + f(slots - 1)
    }
}

/// Where `h` is the sum of `f` and `g` slot by slot, so are the sums.
pub proof fn lemma_sum_below_add(
    f: spec_fn(int) -> nat,
    g: spec_fn(int) -> nat,
    h: spec_fn(int) -> nat,
    slots: nat,
)
    requires
        forall|k: int| 0 <= k < slots ==> #[trigger] h(k) == f(k) + g(k),
    ensures
        sum_below(h, slots) == sum_below(f, slots) + sum_below(g, slots),
    decreases slots,
{
    if slots > 0 {
        lemma_sum_below_add(f, g, h, (slots - 1) as nat);
        assert(h(slots - 1) == f(slots - 1) + g(slots - 1));
    }
}

/// One observation of `x` is counted once over the slots, if `x` is one of
/// them.
pub proof fn lemma_sum_below_hit(f: spec_fn(int) -> nat, x: int, slots: nat)
    requires
        forall|k: int| 0 <= k < slots ==> #[trigger] f(k) == if k == x {
            1nat
        } else {
            0nat
        },
    ensures
        sum_below(f, slots) == if 0 <= x < slots {
            1nat
        } else {
            0nat
        },
    decreases slots,
{
    if slots > 0 {
        lemma_sum_below_hit(f, x, (slots - 1) as nat);
        assert(f(slots - 1) == if slots - 1 == x {
            1nat
        } else {
            0nat
        });
    }
}

/// The total of a histogram whose slots hold the values of `f` is the sum of
/// `f` over the slots.
pub proof fn lemma_total_is_sum_below(hist: Seq<u32>, f: spec_fn(int) -> nat)
    requires
        forall|k: int| 0 <= k < hist.len() ==> #[trigger] hist[k] == f(k),
    ensures
        total(hist) == sum_below(f, hist.len()),
    decreases hist.len(),
{
    if hist.len() > 0 {
        let rest = hist.drop_last();
        assert forall|k: int| 0 <= k < rest.len() implies #[trigger] rest[k] == f(k) by {
            assert(rest[k] == hist[k]);
        }
        lemma_total_is_sum_below(rest, f);
        assert(hist.last() == hist[hist.len() - 1]);
    }
}

} // verus!
