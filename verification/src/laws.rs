//! What holds of the measures on whole families of sequences.

use vstd::prelude::*;
use vstd::arithmetic::power2::{lemma2_to64, lemma_pow2_unfold, pow2};
use crate::analysis::{bucket_histogram, byte_histogram, Report};
use crate::histogram::{
    deviation_sum, dispersion, filled, is_largest, lemma_deviation_sum_bound,
    lemma_deviation_sum_nonnegative, lemma_filled_positive, lemma_spike_scores,
    lemma_sum_below_add, lemma_sum_below_hit, lemma_total_is_sum_below, spike, sum_below, total,
};
use crate::sample::{
    and_all, and_rounds, bit_deviation, bit_deviation_sum, bucket_hits, bucket_of, byte_hits,
    byte_hits_in, byte_of, hit, lemma_bucket_hits_bound, lemma_byte_hits_bound,
    lemma_byte_of_bound, lemma_sample_prefix, popcount, sample, value_sum, SAMPLE_CAP,
};
use crate::stream::decimated;

verus! {

/// A value with `bits` ones and nothing else has a population count of
/// `bits`.
proof fn lemma_popcount_of_ones(v: u64, bits: nat)
    requires
        bits <= 64,
        v == pow2(bits) - 1,
    ensures
        popcount(v) == bits,
    decreases bits,
{
    lemma2_to64();
    if bits > 0 {
        lemma_pow2_unfold(bits);
        lemma_popcount_of_ones(v / 2, (bits - 1) as nat);
    }
}

/// Every value of `s` has a population count of exactly 32.
pub open spec fn balanced(s: Seq<u64>) -> bool {
    forall|i: int| 0 <= i < s.len() ==> popcount(#[trigger] s[i]) == 32
}

/// Every value of `s` is `c`.
pub open spec fn constant(s: Seq<u64>, c: u64) -> bool {
    forall|i: int| 0 <= i < s.len() ==> #[trigger] s[i] == c
}

/// The deviation sum of a sequence of equal values is the deviation of the
/// value times the length.
proof fn lemma_constant_deviation(s: Seq<u64>, c: u64)
    requires
        constant(s, c),
    ensures
        bit_deviation_sum(s) == s.len() * bit_deviation(c),
    decreases s.len(),
{
    if s.len() > 0 {
        assert(constant(s.drop_last(), c)) by {
            assert forall|i: int| 0 <= i < s.drop_last().len() implies #[trigger] s.drop_last()[i]
                == c by {
                assert(s.drop_last()[i] == s[i]);
            }
        }
        lemma_constant_deviation(s.drop_last(), c);
        assert(s.last() == s[s.len() - 1]);
        assert((s.len() - 1) * bit_deviation(c) + bit_deviation(c) == s.len() * bit_deviation(c))
            by (nonlinear_arith);
    }
}

/// Bit fairness holds of every sequence whose population counts are all 32:
/// `bit_fair` returns true on it.
pub proof fn law_balanced_is_fair(values: Seq<u64>)
    requires
        balanced(sample(values)),
    ensures
        bit_deviation_sum(sample(values)) < 5,
{
    lemma_balanced_deviation(sample(values));
}

proof fn lemma_balanced_deviation(s: Seq<u64>)
    requires
        balanced(s),
    ensures
        bit_deviation_sum(s) == 0,
    decreases s.len(),
{
    if s.len() > 0 {
        assert(balanced(s.drop_last())) by {
            assert forall|i: int| 0 <= i < s.drop_last().len() implies popcount(
                #[trigger] s.drop_last()[i],
            ) == 32 by {
                assert(s.drop_last()[i] == s[i]);
            }
        }
        lemma_balanced_deviation(s.drop_last());
        assert(popcount(s[s.len() - 1]) == 32);
        assert(bit_deviation(s.last()) == 0);
    }
}

/// Bit fairness fails on every sequence that has a value and holds nothing
/// but zeros, or nothing but values of all ones: `bit_fair` returns false on
/// it.
pub proof fn law_stuck_bits_are_unfair(values: Seq<u64>)
    requires
        values.len() > 0,
        constant(values, 0) || constant(values, u64::MAX),
    ensures
        bit_deviation_sum(sample(values)) >= 5,
{
    lemma_sample_prefix(values);
    let s = sample(values);
    let c: u64 = if constant(values, 0) {
        0
    } else {
        u64::MAX
    };
    assert(constant(s, c)) by {
        assert forall|i: int| 0 <= i < s.len() implies #[trigger] s[i] == c by {
            assert(s[i] == values[i]);
        }
    }
    lemma_constant_deviation(s, c);
    assert(bit_deviation(c) == 1024) by {
        lemma2_to64();
        if c == 0 {
            assert(popcount(0) == 0);
        } else {
            lemma_popcount_of_ones(u64::MAX, 64);
        }
        let p = popcount(c) as int;
        assert((p - 32) * (p - 32) == 1024) by (nonlinear_arith)
            requires
                p == 0 || p == 64,
        ;
    }
    assert(s.len() * 1024 >= 5) by (nonlinear_arith)
        requires
            s.len() >= 1,
    ;
}

/// A running AND that starts on a zero is zero after one value: `and_zero`
/// returns 1 on every sequence whose first value is zero.
pub proof fn law_zero_first_degenerates_at_once(values: Seq<u64>)
    requires
        values.len() > 0,
        values[0] == 0,
    ensures
        and_rounds(sample(values)) == 1,
{
    lemma_sample_prefix(values);
    let s = sample(values);
    assert(s[0] == 0);
    lemma_zero_first(s);
}

proof fn lemma_zero_first(s: Seq<u64>)
    requires
        s.len() > 0,
        s[0] == 0,
    ensures
        and_rounds(s) == 1,
        and_all(s) == 0,
    decreases s.len(),
{
    if s.len() == 1 {
        assert(s.drop_last().len() == 0);
        assert(and_all(s.drop_last()) == u64::MAX);
        assert(s.last() == 0);
        assert(u64::MAX & 0 == 0) by (bit_vector);
    } else {
        assert(s.drop_last()[0] == s[0]);
        lemma_zero_first(s.drop_last());
        let last = s.last();
        assert(0u64 & last == 0) by (bit_vector);
    }
}

/// No non-empty prefix of `s` has an AND of zero.
pub open spec fn never_zero(s: Seq<u64>) -> bool {
    forall|k: int| 1 <= k <= s.len() ==> and_all(#[trigger] s.take(k)) != 0
}

/// Where the running AND never reaches zero, every value of the sample is
/// taken in: `and_zero` returns the length of the sample, which is
/// `SAMPLE_CAP` for every sequence of at least that many values.
pub proof fn law_never_zero_takes_whole_sample(values: Seq<u64>)
    requires
        never_zero(sample(values)),
    ensures
        and_rounds(sample(values)) == sample(values).len(),
        values.len() >= SAMPLE_CAP ==> and_rounds(sample(values)) == SAMPLE_CAP,
{
    lemma_sample_prefix(values);
    let s = sample(values);
    if s.len() > 0 {
        if s.len() == 1 {
            assert(s.drop_last().len() == 0);
        } else {
            assert(s.take(s.len() - 1) =~= s.drop_last());
        }
    }
}

/// The values of `s` take turns: `first` at the even indices, `second` at
/// the odd ones.
pub open spec fn alternating(s: Seq<u64>, first: u64, second: u64) -> bool {
    forall|i: int|
        0 <= i < s.len() ==> #[trigger] s[i] == if i % 2 == 0 {
            first
        } else {
            second
        }
}

/// The sum of a sequence that alternates between two values.
proof fn lemma_alternating_sum(s: Seq<u64>, first: u64, second: u64)
    requires
        alternating(s, first, second),
    ensures
        value_sum(s) == ((s.len() + 1) / 2) * first + (s.len() / 2) * second,
    decreases s.len(),
{
    if s.len() > 0 {
        let rest = s.drop_last();
        assert(alternating(rest, first, second)) by {
            assert forall|i: int| 0 <= i < rest.len() implies #[trigger] rest[i] == if i % 2 == 0 {
                first
            } else {
                second
            } by {
                assert(rest[i] == s[i]);
            }
        }
        lemma_alternating_sum(rest, first, second);
        let n = s.len() as int;
        assert(s.last() == s[n - 1]);
        let firsts = (n + 1) / 2;
        let seconds = n / 2;
        let firsts_before = n / 2;
        let seconds_before = (n - 1) / 2;
        assert(value_sum(rest) == firsts_before * first + seconds_before * second);
        assert(value_sum(s) == value_sum(rest) + s.last());
        assert(((s.len() + 1) / 2) as int == firsts);
        assert((s.len() / 2) as int == seconds);
        if (n - 1) % 2 == 0 {
            assert(s.last() == first);
            assert(firsts * first + seconds * second == firsts_before * first + seconds_before
                * second + first) by (nonlinear_arith)
                requires
                    firsts == firsts_before + 1,
                    seconds == seconds_before,
            ;
        } else {
            assert(s.last() == second);
            assert(firsts * first + seconds * second == firsts_before * first + seconds_before
                * second + second) by (nonlinear_arith)
                requires
                    firsts == firsts_before,
                    seconds == seconds_before + 1,
            ;
        }
    } else {
        assert(((s.len() + 1) / 2) * first + (s.len() / 2) * second == 0) by (nonlinear_arith)
            requires
                s.len() == 0,
        ;
    }
}

/// The mean of a sequence that alternates between zero and the largest
/// value, whichever comes first, is half the largest value when the sample
/// has an even number of values: the sum that `average` returns, doubled, is
/// the count times `u64::MAX`. On an odd number of values the doubled sum is
/// off by one `u64::MAX`.
pub proof fn law_alternating_mean_is_half(values: Seq<u64>)
    requires
        alternating(values, 0, u64::MAX) || alternating(values, u64::MAX, 0),
    ensures
        sample(values).len() % 2 == 0 ==> 2 * value_sum(sample(values)) == sample(values).len()
            * u64::MAX,
        sample(values).len() % 2 == 1 ==> {
            ||| 2 * value_sum(sample(values)) == sample(values).len() * u64::MAX - u64::MAX
            ||| 2 * value_sum(sample(values)) == sample(values).len() * u64::MAX + u64::MAX
        },
{
    lemma_sample_prefix(values);
    let s = sample(values);
    let n = s.len() as int;
    let max = u64::MAX as int;
    if alternating(values, 0, u64::MAX) {
        assert(alternating(s, 0, u64::MAX)) by {
            assert forall|i: int| 0 <= i < s.len() implies #[trigger] s[i] == if i % 2 == 0 {
                0
            } else {
                u64::MAX
            } by {
                assert(s[i] == values[i]);
            }
        }
        lemma_alternating_sum(s, 0, u64::MAX);
        assert(((n + 1) / 2) * 0 == 0);
        if n % 2 == 0 {
            assert(2 * ((n / 2) * max) == n * max) by (nonlinear_arith)
                requires
                    2 * (n / 2) == n,
            ;
        } else {
            assert(2 * ((n / 2) * max) == n * max - max) by (nonlinear_arith)
                requires
                    2 * (n / 2) == n - 1,
            ;
        }
    } else {
        assert(alternating(s, u64::MAX, 0)) by {
            assert forall|i: int| 0 <= i < s.len() implies #[trigger] s[i] == if i % 2 == 0 {
                u64::MAX
            } else {
                0
            } by {
                assert(s[i] == values[i]);
            }
        }
        lemma_alternating_sum(s, u64::MAX, 0);
        assert((n / 2) * 0 == 0);
        if n % 2 == 0 {
            assert(2 * (((n + 1) / 2) * max) == n * max) by (nonlinear_arith)
                requires
                    2 * ((n + 1) / 2) == n,
            ;
        } else {
            assert(2 * (((n + 1) / 2) * max) == n * max + max) by (nonlinear_arith)
                requires
                    2 * ((n + 1) / 2) == n + 1,
            ;
        }
    }
}

/// The sample of the decimated form of a sequence of `n` values has half of
/// `n` values, rounded up, and never more than `SAMPLE_CAP`. For a sequence
/// of at most `SAMPLE_CAP` values that is half the length of its own sample,
/// rounded up.
pub proof fn law_decimated_sample_len(values: Seq<u64>)
    ensures
        sample(decimated(values)).len() == if (values.len() + 1) / 2 <= SAMPLE_CAP {
            (values.len() + 1) / 2
        } else {
            SAMPLE_CAP as nat
        },
        values.len() <= SAMPLE_CAP ==> sample(decimated(values)).len() == (sample(values).len()
            + 1) / 2,
{
    lemma_sample_prefix(values);
    lemma_sample_prefix(decimated(values));
}

/// The bucket histogram of a sequence holds one observation for each value.
pub proof fn lemma_bucket_total(s: Seq<u64>)
    requires
        s.len() <= u32::MAX,
    ensures
        total(bucket_histogram(s)) == s.len(),
{
    let counts = |k: int| bucket_hits(s, k);
    assert forall|k: int| 0 <= k < 4096 implies #[trigger] bucket_histogram(s)[k] == counts(k) by {
        lemma_bucket_hits_bound(s, k);
    }
    lemma_total_is_sum_below(bucket_histogram(s), counts);
    lemma_bucket_hits_sum(s);
}

proof fn lemma_bucket_hits_sum(s: Seq<u64>)
    ensures
        sum_below(|k: int| bucket_hits(s, k), 4096) == s.len(),
    decreases s.len(),
{
    let counts = |k: int| bucket_hits(s, k);
    if s.len() == 0 {
        let none = |k: int| 0nat;
        lemma_sum_below_add(none, none, counts, 4096);
        lemma_sum_below_add(none, none, none, 4096);
    } else {
        let rest = s.drop_last();
        let before = |k: int| bucket_hits(rest, k);
        let one = |k: int| hit(bucket_of(s.last()), k);
        lemma_bucket_hits_sum(rest);
        lemma_sum_below_add(before, one, counts, 4096);
        lemma_sum_below_hit(one, bucket_of(s.last()), 4096);
    }
}

/// The byte histogram of a sequence holds eight observations for each value.
pub proof fn lemma_byte_total(s: Seq<u64>)
    requires
        8 * s.len() <= u32::MAX,
    ensures
        total(byte_histogram(s)) == 8 * s.len(),
{
    let counts = |b: int| byte_hits(s, b);
    assert forall|b: int| 0 <= b < 256 implies #[trigger] byte_histogram(s)[b] == counts(b) by {
        lemma_byte_hits_bound(s, b);
    }
    lemma_total_is_sum_below(byte_histogram(s), counts);
    lemma_byte_hits_sum(s);
}

proof fn lemma_byte_hits_sum(s: Seq<u64>)
    ensures
        sum_below(|b: int| byte_hits(s, b), 256) == 8 * s.len(),
    decreases s.len(),
{
    let counts = |b: int| byte_hits(s, b);
    if s.len() == 0 {
        let none = |b: int| 0nat;
        lemma_sum_below_add(none, none, counts, 256);
        lemma_sum_below_add(none, none, none, 256);
    } else {
        let rest = s.drop_last();
        let before = |b: int| byte_hits(rest, b);
        let eight = |b: int| byte_hits_in(s.last(), b);
        lemma_byte_hits_sum(rest);
        lemma_sum_below_add(before, eight, counts, 256);
        lemma_byte_hits_in_sum(s.last());
    }
}

/// The sum of the hits of the bytes of `v` at the positions below
/// `positions`.
spec fn hits_upto(v: u64, positions: nat, b: int) -> nat
    decreases positions,
{
    if positions == 0 {
        0
    } else {
        hits_upto(v, (positions - 1) as nat, b) + hit(
            byte_of(v, (positions - 1) as u64) as int,
            b,
        )
    }
}

proof fn lemma_hits_upto_sum(v: u64, positions: nat)
    requires
        positions <= 8,
    ensures
        sum_below(|b: int| hits_upto(v, positions, b), 256) == positions,
    decreases positions,
{
    let counts = |b: int| hits_upto(v, positions, b);
    if positions == 0 {
        let none = |b: int| 0nat;
        lemma_sum_below_add(none, none, counts, 256);
        lemma_sum_below_add(none, none, none, 256);
    } else {
        let before = |b: int| hits_upto(v, (positions - 1) as nat, b);
        let byte = byte_of(v, (positions - 1) as u64) as int;
        let one = |b: int| hit(byte, b);
        lemma_hits_upto_sum(v, (positions - 1) as nat);
        lemma_byte_of_bound(v, (positions - 1) as u64);
        lemma_sum_below_add(before, one, counts, 256);
        lemma_sum_below_hit(one, byte, 256);
    }
}

proof fn lemma_byte_hits_in_sum(v: u64)
    ensures
        sum_below(|b: int| byte_hits_in(v, b), 256) == 8,
{
    let unrolled = |b: int| hits_upto(v, 8, b);
    let direct = |b: int| byte_hits_in(v, b);
    let none = |b: int| 0nat;
    assert forall|b: int| 0 <= b < 256 implies #[trigger] direct(b) == unrolled(b) + none(b) by {
        reveal_with_fuel(hits_upto, 9);
    }
    lemma_hits_upto_sum(v, 8);
    lemma_sum_below_add(unrolled, none, direct, 256);
    lemma_sum_below_add(none, none, none, 256);
}

/// The number of values and the expected count per bucket of the sample of
/// `values`.
pub open spec fn bucket_expectation(values: Seq<u64>) -> int {
    sample(values).len() as int / 4096
}

/// The expected count per byte value of the sample of `values`.
pub open spec fn byte_expectation(values: Seq<u64>) -> int {
    (8 * sample(values).len()) as int / 256
}

/// The deviation sum of a histogram of `slots` slots that has all of `n`
/// observations in one slot, around the expected count `e`.
pub open spec fn spike_deviation(slots: int, n: int, e: int) -> int {
    (n - e) * (n - e) + (slots - 1) * (e * e)
}

/// A hash function with a constant output fills one bucket: on a sequence
/// that has a value and holds nothing but `c`, the bucket histogram has one
/// slot in use, its fullest slot holds the whole sample, and its deviation
/// sum is that of a histogram with everything in one slot.
pub proof fn law_constant_fills_one_bucket(values: Seq<u64>, c: u64)
    requires
        values.len() > 0,
        constant(values, c),
    ensures
        filled(bucket_histogram(sample(values))) == 1,
        is_largest(bucket_histogram(sample(values)), sample(values).len() as int),
        deviation_sum(bucket_histogram(sample(values)), bucket_expectation(values))
            == spike_deviation(4096, sample(values).len() as int, bucket_expectation(values)),
{
    lemma_sample_prefix(values);
    let s = sample(values);
    assert(constant(s, c)) by {
        assert forall|i: int| 0 <= i < s.len() implies #[trigger] s[i] == c by {
            assert(s[i] == values[i]);
        }
    }
    let hist = bucket_histogram(s);
    assert(spike(hist, bucket_of(c), s.len() as int)) by {
        assert forall|k: int| 0 <= k < hist.len() implies #[trigger] hist[k] == if k == bucket_of(
            c,
        ) {
            s.len() as int
        } else {
            0
        } by {
            lemma_constant_bucket_hits(s, c, k);
        }
    }
    lemma_spike_scores(hist, bucket_of(c), s.len() as int, bucket_expectation(values));
}

proof fn lemma_constant_bucket_hits(s: Seq<u64>, c: u64, k: int)
    requires
        constant(s, c),
    ensures
        bucket_hits(s, k) == if k == bucket_of(c) {
            s.len()
        } else {
            0
        },
    decreases s.len(),
{
    if s.len() > 0 {
        let rest = s.drop_last();
        assert(constant(rest, c)) by {
            assert forall|i: int| 0 <= i < rest.len() implies #[trigger] rest[i] == c by {
                assert(rest[i] == s[i]);
            }
        }
        lemma_constant_bucket_hits(rest, c, k);
        assert(s.last() == s[s.len() - 1]);
    }
}

/// No sample is more dispersed over the buckets than that of a constant
/// output: the deviation sum of the bucket histogram is at most that of a
/// histogram with the whole sample in one slot. The sample holds a value in
/// some bucket as soon as it has one. For samples of less than 65536 values
/// the dispersion score is the deviation sum itself, so the same holds of
/// the score; longer samples may wrap it around.
pub proof fn law_bucket_dispersion_is_bounded(values: Seq<u64>)
    ensures
        deviation_sum(bucket_histogram(sample(values)), bucket_expectation(values))
            <= spike_deviation(4096, sample(values).len() as int, bucket_expectation(values)),
        sample(values).len() > 0 ==> filled(bucket_histogram(sample(values))) >= 1,
        sample(values).len() < 65536 ==> dispersion(
            bucket_histogram(sample(values)),
            bucket_expectation(values),
        ) == deviation_sum(bucket_histogram(sample(values)), bucket_expectation(values)),
{
    lemma_sample_prefix(values);
    let s = sample(values);
    let hist = bucket_histogram(s);
    let e = bucket_expectation(values);
    let n = s.len() as int;
    lemma_bucket_total(s);
    lemma_deviation_sum_bound(hist, e);
    lemma_deviation_sum_nonnegative(hist, e);
    if n > 0 {
        lemma_filled_positive(hist);
    }
    if n < 65536 {
        assert(spike_deviation(4096, n, e) < 0x1_0000_0000) by (nonlinear_arith)
            requires
                0 <= n < 65536,
                0 <= e,
                4096 * e <= n,
                spike_deviation(4096, n, e) == (n - e) * (n - e) + 4095 * (e * e),
        ;
        vstd::arithmetic::div_mod::lemma_small_mod(
            deviation_sum(hist, e) as nat,
            0x1_0000_0000nat,
        );
    }
}

/// All eight bytes of `c` are `b`.
pub open spec fn repeats_byte(c: u64, b: int) -> bool {
    forall|k: u64| 0 <= k < 8 ==> #[trigger] byte_of(c, k) == b
}

/// A hash function with a constant output of one repeated byte fills one
/// slot of the byte histogram: on a sequence that has a value and holds
/// nothing but `c`, one byte value occurs, and the deviation sum is that of
/// a histogram with everything in one slot.
pub proof fn law_constant_fills_one_byte(values: Seq<u64>, c: u64, b: int)
    requires
        values.len() > 0,
        constant(values, c),
        repeats_byte(c, b),
    ensures
        filled(byte_histogram(sample(values))) == 1,
        deviation_sum(byte_histogram(sample(values)), byte_expectation(values)) == spike_deviation(
            256,
            8 * sample(values).len() as int,
            byte_expectation(values),
        ),
{
    lemma_sample_prefix(values);
    let s = sample(values);
    assert(constant(s, c)) by {
        assert forall|i: int| 0 <= i < s.len() implies #[trigger] s[i] == c by {
            assert(s[i] == values[i]);
        }
    }
    let hist = byte_histogram(s);
    assert(byte_of(c, 0) == b);
    lemma_byte_of_bound(c, 0);
    assert(spike(hist, b, 8 * s.len() as int)) by {
        assert forall|k: int| 0 <= k < hist.len() implies #[trigger] hist[k] == if k == b {
            8 * s.len()
        } else {
            0
        } by {
            lemma_constant_byte_hits(s, c, b, k);
        }
    }
    lemma_spike_scores(hist, b, 8 * s.len() as int, byte_expectation(values));
}

proof fn lemma_constant_byte_hits(s: Seq<u64>, c: u64, b: int, k: int)
    requires
        constant(s, c),
        repeats_byte(c, b),
    ensures
        byte_hits(s, k) == if k == b {
            8 * s.len()
        } else {
            0
        },
    decreases s.len(),
{
    if s.len() > 0 {
        let rest = s.drop_last();
        assert(constant(rest, c)) by {
            assert forall|i: int| 0 <= i < rest.len() implies #[trigger] rest[i] == c by {
                assert(rest[i] == s[i]);
            }
        }
        lemma_constant_byte_hits(rest, c, b, k);
        assert(s.last() == s[s.len() - 1]);
        assert(byte_of(c, 0) == b && byte_of(c, 1) == b && byte_of(c, 2) == b && byte_of(c, 3) == b
            && byte_of(c, 4) == b && byte_of(c, 5) == b && byte_of(c, 6) == b && byte_of(c, 7)
            == b);
    }
}

/// No sample is more dispersed over the byte values than that of a constant
/// output of one repeated byte: the deviation sum of the byte histogram is
/// at most that of a histogram with all bytes of the sample in one slot. The
/// sample holds some byte value as soon as it has a value. For samples of
/// less than 8192 values the dispersion score is the deviation sum itself,
/// so the same holds of the score; longer samples may wrap it around.
pub proof fn law_byte_dispersion_is_bounded(values: Seq<u64>)
    ensures
        deviation_sum(byte_histogram(sample(values)), byte_expectation(values)) <= spike_deviation(
            256,
            8 * sample(values).len() as int,
            byte_expectation(values),
        ),
        sample(values).len() > 0 ==> filled(byte_histogram(sample(values))) >= 1,
        sample(values).len() < 8192 ==> dispersion(
            byte_histogram(sample(values)),
            byte_expectation(values),
        ) == deviation_sum(byte_histogram(sample(values)), byte_expectation(values)),
{
    lemma_sample_prefix(values);
    let s = sample(values);
    let hist = byte_histogram(s);
    let e = byte_expectation(values);
    let n = 8 * s.len() as int;
    lemma_byte_total(s);
    lemma_deviation_sum_bound(hist, e);
    lemma_deviation_sum_nonnegative(hist, e);
    if n > 0 {
        lemma_filled_positive(hist);
    }
    if n < 65536 {
        assert(spike_deviation(256, n, e) < 0x1_0000_0000) by (nonlinear_arith)
            requires
                0 <= n < 65536,
                0 <= e,
                256 * e <= n,
                spike_deviation(256, n, e) == (n - e) * (n - e) + 255 * (e * e),
        ;
        vstd::arithmetic::div_mod::lemma_small_mod(
            deviation_sum(hist, e) as nat,
            0x1_0000_0000nat,
        );
    }
}

/// The two reports hold the same statistics; the times may differ.
pub open spec fn same_statistics(a: Report, b: Report) -> bool {
    &&& a.byte_dist == b.byte_dist
    &&& a.byte_filled == b.byte_filled
    &&& a.bit_fair == b.bit_fair
    &&& a.buckets_max_collisions == b.buckets_max_collisions
    &&& a.buckets_filled == b.buckets_filled
    &&& a.buckets_dist == b.buckets_dist
    &&& a.average == b.average
    &&& a.and_zero == b.and_zero
}

/// A sequence can be analysed again and again: all reports of sequences
/// with the same sample hold the same statistics, so nothing beyond the
/// sample is read and no analysis shows in the next.
pub proof fn law_reports_of_one_sample_agree(a: Report, b: Report, first: Seq<u64>, second: Seq<u64>)
    requires
        a.describes(first),
        b.describes(second),
        sample(first) == sample(second),
    ensures
        same_statistics(a, b),
        a.describes(second),
{
    let hist = bucket_histogram(sample(first));
    let i = choose|i: int| 0 <= i < hist.len() && hist[i] == a.buckets_max_collisions as int;
    let j = choose|j: int| 0 <= j < hist.len() && hist[j] == b.buckets_max_collisions as int;
    assert(hist[i] <= b.buckets_max_collisions);
    assert(hist[j] <= a.buckets_max_collisions);
}

} // verus!
