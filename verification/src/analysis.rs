//! The analysis engine: reduces a value sequence to a report of statistics.
//! Every measure reads the same bounded prefix of the sequence, its sample.

use vstd::prelude::*;
use crate::clock::{Elapsed, Stopwatch};
use crate::histogram::{dispersion, dispersion_of, filled, filled_of, is_largest, largest_of};
use crate::sample::{
    and_all, and_rounds, bit_deviation_sum, bucket_hits, byte_hits, byte_of, hit,
    lemma_bucket_hits_bound, lemma_byte_hits_bound, lemma_byte_of_bound, lemma_popcount_bound,
    lemma_sample_prefix, lemma_take_next, lemma_value_sum_bound, popcount, sample, value_sum,
    SAMPLE_CAP,
};

verus! {

/// The byte histogram of a sample: slot `b` counts the bytes with value `b`.
pub open spec fn byte_histogram(s: Seq<u64>) -> Seq<u32> {
    Seq::new(256, |b: int| byte_hits(s, b) as u32)
}

/// The bucket histogram of a sample: slot `k` counts the values that are
/// `k` modulo 4096.
pub open spec fn bucket_histogram(s: Seq<u64>) -> Seq<u32> {
    Seq::new(4096, |k: int| bucket_hits(s, k) as u32)
}

/// The number of values of the sample of `values`, as the machine holds it.
fn sample_len(values: &[u64]) -> (n: usize)
    ensures
        n == sample(values@).len(),
        n <= SAMPLE_CAP,
        n <= values@.len(),
        sample(values@) == values@.take(n as int),
{
    proof {
        lemma_sample_prefix(values@);
    }
    if values.len() > SAMPLE_CAP {
        SAMPLE_CAP
    } else {
        values.len()
    }
}

/// Calls `u64::count_ones`, which returns the number of ones in the binary
/// representation of its argument: what `popcount` counts, bit by bit.
#[verifier::external_body]
fn count_ones(v: u64) -> (ones: u32)
    ensures
        ones == popcount(v),
{
    v.count_ones()
}

/// Counts byte `k` of `v` in the histogram.
fn tally_byte(hist: &mut [u32; 256], v: u64, k: u64)
    requires
        k < 8,
        forall|b: int| 0 <= b < 256 ==> old(hist)[b] < u32::MAX,
    ensures
        forall|b: int|
            0 <= b < 256 ==> #[trigger] final(hist)[b] == old(hist)[b] + hit_at(v, k, b),
{
    let byte: u64 = (v >> (8 * k)) & 0xff;
    proof {
        lemma_byte_of_bound(v, k);
    }
    let slot: usize = byte as usize;
    hist[slot] = hist[slot] + 1;
}

/// 1 when byte `k` of `v` is `b`, 0 otherwise.
pub open spec fn hit_at(v: u64, k: u64, b: int) -> nat {
    hit(byte_of(v, k) as int, b)
}

/// Builds the byte histogram of the sample of `values`. Returns the number
/// of bytes that were counted, eight for each value, and the histogram.
pub fn bytes(values: &[u64]) -> (out: (u32, [u32; 256]))
    ensures
        out.0 == 8 * sample(values@).len(),
        out.1@ == byte_histogram(sample(values@)),
{
    let n = sample_len(values);
    let mut hist: [u32; 256] = [0u32; 256];
    let mut rounds: u32 = 0;
    let mut i: usize = 0;
    while i < n
        invariant
            i <= n <= SAMPLE_CAP,
            n <= values@.len(),
            rounds == 8 * i,
            forall|b: int| 0 <= b < 256 ==> #[trigger] hist[b] == byte_hits(values@.take(i as int), b),
        decreases n - i,
    {
        let v: u64 = values[i];
        proof {
            lemma_take_next(values@, i as int);
            assert forall|b: int| 0 <= b < 256 implies #[trigger] hist[b] + 8 <= u32::MAX by {
                lemma_byte_hits_bound(values@.take(i as int), b);
            }
        }
        tally_byte(&mut hist, v, 0);
        tally_byte(&mut hist, v, 1);
        tally_byte(&mut hist, v, 2);
        tally_byte(&mut hist, v, 3);
        tally_byte(&mut hist, v, 4);
        tally_byte(&mut hist, v, 5);
        tally_byte(&mut hist, v, 6);
        tally_byte(&mut hist, v, 7);
        rounds += 8;
        i += 1;
    }
    proof {
        assert forall|b: int| 0 <= b < 256 implies hist@[b] == byte_histogram(
            sample(values@),
        )[b] by {
            lemma_byte_hits_bound(sample(values@), b);
        }
        assert(hist@ =~= byte_histogram(sample(values@)));
    }
    (rounds, hist)
}

/// Builds the bucket histogram of the sample of `values`. Returns the number
/// of values that were counted, and the histogram.
pub fn buckets(values: &[u64]) -> (out: (u32, [u32; 4096]))
    ensures
        out.0 == sample(values@).len(),
        out.1@ == bucket_histogram(sample(values@)),
{
    let n = sample_len(values);
    let mut hist: [u32; 4096] = [0u32; 4096];
    let mut rounds: u32 = 0;
    let mut i: usize = 0;
    while i < n
        invariant
            i <= n <= SAMPLE_CAP,
            n <= values@.len(),
            rounds == i,
            forall|k: int|
                0 <= k < 4096 ==> #[trigger] hist[k] == bucket_hits(values@.take(i as int), k),
        decreases n - i,
    {
        let v: u64 = values[i];
        let slot: usize = (v % 4096) as usize;
        proof {
            lemma_take_next(values@, i as int);
            lemma_bucket_hits_bound(values@.take(i as int), slot as int);
        }
        hist[slot] = hist[slot] + 1;
        rounds += 1;
        i += 1;
    }
    proof {
        assert forall|k: int| 0 <= k < 4096 implies hist@[k] == bucket_histogram(
            sample(values@),
        )[k] by {
            lemma_bucket_hits_bound(sample(values@), k);
        }
        assert(hist@ =~= bucket_histogram(sample(values@)));
    }
    (rounds, hist)
}

/// Tells whether the population counts of the sample of `values` stay close
/// to 32: whether their squared distances from 32 sum to less than 5.
pub fn bit_fair(values: &[u64]) -> (fair: bool)
    ensures
        fair == (bit_deviation_sum(sample(values@)) < 5),
{
    let n = sample_len(values);
    let mut sum: u64 = 0;
    let mut i: usize = 0;
    while i < n
        invariant
            i <= n <= SAMPLE_CAP,
            n <= values@.len(),
            sum == bit_deviation_sum(values@.take(i as int)),
            sum <= 1024 * i,
        decreases n - i,
    {
        let ones: u64 = count_ones(values[i]) as u64;
        proof {
            lemma_take_next(values@, i as int);
            lemma_popcount_bound(values@[i as int]);
        }
        let distance: u64 = if ones >= 32 {
            ones - 32
        } else {
            32 - ones
        };
        proof {
            let p = popcount(values@[i as int]) as int;
            assert(distance * distance == (p - 32) * (p - 32) && (p - 32) * (p - 32) >= 0)
                by (nonlinear_arith)
                requires
                    distance == p - 32 || distance == 32 - p,
            ;
        }
        sum += distance * distance;
        i += 1;
    }
    sum < 5
}

/// Counts the values of the sample of `values` that a running AND takes in
/// until it is zero; all of them where it never is.
pub fn and_zero(values: &[u64]) -> (rounds: u32)
    ensures
        rounds == and_rounds(sample(values@)),
{
    let n = sample_len(values);
    let mut cur: u64 = !0;
    let mut rounds: u32 = 0;
    let mut i: usize = 0;
    assert(cur == u64::MAX) by (bit_vector)
        requires
            cur == !0u64,
    ;
    while i < n
        invariant_except_break
            rounds == i,
            cur == and_all(values@.take(i as int)),
            rounds == and_rounds(values@.take(i as int)),
            cur != 0,
        invariant
            i <= n <= SAMPLE_CAP,
            n <= values@.len(),
        ensures
            rounds == and_rounds(values@.take(n as int)),
        decreases n - i,
    {
        proof {
            lemma_take_next(values@, i as int);
        }
        cur = cur & values[i];
        rounds += 1;
        i += 1;
        if cur == 0 {
            proof {
                assert(values@.take(n as int).take(i as int) =~= values@.take(i as int));
                lemma_and_rounds_settled(values@.take(n as int), i as int);
            }
            break;
        }
    }
    rounds
}

/// The mean of a sample, held exactly: the sum of its values and their
/// number. The mean on the unit interval is `sum / (count * u64::MAX)`.
#[derive(Clone, Copy, Debug)]
pub struct Average {
    pub sum: u128,
    pub count: u32,
}

/// Sums the values of the sample of `values` and counts them.
pub fn average(values: &[u64]) -> (mean: Average)
    ensures
        mean.sum == value_sum(sample(values@)),
        mean.count == sample(values@).len(),
{
    let n = sample_len(values);
    let mut sum: u128 = 0;
    let mut count: u32 = 0;
    let mut i: usize = 0;
    while i < n
        invariant
            i <= n <= SAMPLE_CAP,
            n <= values@.len(),
            count == i,
            sum == value_sum(values@.take(i as int)),
        decreases n - i,
    {
        proof {
            lemma_take_next(values@, i as int);
            lemma_value_sum_bound(values@.take(i as int));
            assert(i * u64::MAX <= SAMPLE_CAP * u64::MAX) by (nonlinear_arith)
                requires
                    i <= SAMPLE_CAP,
            ;
        }
        sum += values[i] as u128;
        count += 1;
        i += 1;
    }
    Average { sum, count }
}

/// The statistics of one value sequence, and the time it took to compute
/// them.
#[derive(Clone, Copy, Debug)]
pub struct Report {
    /// Dispersion score of the byte histogram.
    pub byte_dist: u32,
    /// Number of byte values that occur in the sample, 256 at most.
    pub byte_filled: u32,
    /// Whether the population counts stay close to 32.
    pub bit_fair: bool,
    /// The count of the fullest bucket.
    pub buckets_max_collisions: u32,
    /// Number of buckets that hold a value, 4096 at most.
    pub buckets_filled: u32,
    /// Dispersion score of the bucket histogram.
    pub buckets_dist: u32,
    /// The mean of the sample.
    pub average: Average,
    /// Number of values after which a running AND is zero.
    pub and_zero: u32,
    /// The time that the analysis took.
    pub time: Elapsed,
}

impl Report {
    /// The statistics of this report are those of the sample of `values`.
    /// The elapsed time is a measurement, and nothing is said of it.
    pub open spec fn describes(&self, values: Seq<u64>) -> bool {
        let s = sample(values);
        &&& self.byte_dist == dispersion(byte_histogram(s), (8 * s.len()) as int / 256)
        &&& self.byte_filled == filled(byte_histogram(s))
        &&& self.bit_fair == (bit_deviation_sum(s) < 5)
        &&& is_largest(bucket_histogram(s), self.buckets_max_collisions as int)
        &&& self.buckets_filled == filled(bucket_histogram(s))
        &&& self.buckets_dist == dispersion(bucket_histogram(s), s.len() as int / 4096)
        &&& self.average.sum == value_sum(s)
        &&& self.average.count == s.len()
        &&& self.and_zero == and_rounds(s)
    }

    /// Analyses the first `SAMPLE_CAP` values of `values`.
    pub fn new(values: &[u64]) -> (report: Report)
        ensures
            report.describes(values@),
    {
        let watch = Stopwatch::start();
        let (byte_rounds, byte_hist) = bytes(values);
        let byte_dist = dispersion_of(byte_hist.as_slice(), byte_rounds / 256);
        let byte_filled = filled_of(byte_hist.as_slice());
        let (bucket_rounds, bucket_hist) = buckets(values);
        let buckets_dist = dispersion_of(bucket_hist.as_slice(), bucket_rounds / 4096);
        let buckets_filled = filled_of(bucket_hist.as_slice());
        let buckets_max_collisions = largest_of(bucket_hist.as_slice());
        proof {
            crate::histogram::lemma_filled_bound(byte_hist@);
            crate::histogram::lemma_filled_bound(bucket_hist@);
        }
        Report {
            byte_dist,
            byte_filled: byte_filled as u32,
            bit_fair: bit_fair(values),
            buckets_max_collisions,
            buckets_filled: buckets_filled as u32,
            buckets_dist,
            average: average(values),
            and_zero: and_zero(values),
            time: watch.elapsed(),
        }
    }
}

/// Once a prefix of `s` has an AND of zero, taking more of `s` does not
/// change the count.
pub proof fn lemma_and_rounds_settled(s: Seq<u64>, k: int)
    requires
        0 <= k <= s.len(),
        and_all(s.take(k)) == 0,
    ensures
        and_rounds(s) == and_rounds(s.take(k)),
    decreases s.len() - k,
{
    if k < s.len() {
        lemma_take_next(s, k);
        let next = s.take(k + 1);
        assert(and_all(next) == 0) by {
            let last = s[k];
            assert(0u64 & last == 0) by (bit_vector);
        }
        assert(and_rounds(next) == and_rounds(s.take(k)));
        lemma_and_rounds_settled(s, k + 1);
    } else {
        assert(s.take(k) =~= s);
    }
}

} // verus!
