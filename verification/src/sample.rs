//! The mathematical model of a sample: the bounded prefix of a value
//! sequence that every measure looks at, and the quantities that the
//! measures are defined over.

use vstd::prelude::*;

verus! {

/// No measure reads more than this many values of a sequence.
pub const SAMPLE_CAP: usize = 1_000_000;

/// The part of a value sequence that is analysed: all of it when it is no
/// longer than the cap, its first `SAMPLE_CAP` values otherwise.
pub open spec fn sample(values: Seq<u64>) -> Seq<u64> {
    if values.len() <= SAMPLE_CAP {
        values
    } else {
        values.take(SAMPLE_CAP as int)
    }
}

/// Byte `k` of `v`, counted from the least significant one.
pub open spec fn byte_of(v: u64, k: u64) -> u64 {
    (v >> (8 * k) as u64) & 0xff
}

/// 1 when the two numbers agree, 0 otherwise.
pub open spec fn hit(found: int, wanted: int) -> nat {
    if found == wanted {
        1
    } else {
        0
    }
}

/// How many of the eight bytes of `v` have the value `b`.
pub open spec fn byte_hits_in(v: u64, b: int) -> nat {
    hit(byte_of(v, 0) as int, b) + hit(byte_of(v, 1) as int, b) + hit(byte_of(v, 2) as int, b)
        + hit(byte_of(v, 3) as int, b) + hit(byte_of(v, 4) as int, b) + hit(
        byte_of(v, 5) as int,
        b,
    ) + hit(byte_of(v, 6) as int, b) + hit(byte_of(v, 7) as int, b)
}

/// How many bytes of the values of `s`, all eight positions counted, have
/// the value `b`.
pub open spec fn byte_hits(s: Seq<u64>, b: int) -> nat
    decreases s.len(),
{
    if s.len() == 0 {
        0
    } else {
        byte_hits(s.drop_last(), b) + byte_hits_in(s.last(), b)
    }
}

/// The bucket that `v` falls into.
pub open spec fn bucket_of(v: u64) -> int {
    v as int % 4096
}

/// How many values of `s` fall into bucket `slot`.
pub open spec fn bucket_hits(s: Seq<u64>, slot: int) -> nat
    decreases s.len(),
{
    if s.len() == 0 {
        0
    } else {
        bucket_hits(s.drop_last(), slot) + hit(bucket_of(s.last()), slot)
    }
}

/// The number of set bits of `v`.
pub open spec fn popcount(v: u64) -> nat
    decreases v,
{
    if v == 0 {
        0
    } else {
        (v % 2) as nat + popcount(v / 2)
    }
}

/// The squared distance of the population count of `v` from 32, the mean
/// for unbiased 64-bit values.
pub open spec fn bit_deviation(v: u64) -> nat {
    ((popcount(v) - 32) * (popcount(v) - 32)) as nat
}

/// The sum of `bit_deviation` over the values of `s`.
pub open spec fn bit_deviation_sum(s: Seq<u64>) -> nat
    decreases s.len(),
{
    if s.len() == 0 {
        0
    } else {
        bit_deviation_sum(s.drop_last()) + bit_deviation(s.last())
    }
}

/// The bitwise AND of all values of `s`; all ones for the empty sequence.
pub open spec fn and_all(s: Seq<u64>) -> u64
    decreases s.len(),
{
    if s.len() == 0 {
        u64::MAX
    } else {
        and_all(s.drop_last()) & s.last()
    }
}

/// The length of the shortest non-empty prefix of `s` whose AND is zero, or
/// the length of `s` where no prefix has that.
pub open spec fn and_rounds(s: Seq<u64>) -> nat
    decreases s.len(),
{
    if s.len() == 0 {
        0
    } else if and_all(s.drop_last()) == 0 {
        and_rounds(s.drop_last())
    } else {
        s.len()
    }
}

/// The sum of the values of `s`.
pub open spec fn value_sum(s: Seq<u64>) -> nat
    decreases s.len(),
{
    if s.len() == 0 {
        0
    } else {
        value_sum(s.drop_last()) + s.last() as nat
    }
}

/// A sample is never longer than the cap, and is a prefix of the sequence.
pub proof fn lemma_sample_prefix(values: Seq<u64>)
    ensures
        sample(values).len() == if values.len() <= SAMPLE_CAP {
            values.len()
        } else {
            SAMPLE_CAP as nat
        },
        sample(values) == values.take(sample(values).len() as int),
        sample(sample(values)) == sample(values),
{
    if values.len() <= SAMPLE_CAP {
        assert(values.take(values.len() as int) =~= values);
    }
}

/// Every byte of a value is a byte: below 256.
pub proof fn lemma_byte_of_bound(v: u64, k: u64)
    requires
        k < 8,
    ensures
        byte_of(v, k) < 256,
{
    let shifted: u64 = v >> ((8 * k) as u64);
    assert(shifted & 0xff < 256) by (bit_vector);
}

/// The byte counts of a sequence are bounded by eight times its length.
pub proof fn lemma_byte_hits_bound(s: Seq<u64>, b: int)
    ensures
        byte_hits(s, b) <= 8 * s.len(),
    decreases s.len(),
{
    if s.len() > 0 {
        lemma_byte_hits_bound(s.drop_last(), b);
    }
}

/// The bucket counts of a sequence are bounded by its length.
pub proof fn lemma_bucket_hits_bound(s: Seq<u64>, slot: int)
    ensures
        bucket_hits(s, slot) <= s.len(),
    decreases s.len(),
{
    if s.len() > 0 {
        lemma_bucket_hits_bound(s.drop_last(), slot);
    }
}

/// A population count is at most 64, so a deviation is at most 1024.
pub proof fn lemma_popcount_bound(v: u64)
    ensures
        popcount(v) <= 64,
        bit_deviation(v) <= 1024,
{
    vstd::arithmetic::power2::lemma2_to64();
    lemma_popcount_below(v, 64);
    let p = popcount(v) as int;
    assert(0 <= (p - 32) * (p - 32) <= 1024) by (nonlinear_arith)
        requires
            0 <= p <= 64,
    ;
}

/// A value below `2^bits` has at most `bits` set bits.
proof fn lemma_popcount_below(v: u64, bits: nat)
    requires
        bits <= 64,
        (v as int) < vstd::arithmetic::power2::pow2(bits),
    ensures
        popcount(v) <= bits,
    decreases bits,
{
    vstd::arithmetic::power2::lemma2_to64();
    if bits == 0 {
        assert(v == 0);
    } else if v != 0 {
        vstd::arithmetic::power2::lemma_pow2_unfold(bits);
        lemma_popcount_below(v / 2, (bits - 1) as nat);
    }
}

/// The sum of a sequence is bounded by its length times the largest value.
pub proof fn lemma_value_sum_bound(s: Seq<u64>)
    ensures
        value_sum(s) <= s.len() * u64::MAX,
    decreases s.len(),
{
    if s.len() > 0 {
        lemma_value_sum_bound(s.drop_last());
        assert((s.len() - 1) * u64::MAX + u64::MAX == s.len() * u64::MAX) by (nonlinear_arith);
    }
}

/// Taking one more value of `s` appends that value to the prefix.
pub proof fn lemma_take_next(s: Seq<u64>, i: int)
    requires
        0 <= i < s.len(),
    ensures
        s.take(i + 1).drop_last() == s.take(i),
        s.take(i + 1).last() == s[i],
        s.take(i + 1).len() == i + 1,
{
    assert(s.take(i + 1).drop_last() =~= s.take(i));
}

} // verus!
