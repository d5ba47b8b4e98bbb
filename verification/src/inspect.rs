//! The inspection of one hash function: the pipeline on six corpora, the
//! quality of repeated hashing, two properties, and a timed workload.

use vstd::prelude::*;
use std::hash::{BuildHasher, Hasher};
use crate::analysis::Report;
use crate::clock::{Elapsed, Stopwatch};
use crate::hashing::{build_hasher, finish, write_bytes, write_u64, write_u8};
use crate::rng::{BadRand, RandIter};
use crate::sample::SAMPLE_CAP;
use crate::stream::Transforms;

verus! {

/// How many values are taken of a corpus that never ends: enough for the
/// decimated sequence to fill a sample.
pub const CORPUS_LEN: usize = 1_999_999;

/// How many 64-bit values the timed workload feeds to a hasher: 10^9 bytes.
pub const WORKLOAD_WRITES: u64 = 125_000_000;

/// The sequence that comes of hashing again and again: each value is the
/// digest of the value before it, the first one that of zero.
pub struct Rehasher<H> {
    hasher: H,
    state: u64,
}

impl<H> Rehasher<H> {
    /// The value that was given out last; zero at the start.
    pub closed spec fn state(&self) -> u64 {
        self.state
    }
}

impl<H: Hasher + Clone> Rehasher<H> {
    /// The sequence of `hasher`, at its start.
    pub fn new(hasher: H) -> (source: Self)
        ensures
            source.state() == 0,
    {
        Rehasher { hasher, state: 0 }
    }

    /// Hashes the last value through a fresh duplicate of the hasher, and
    /// gives the digest out. The sequence never ends.
    pub fn next(&mut self) -> (value: Option<u64>)
        ensures
            value == Some(final(self).state()),
    {
        let mut fresh = self.hasher.clone();
        write_u64(&mut fresh, self.state);
        self.state = finish(&fresh);
        Some(self.state)
    }

    /// Gives out the next `count` values.
    pub fn take(&mut self, count: usize) -> (values: Vec<u64>)
        ensures
            values@.len() == count,
            count > 0 ==> values@.last() == final(self).state(),
            count == 0 ==> final(self).state() == old(self).state(),
    {
        let mut values: Vec<u64> = Vec::new();
        while values.len() < count
            invariant
                values@.len() <= count,
                values@.len() > 0 ==> values@.last() == self.state(),
                values@.len() == 0 ==> self.state() == old(self).state(),
            decreases count - values@.len(),
        {
            match self.next() {
                Some(value) => {
                    values.push(value);
                },
                None => {},
            }
        }
        values
    }
}

/// The integers from zero up, `count` of them.
pub fn count_up(count: usize) -> (numbers: Vec<i32>)
    requires
        count <= i32::MAX,
    ensures
        numbers@.len() == count,
        forall|i: int| 0 <= i < count ==> numbers@[i] == i,
{
    let mut numbers: Vec<i32> = Vec::new();
    let mut next: i32 = 0;
    while numbers.len() < count
        invariant
            numbers@.len() <= count <= i32::MAX,
            next == numbers@.len(),
            forall|i: int| 0 <= i < numbers@.len() ==> numbers@[i] == i,
        decreases count - numbers@.len(),
    {
        numbers.push(next);
        next = next + 1;
    }
    numbers
}

/// The digest of `bytes`, fed one by one to a fresh duplicate of `hasher`.
fn digest_of_bytes<H: Hasher + Clone>(hasher: &H, bytes: &[u8]) -> (digest: u64) {
    let mut fresh = hasher.clone();
    let mut i: usize = 0;
    while i < bytes.len()
        invariant
            i <= bytes@.len(),
        decreases bytes@.len() - i,
    {
        write_u8(&mut fresh, bytes[i]);
        i += 1;
    }
    finish(&fresh)
}

/// Decides from five digests whether a hash function is sensitive to zero
/// bytes: a zero byte after a byte changes the digest, and so does a second
/// one, and the digest of a zero byte alone is not zero. The digest of the
/// byte with one zero is taken twice.
pub fn zero_sensitive(
    byte: u64,
    byte_zero: u64,
    byte_zero_again: u64,
    byte_zero_zero: u64,
    zero: u64,
) -> (sensitive: bool)
    ensures
        sensitive == (byte != byte_zero && byte_zero_again != byte_zero_zero && zero != 0),
{
    byte != byte_zero && byte_zero_again != byte_zero_zero && zero != 0
}

/// Decides whether digests of one input agree: all are the same.
pub fn deterministic(digests: &[u64]) -> (same: bool)
    ensures
        same == (forall|i: int, j: int|
            0 <= i < digests@.len() && 0 <= j < digests@.len() ==> digests@[i] == digests@[j]),
{
    let mut i: usize = 1;
    while i < digests.len()
        invariant
            1 <= i,
            forall|k: int|
                0 <= k < i && k < digests@.len() ==> #[trigger] digests@[k] == digests@[0],
        decreases digests@.len() - i,
    {
        if digests[i] != digests[0] {
            return false;
        }
        i += 1;
    }
    true
}

/// Calls `std::hint::black_box`, which hands its argument back and keeps the
/// compiler from removing the work that led to it.
#[verifier::external_body]
fn black_box(value: u64) -> (same: u64)
    ensures
        same == value,
{
    std::hint::black_box(value)
}

/// Feeds the integers below `WORKLOAD_WRITES` to `hasher`, and returns the
/// digest.
fn run_workload<H: Hasher>(hasher: H) -> (digest: u64) {
    let mut hasher = hasher;
    let mut i: u64 = 0;
    while i < WORKLOAD_WRITES
        invariant
            i <= WORKLOAD_WRITES,
        decreases WORKLOAD_WRITES - i,
    {
        write_u64(&mut hasher, i);
        i += 1;
    }
    black_box(finish(&hasher))
}

/// Takes the five digests that `zero_sensitive` decides on, each from a
/// fresh duplicate of `hasher`.
fn probe_zero_sensitivity<H: Hasher + Clone>(hasher: &H) -> (sensitive: bool) {
    let byte: [u8; 1] = [0x05];
    let byte_zero: [u8; 2] = [0x05, 0];
    let byte_zero_zero: [u8; 3] = [0x05, 0, 0];
    let zero: [u8; 1] = [0];
    zero_sensitive(
        digest_of_bytes(hasher, byte.as_slice()),
        digest_of_bytes(hasher, byte_zero.as_slice()),
        digest_of_bytes(hasher, byte_zero.as_slice()),
        digest_of_bytes(hasher, byte_zero_zero.as_slice()),
        digest_of_bytes(hasher, zero.as_slice()),
    )
}

/// Hashes one text through a hasher of `builder` and through four
/// duplicates, each the duplicate of the one before, and compares the
/// digests.
fn probe_determinism<B: BuildHasher>(builder: &B) -> (same: bool)
    where B::Hasher: Clone
{
    let hello: [u8; 13] = [
        0x68,
        0x65,
        0x6c,
        0x6c,
        0x6f,
        0x20,
        0x75,
        0x6e,
        0x69,
        0x63,
        0x6f,
        0x72,
        0x6e,
    ];
    let mut h0 = build_hasher(builder);
    let mut h1 = h0.clone();
    let mut h2 = h1.clone();
    let mut h3 = h2.clone();
    let mut h4 = h3.clone();
    write_bytes(&mut h0, hello.as_slice());
    write_bytes(&mut h1, hello.as_slice());
    write_bytes(&mut h2, hello.as_slice());
    write_bytes(&mut h3, hello.as_slice());
    write_bytes(&mut h4, hello.as_slice());
    let digests: [u64; 5] = [finish(&h0), finish(&h1), finish(&h2), finish(&h3), finish(&h4)];
    deterministic(digests.as_slice())
}

/// Times the workload on a new hasher of `builder`. The time is what the
/// stopwatch shows when the digest is there.
fn time_workload<B: BuildHasher>(builder: &B) -> (time: Elapsed)
    ensures
        time.nanos < 1_000_000_000,
{
    let watch = Stopwatch::start();
    let _ = run_workload(build_hasher(builder));
    watch.elapsed()
}

/// The outcome of the inspection of one hash function.
#[derive(Clone, Copy, Debug)]
pub struct Test {
    /// The pipeline on the words of a dictionary.
    pub dict: Transforms,
    /// The pipeline on random numbers.
    pub rand: Transforms,
    /// The pipeline on random characters.
    pub ascii: Transforms,
    /// The pipeline on the numbers of a poor generator.
    pub bad_rand: Transforms,
    /// The pipeline on the integers from zero up.
    pub num: Transforms,
    /// The pipeline on prime numbers.
    pub primes: Transforms,
    /// The analysis of the sequence of repeated hashing.
    pub rehash: Report,
    /// Whether zero bytes change the digest.
    pub zero_sensitive: bool,
    /// Whether the same input gave the same digest every time.
    pub deterministic: bool,
    /// The time that `WORKLOAD_WRITES` writes and one digest took.
    pub workload_time: Elapsed,
    /// The time that the whole inspection took.
    pub total_time: Elapsed,
    /// The score; no scoring rule is defined, and it is always zero.
    pub points: u64,
}

impl Test {
    /// What holds of an outcome whatever the hash function did: every
    /// pipeline ran on as many digests as its corpus has items, the random
    /// corpora being cut at `CORPUS_LEN` items, and the sequence of repeated
    /// hashing had `SAMPLE_CAP` values.
    pub open spec fn covers(&self, dict_len: nat, primes_len: nat) -> bool {
        &&& self.dict.derived_from(dict_len)
        &&& exists|n: nat| n <= CORPUS_LEN && #[trigger] self.rand.derived_from(n)
        &&& exists|n: nat| n <= CORPUS_LEN && #[trigger] self.ascii.derived_from(n)
        &&& self.bad_rand.derived_from(CORPUS_LEN as nat)
        &&& self.num.derived_from(CORPUS_LEN as nat)
        &&& self.primes.derived_from(primes_len)
        &&& exists|values: Seq<u64>|
            values.len() == SAMPLE_CAP && #[trigger] self.rehash.describes(values)
        &&& self.points == 0
    }

    /// Inspects the hash function of `builder` on the words `dict`, on the
    /// prime numbers `primes`, and on corpora that are made here.
    pub fn test<B: BuildHasher>(builder: &B, dict: &[String], primes: &[u64]) -> (outcome: Test)
        where B::Hasher: Clone
        ensures
            outcome.covers(dict@.len(), primes@.len()),
    {
        let watch = Stopwatch::start();
        let h = build_hasher(builder);

        let random_numbers = RandIter::<u64>::new().take(CORPUS_LEN);
        let random_chars = RandIter::<char>::new().take(CORPUS_LEN);
        let poor_numbers = BadRand::new().take(CORPUS_LEN);
        let integers = count_up(CORPUS_LEN);
        let chain = Rehasher::new(h.clone()).take(SAMPLE_CAP);

        let dict_reports = Transforms::new(builder, dict);
        let rand_reports = Transforms::new(builder, random_numbers.as_slice());
        let ascii_reports = Transforms::new(builder, random_chars.as_slice());
        let bad_rand_reports = Transforms::new(builder, poor_numbers.as_slice());
        let num_reports = Transforms::new(builder, integers.as_slice());
        let primes_reports = Transforms::new(builder, primes);
        let rehash = Report::new(chain.as_slice());

        let sensitive = probe_zero_sensitivity(&h);
        let same = probe_determinism(builder);
        let workload_time = time_workload(builder);

        let outcome = Test {
            dict: dict_reports,
            rand: rand_reports,
            ascii: ascii_reports,
            bad_rand: bad_rand_reports,
            num: num_reports,
            primes: primes_reports,
            rehash,
            zero_sensitive: sensitive,
            deterministic: same,
            workload_time,
            total_time: watch.elapsed(),
            points: 0,
        };
        assert(outcome.rand.derived_from(random_numbers@.len()));
        assert(outcome.ascii.derived_from(random_chars@.len()));
        assert(outcome.rehash.describes(chain@));
        outcome
    }
}

} // verus!
