//! Statistical quality measures for 64-bit hash functions and number
//! generators.

use vstd::prelude::*;
use std::hash::BuildHasher;

pub mod analysis;
pub mod clock;
pub mod hashing;
pub mod histogram;
pub mod inspect;
pub mod laws;
pub mod render;
pub mod rng;
pub mod sample;
pub mod stream;

verus! {

/// The inspections of several hash functions, each under a name, in the
/// order in which they were added.
pub struct Suit {
    hashes: Vec<(&'static str, inspect::Test)>,
}

impl Suit {
    /// The names and outcomes, in the order in which they were added.
    pub closed spec fn entries(&self) -> Seq<(&'static str, inspect::Test)> {
        self.hashes@
    }

    /// A suit without inspections.
    pub fn new() -> (suit: Suit)
        ensures
            suit.entries().len() == 0,
    {
        Suit { hashes: Vec::new() }
    }

    /// Inspects the hash function of `build` on the words `dict` and the
    /// prime numbers `primes`, and adds the outcome under `name`.
    pub fn add<B: BuildHasher>(
        &mut self,
        name: &'static str,
        build: &B,
        dict: &[String],
        primes: &[u64],
    ) where B::Hasher: Clone
        ensures
            final(self).entries().len() == old(self).entries().len() + 1,
            final(self).entries().drop_last() == old(self).entries(),
            final(self).entries().last().0 == name,
            final(self).entries().last().1.covers(dict@.len(), primes@.len()),
    {
        let outcome = inspect::Test::test(build, dict, primes);
        self.hashes.push((name, outcome));
        assert(self.hashes@.drop_last() =~= old(self).hashes@);
    }

    /// The number of inspections.
    pub fn len(&self) -> (n: usize)
        ensures
            n == self.entries().len(),
    {
        self.hashes.len()
    }

    /// The name of inspection `i`.
    pub fn name(&self, i: usize) -> (name: &'static str)
        requires
            i < self.entries().len(),
        ensures
            name == self.entries()[i as int].0,
    {
        self.hashes[i].0
    }

    /// The outcome of inspection `i`.
    pub fn outcome(&self, i: usize) -> (outcome: &inspect::Test)
        requires
            i < self.entries().len(),
        ensures
            *outcome == self.entries()[i as int].1,
    {
        &self.hashes[i].1
    }
}

} // verus!
