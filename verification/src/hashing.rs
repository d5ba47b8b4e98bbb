//! Calls into the hash function under test. A hash function is whatever the
//! caller hands in, so nothing is claimed of its digests: the measures are
//! there to find out. A hash function that panics or does not return takes
//! the caller with it.

use vstd::prelude::*;
use std::hash::{BuildHasher, Hash, Hasher};

verus! {

/// Calls `std::hash::BuildHasher::build_hasher`. Nothing is claimed of the
/// hasher that comes back.
#[verifier::external_body]
pub(crate) fn build_hasher<B: BuildHasher>(builder: &B) -> (hasher: B::Hasher) {
    builder.build_hasher()
}

/// Calls `std::hash::Hash::hash`, which feeds `item` into `hasher`. Nothing
/// is claimed of the state of the hasher afterwards.
#[verifier::external_body]
pub(crate) fn feed<H: Hasher, T: Hash>(hasher: &mut H, item: &T) {
    item.hash(hasher)
}

/// Calls `std::hash::Hasher::write`, which feeds `bytes` into `hasher`.
/// Nothing is claimed of the state of the hasher afterwards.
#[verifier::external_body]
pub(crate) fn write_bytes<H: Hasher>(hasher: &mut H, bytes: &[u8]) {
    hasher.write(bytes)
}

/// Calls `std::hash::Hasher::write_u8`, which feeds one byte into `hasher`.
/// Nothing is claimed of the state of the hasher afterwards.
#[verifier::external_body]
pub(crate) fn write_u8<H: Hasher>(hasher: &mut H, byte: u8) {
    hasher.write_u8(byte)
}

/// Calls `std::hash::Hasher::write_u64`, which feeds one value into
/// `hasher`. Nothing is claimed of the state of the hasher afterwards.
#[verifier::external_body]
pub(crate) fn write_u64<H: Hasher>(hasher: &mut H, value: u64) {
    hasher.write_u64(value)
}

/// Calls `std::hash::Hasher::finish`. Nothing is claimed of the digest that
/// comes back.
#[verifier::external_body]
pub(crate) fn finish<H: Hasher>(hasher: &H) -> (digest: u64) {
    hasher.finish()
}

/// Hashes every item on its own, each through a fresh duplicate of `hasher`.
/// The digests come back in the order of the items.
pub fn hash_each<H: Hasher + Clone, T: Hash>(hasher: &H, items: &[T]) -> (digests: Vec<u64>)
    ensures
        digests@.len() == items@.len(),
{
    let mut digests: Vec<u64> = Vec::new();
    let mut i: usize = 0;
    while i < items.len()
        invariant
            i <= items@.len(),
            digests@.len() == i,
        decreases items@.len() - i,
    {
        let mut fresh = hasher.clone();
        feed(&mut fresh, &items[i]);
        digests.push(finish(&fresh));
        i += 1;
    }
    digests
}

} // verus!
