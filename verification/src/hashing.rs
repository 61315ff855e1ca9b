//! Hashes, taken from the hasher of a filter.
use crate::data_block::Fingerprint;
use std::hash::{BuildHasher, Hash, RandomState};
use vstd::prelude::*;

verus! {

/// Calls [`BuildHasher::hash_one`]. The hasher and the hash of the key are the user's own: nothing
/// is said of which number comes back, nor that it is the same every time.
#[verifier::external_body]
pub(crate) fn hash_one<H: BuildHasher, K: Hash + ?Sized>(hasher: &H, key: &K) -> u64 {
    hasher.hash_one(key)
}

/// Calls [`RandomState::new`]. Nothing is said of the hasher that comes back.
#[verifier::external_body]
pub(crate) fn new_random_state() -> RandomState {
    RandomState::new()
}

/// Whether `hash` is a number that the hasher can give for the key.
pub closed spec fn hashes_to<H: BuildHasher, K: Hash + ?Sized>(
    hasher: H,
    key: &K,
    hash: u64,
) -> bool {
    call_ensures(hash_one::<H, K>, (&hasher, key), hash)
}

/// Whether the hasher always gives the same number for the same key.
pub open spec fn hashes_consistently<H: BuildHasher, K: Hash + ?Sized>(hasher: H, key: &K) -> bool {
    forall|a: u64, b: u64| hashes_to(hasher, key, a) && hashes_to(hasher, key, b) ==> a == b
}

/// The hashes of fingerprints: whether a hasher can give a number for a fingerprint.
pub open(crate) spec fn fingerprint_hashes<H: BuildHasher>(hasher: H) -> spec_fn(u32, u64) -> bool {
    |fingerprint: u32, hash: u64| hashes_to(hasher, &Fingerprint { data: fingerprint }, hash)
}

/// Hashes a key.
pub(crate) fn hash_of<H: BuildHasher, K: Hash + ?Sized>(hasher: &H, key: &K) -> (hash: u64)
    ensures
        hashes_to(*hasher, key, hash),
{
    hash_one::<H, K>(hasher, key)
}

/// A number can be the hash of a key exactly if the hasher can give it for the key.
pub(crate) proof fn law_hash_is_from_the_hasher<H: BuildHasher, K: Hash + ?Sized>(
    hasher: H,
    key: &K,
    hash: u64,
)
    ensures
        hashes_to(hasher, key, hash) <==> call_ensures(hash_one::<H, K>, (&hasher, key), hash),
{
}

} // verus!
