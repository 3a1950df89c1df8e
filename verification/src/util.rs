use vstd::prelude::*;

verus! {

/// The FNV digest of `i` hashed with key `seed`: a fixed function of the
/// two arguments alone. The digest folds over the native-endian bytes of
/// `i`, so the named function is fixed per platform, not across
/// architectures.
pub uninterp spec fn fnv_mix(seed: u64, i: usize) -> u64;

/// A cheap deterministic mixing function for seeds. Relies on fnv's
/// `FnvHasher` (`with_key`, `write_usize`, `finish`): the digest depends
/// only on the key and the bytes written.
#[verifier::external_body]
pub fn rand(seed: u64, i: usize) -> (r: u64)
    ensures
        r == fnv_mix(seed, i),
{
    let mut h = fnv::FnvHasher::with_key(seed);
    core::hash::Hasher::write_usize(&mut h, i);
    core::hash::Hasher::finish(&h)
}

} // verus!
