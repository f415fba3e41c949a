use vstd::prelude::*;

verus! {

/// Relies on rand's `rng()` and `RngExt::random_range` over `0..len`:
/// the sampled value lies in the given range. The draw is random, so
/// nothing more is promised of it.
#[verifier::external_body]
pub fn random_index(len: usize) -> (r: usize)
    requires
        0 < len,
    ensures
        r < len,
{
    rand::RngExt::random_range(&mut rand::rng(), 0..len)
}

/// Relies on rand's `RngExt::fill`: the buffer is filled in place, so the
/// returned vector has exactly the requested length. The contents are
/// random, so nothing is promised of them.
#[verifier::external_body]
pub fn random_bytes(len: usize) -> (r: Vec<u8>)
    ensures
        r@.len() == len,
{
    let mut buf = vec![0u8; len];
    rand::RngExt::fill(&mut rand::rng(), buf.as_mut_slice());
    buf
}

} // verus!
