//! The single source of fresh randomness: salts, nonces and key seeds all
//! come from here. Nothing is promised about the values, only the length,
//! so everything proved about the callers holds for every possible outcome.

use vstd::prelude::*;

verus! {

/// Relies on rand's `OsRng::fill_bytes`: fills the buffer from the operating
/// system's secure random source. Only the length of the result is promised.
#[verifier::external_body]
pub(crate) fn random_bytes(n: usize) -> (r: Vec<u8>)
    ensures
        r@.len() == n,
{
    let mut buf = vec![0u8; n];
    rand::RngCore::fill_bytes(&mut rand::rngs::OsRng, &mut buf);
    buf
}

} // verus!
