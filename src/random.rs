//! Sources of random bytes.
use rand_core::{OsRng, RngCore};
use vstd::prelude::*;

verus! {

/// A source of uniformly distributed random bytes, borrowed for one operation.
pub trait RandomSource {
    /// Draws `count` random bytes, or `None` where the source fails.
    fn random_bytes(&mut self, count: usize) -> (r: Option<Vec<u8>>)
        ensures
            r.is_some() ==> r.unwrap()@.len() == count,
    ;
}

#[verifier::external_type_specification]
#[verifier::external_body]
pub struct ExRandError(rand_core::Error);

/// Relies on `OsRng::try_fill_bytes`: on success every byte of the buffer was written.
#[verifier::external_body]
fn os_fill(count: usize) -> (r: Result<Vec<u8>, rand_core::Error>)
    ensures
        r.is_ok() ==> r.unwrap()@.len() == count,
{
    let mut buf = vec![0u8; count];
    match OsRng.try_fill_bytes(&mut buf) {
        Ok(()) => Ok(buf),
        Err(e) => Err(e),
    }
}

/// The operating system's randomness source.
pub struct SystemRandom;

impl RandomSource for SystemRandom {
    fn random_bytes(&mut self, count: usize) -> (r: Option<Vec<u8>>) {
        match os_fill(count) {
            Ok(v) => Some(v),
            Err(_) => None,
        }
    }
}

} // verus!
