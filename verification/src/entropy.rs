//! Random bytes, by `getrandom`.

use vstd::prelude::*;

verus! {

/// `getrandom::fill`: `n` bytes from the system's random source; nothing where it has none to give.
/// Which bytes they are is left to chance.
#[verifier::external_body]
pub(crate) fn random_bytes(n: usize) -> (r: Option<Vec<u8>>)
    ensures
        r matches Some(b) ==> b@.len() == n,
{
    let mut b = vec![0u8; n];
    match getrandom::fill(&mut b) {
        Ok(()) => Some(b),
        Err(_) => None,
    }
}

} // verus!
