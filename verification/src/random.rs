use rand_core::{OsRng, RngCore};
use vstd::prelude::*;

verus! {

/// Calls `rand_core::OsRng::try_fill_bytes` on a buffer of `n` bytes;
/// `None` where the operating system gives no random bytes. Trusted: the
/// buffer keeps its length. Nothing is said of the bytes: they come from
/// the operating system and differ from call to call.
#[verifier::external_body]
pub(crate) fn random_bytes(n: usize) -> (bytes: Option<Vec<u8>>)
    ensures
        bytes matches Some(b) ==> b@.len() == n,
{
    let mut bytes = vec![0u8; n];
    match OsRng.try_fill_bytes(&mut bytes) {
        Ok(()) => Some(bytes),
        Err(_) => None,
    }
}

} // verus!
