use vstd::prelude::*;

verus! {

/// The secret key (64 bytes) and the public key (32 bytes) that ed25519
/// derives from a seed.
pub uninterp spec fn keypair_of(seed: Seq<u8>) -> (Seq<u8>, Seq<u8>);

/// The ed25519 signature of a message under a secret key.
pub uninterp spec fn signature_of(message: Seq<u8>, secret_key: Seq<u8>) -> Seq<u8>;

/// Whether ed25519 accepts a signature of a message for a public key.
pub uninterp spec fn accepts(message: Seq<u8>, public_key: Seq<u8>, signature: Seq<u8>) -> bool;

/// Calls `crypto::ed25519::keypair`. Trusted: the two keys are a function
/// of the seed alone; the secret key has 64 bytes, the public key 32.
#[verifier::external_body]
pub(crate) fn keypair(seed: &[u8]) -> (keys: (Vec<u8>, Vec<u8>))
    ensures
        (keys.0@, keys.1@) == keypair_of(seed@),
        keys.0@.len() == 64,
        keys.1@.len() == 32,
{
    let (secret_key, public_key) = crypto::ed25519::keypair(seed);
    (secret_key.to_vec(), public_key.to_vec())
}

/// Calls `crypto::ed25519::signature`, which reads the first 64 bytes of the
/// secret key. Trusted: the 64-byte signature is a function of the message
/// and the key alone.
#[verifier::external_body]
pub(crate) fn signature(message: &[u8], secret_key: &[u8]) -> (sig: Vec<u8>)
    requires
        secret_key@.len() >= 64,
    ensures
        sig@ == signature_of(message@, secret_key@),
        sig@.len() == 64,
{
    crypto::ed25519::signature(message, secret_key).to_vec()
}

/// Calls `crypto::ed25519::verify`, which reads the first 64 bytes of the
/// signature and at least 32 bytes of the public key. Trusted: the verdict
/// is a function of the three byte strings alone.
#[verifier::external_body]
pub(crate) fn verify(message: &[u8], public_key: &[u8], signature: &[u8]) -> (ok: bool)
    requires
        public_key@.len() >= 32,
        signature@.len() >= 64,
    ensures
        ok == accepts(message@, public_key@, signature@),
{
    crypto::ed25519::verify(message, public_key, signature)
}

} // verus!
