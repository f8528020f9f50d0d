use crypto::ed25519;
use vstd::prelude::*;

verus! {

/// The secret key (64 bytes) and the public key (32 bytes) that
/// `ed25519::keypair` derives from a seed.
pub uninterp spec fn ed25519_keypair(seed: Seq<u8>) -> (Seq<u8>, Seq<u8>);

/// The signature (64 bytes) that `ed25519::signature` gives for a message
/// under a secret key.
pub uninterp spec fn ed25519_signature(message: Seq<u8>, secret_key: Seq<u8>) -> Seq<u8>;

/// Whether `ed25519::verify` accepts a signature for a message under a public
/// key.
pub uninterp spec fn ed25519_verifies(
    message: Seq<u8>,
    public_key: Seq<u8>,
    signature: Seq<u8>,
) -> bool;

/// Whether a signature is accepted: the key has its 32 bytes, the signature
/// its 64, and the signature scheme accepts them for the message.
pub open spec fn signature_checks(
    message: Seq<u8>,
    public_key: Seq<u8>,
    signature: Seq<u8>,
) -> bool {
    public_key.len() >= 32 && signature.len() >= 64 && ed25519_verifies(
        message,
        public_key,
        signature,
    )
}

/// Calls `ed25519::keypair` of the `crypto` crate. Trusted: both keys are a
/// function of the seed alone, and have 64 and 32 bytes.
#[verifier::external_body]
pub(crate) fn keypair_from_seed(seed: &[u8]) -> (keys: (Vec<u8>, Vec<u8>))
    ensures
        keys.0@ == ed25519_keypair(seed@).0,
        keys.1@ == ed25519_keypair(seed@).1,
        keys.0@.len() == 64,
        keys.1@.len() == 32,
{
    let (secret_key, public_key) = ed25519::keypair(seed);
    (secret_key.to_vec(), public_key.to_vec())
}

/// Calls `ed25519::signature` of the `crypto` crate, which reads the first 64
/// bytes of the secret key and panics on a shorter one. Trusted: the
/// signature is a function of message and key alone and has 64 bytes; and
/// where the secret key is the one derived from a seed of 32 bytes, the
/// signature is accepted under the public key derived from that seed.
#[verifier::external_body]
pub(crate) fn sign_message(message: &[u8], secret_key: &[u8]) -> (signature: Vec<u8>)
    requires
        secret_key@.len() >= 64,
    ensures
        signature@ == ed25519_signature(message@, secret_key@),
        signature@.len() == 64,
        forall|seed: Seq<u8>|
            seed.len() == 32 && secret_key@ == (#[trigger] ed25519_keypair(seed)).0
                ==> ed25519_verifies(message@, ed25519_keypair(seed).1, signature@),
{
    ed25519::signature(message, secret_key).to_vec()
}

/// Calls `ed25519::verify` of the `crypto` crate, which reads the first 32
/// bytes of the key and the first 64 of the signature and panics on shorter
/// ones. Trusted: the answer is a function of the three arguments alone.
#[verifier::external_body]
pub(crate) fn verify_message(message: &[u8], public_key: &[u8], signature: &[u8]) -> (accepted:
    bool)
    requires
        public_key@.len() >= 32,
        signature@.len() >= 64,
    ensures
        accepted == ed25519_verifies(message@, public_key@, signature@),
{
    ed25519::verify(message, public_key, signature)
}

/// Whether a signature is accepted for a message under a public key; a key or
/// a signature that is too short is not.
pub fn check_signature(message: &[u8], public_key: &[u8], signature: &[u8]) -> (accepted: bool)
    ensures
        accepted == signature_checks(message@, public_key@, signature@),
{
    if public_key.len() < 32 || signature.len() < 64 {
        false
    } else {
        verify_message(message, public_key, signature)
    }
}

} // verus!
