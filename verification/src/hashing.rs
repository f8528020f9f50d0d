use crypto::digest::Digest;
use crypto::ripemd160::Ripemd160;
use crypto::sha2::Sha256;
use vstd::prelude::*;

verus! {

/// The longest message, in bytes, that the digest functions accept.
pub const MAX_MESSAGE_LEN: u64 = 0x1fff_ffff_ffff_ffff;

/// The SHA-256 digest of a message, as 64 lowercase hexadecimal characters.
pub uninterp spec fn sha256_hex(data: Seq<u8>) -> Seq<char>;

/// The SHA-256 digest of a message, as 32 bytes.
pub uninterp spec fn sha256_bytes(data: Seq<u8>) -> Seq<u8>;

/// The RIPEMD-160 digest of a message, as 20 bytes.
pub uninterp spec fn ripemd160_bytes(data: Seq<u8>) -> Seq<u8>;

/// Calls `Sha256::new`, `Digest::input` and `Digest::result_str` of the
/// `crypto` crate. Trusted: the text returned is a function of the message
/// alone and has 64 characters, two for each of the digest's 32 bytes.
/// Messages of 2^61 bytes or more make `input` panic and are left out.
#[verifier::external_body]
pub(crate) fn sha256_hex_digest(data: &[u8]) -> (digest: String)
    requires
        data@.len() <= MAX_MESSAGE_LEN,
    ensures
        digest@ == sha256_hex(data@),
        digest@.len() == 64,
{
    let mut hasher = Sha256::new();
    hasher.input(data);
    hasher.result_str()
}

/// Calls `Sha256::new`, `Digest::input` and `Digest::result` of the `crypto`
/// crate on a buffer of 32 bytes. Trusted: the 32 bytes returned are a
/// function of the message alone. Messages of 2^61 bytes or more make `input`
/// panic and are left out.
#[verifier::external_body]
pub(crate) fn sha256_digest(data: &[u8]) -> (digest: Vec<u8>)
    requires
        data@.len() <= MAX_MESSAGE_LEN,
    ensures
        digest@ == sha256_bytes(data@),
        digest@.len() == 32,
{
    let mut out = vec![0u8; 32];
    let mut hasher = Sha256::new();
    hasher.input(data);
    hasher.result(&mut out);
    out
}

/// Calls `Ripemd160::new`, `Digest::input` and `Digest::result` of the
/// `crypto` crate on a buffer of 20 bytes. Trusted: the 20 bytes returned are
/// a function of the message alone. Messages of 2^61 bytes or more make
/// `input` panic and are left out.
#[verifier::external_body]
pub(crate) fn ripemd160_digest(data: &[u8]) -> (digest: Vec<u8>)
    requires
        data@.len() <= MAX_MESSAGE_LEN,
    ensures
        digest@ == ripemd160_bytes(data@),
        digest@.len() == 20,
{
    let mut out = vec![0u8; 20];
    let mut hasher = Ripemd160::new();
    hasher.input(data);
    hasher.result(&mut out);
    out
}

} // verus!
