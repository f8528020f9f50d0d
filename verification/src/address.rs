use bitcoincash_addr::{Address, HashType, Network, Scheme};
use vstd::prelude::*;
use vstd::utf8::encode_utf8;

verus! {

/// Why a text is no address in the CashAddr form.
#[verifier::external_type_specification]
#[verifier::external_body]
pub struct ExCashDecodingError(bitcoincash_addr::cashaddr::DecodingError);

/// Why a text is no address in the Base58 form.
#[verifier::external_type_specification]
#[verifier::external_body]
pub struct ExBase58DecodingError(bitcoincash_addr::base58::DecodingError);

/// The recipient hash that `Address::decode` reads from a text, or `None`
/// where it reports an error.
pub uninterp spec fn decoded_address(address: Seq<char>) -> Option<Seq<u8>>;

/// The text that `Address::encode` gives for the address with the given
/// body, the Base58 scheme, the script hash type and the main network.
pub uninterp spec fn base58_script_address(recipient: Seq<u8>) -> Seq<char>;

/// How many of the bytes are a colon.
pub open spec fn colon_count(bytes: Seq<u8>) -> nat
    decreases bytes.len(),
{
    if bytes.len() == 0 {
        0
    } else {
        colon_count(bytes.drop_last()) + if bytes.last() == 58u8 {
            1nat
        } else {
            0nat
        }
    }
}

/// The index of the first colon at or after `from`, or the length where
/// there is none.
pub open spec fn first_colon(bytes: Seq<u8>, from: int) -> int
    decreases bytes.len() - from,
{
    if from < 0 || from >= bytes.len() {
        bytes.len() as int
    } else if bytes[from] == 58u8 {
        from
    } else {
        first_colon(bytes, from + 1)
    }
}

/// Whether a text can be handed to the decoder: it has no colon or several,
/// or at least 10 bytes follow its one colon. A text with one colon and
/// fewer bytes behind it is no address, and the decoder may not return on
/// it.
pub open spec fn decodable(address: Seq<char>) -> bool {
    let bytes = encode_utf8(address);
    colon_count(bytes) != 1 || bytes.len() - first_colon(bytes, 0) - 1 >= 10
}

/// The recipient hash that an address stands for.
pub open spec fn spec_recipient(address: Seq<char>) -> Option<Seq<u8>> {
    if decodable(address) {
        decoded_address(address)
    } else {
        None
    }
}

/// Calls `Address::decode` of `bitcoincash_addr` and takes the `body` of the
/// address. Trusted: the outcome is a function of the text alone. Left out
/// are the texts with one colon and fewer than 10 bytes behind it, on which
/// the CashAddr decoder indexes past the end of what it has read.
#[verifier::external_body]
pub(crate) fn address_decode(address: &str) -> (res: Result<
    Vec<u8>,
    (bitcoincash_addr::cashaddr::DecodingError, bitcoincash_addr::base58::DecodingError),
>)
    requires
        decodable(address@),
    ensures
        match res {
            Ok(recipient) => decoded_address(address@) == Some(recipient@),
            Err(_) => decoded_address(address@) is None,
        },
{
    Address::decode(address).map(|decoded| decoded.body)
}

/// Calls `Address::encode` of `bitcoincash_addr` on the address with the
/// given body, the Base58 scheme, the script hash type and the main network;
/// with that scheme `encode` always succeeds. Trusted: the text is a function
/// of the body alone.
#[verifier::external_body]
pub(crate) fn encode_base58_script_address(recipient: &[u8]) -> (address: String)
    ensures
        address@ == base58_script_address(recipient@),
{
    let address = Address {
        body: recipient.to_vec(),
        scheme: Scheme::Base58,
        hash_type: HashType::Script,
        network: Network::Main,
    };
    address.encode().unwrap_or_default()
}

/// Whether a text can be handed to the decoder.
pub fn is_decodable(address: &str) -> (ok: bool)
    ensures
        ok == decodable(address@),
{
    let bytes = address.as_bytes();
    let mut colons: usize = 0;
    let mut first: usize = bytes.len();
    let mut i: usize = 0;
    while i < bytes.len()
        invariant
            i <= bytes.len(),
            colons <= i,
            colons == colon_count(bytes@.subrange(0, i as int)),
            colons == 0 ==> first == bytes.len() && first_colon(bytes@, 0) == first_colon(
                bytes@,
                i as int,
            ),
            colons > 0 ==> first < i && first == first_colon(bytes@, 0),
        decreases bytes.len() - i,
    {
        assert(bytes@.subrange(0, i + 1).drop_last() =~= bytes@.subrange(0, i as int));
        if bytes[i] == 58u8 {
            if colons == 0 {
                first = i;
            }
            colons = colons + 1;
        }
        i = i + 1;
    }
    assert(bytes@.subrange(0, bytes.len() as int) =~= bytes@);
    colons != 1 || bytes.len() - first - 1 >= 10
}

/// The recipient hash that an address stands for, `None` where the text is
/// no address.
pub fn recipient_of_address(address: &str) -> (res: Option<Vec<u8>>)
    ensures
        match res {
            Some(recipient) => spec_recipient(address@) == Some(recipient@),
            None => spec_recipient(address@) is None,
        },
{
    if !is_decodable(address) {
        return None;
    }
    match address_decode(address) {
        Ok(recipient) => Some(recipient),
        Err(_) => None,
    }
}

} // verus!
