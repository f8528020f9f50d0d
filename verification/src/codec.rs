use crate::block::{plain_block_view, BlockView, PlainBlock};
use crate::transaction::{
    plain_transaction_view, plain_transactions_view, plain_unspent_view, PlainTransaction,
    PlainUnspent, TransactionView,
};
use crate::tx::UnspentView;
use vstd::prelude::*;
use vstd::utf8::{decode_utf8, valid_utf8};

verus! {

/// Why `bincode` could not encode or decode.
#[verifier::external_type_specification]
#[verifier::external_body]
pub struct ExErrorKind(bincode::ErrorKind);

/// What `bincode::serialize` gives for a transaction written as the tuple of
/// its fields `(id, vin, vout)`: the bytes, or `None` where it reports an
/// error.
pub uninterp spec fn encoded_transaction(tx: TransactionView) -> Option<Seq<u8>>;

/// Calls `bincode::serialize` on a transaction written as a tuple. Trusted:
/// the outcome is a function of the value alone.
#[verifier::external_body]
pub(crate) fn encode_transaction(tx: &PlainTransaction) -> (res: Result<
    Vec<u8>,
    Box<bincode::ErrorKind>,
>)
    ensures
        match res {
            Ok(bytes) => encoded_transaction(plain_transaction_view(*tx)) == Some(bytes@),
            Err(_) => encoded_transaction(plain_transaction_view(*tx)) is None,
        },
{
    bincode::serialize(tx)
}

/// What `bincode::serialize` gives for the content that a block's digest is
/// taken of, the tuple `(prev_hash, transactions, timestamp, target, nonce)`:
/// the bytes, or `None` where it reports an error.
pub uninterp spec fn encoded_block_content(
    prev_hash: Seq<char>,
    transactions: Seq<TransactionView>,
    timestamp: u128,
    target: usize,
    nonce: u32,
) -> Option<Seq<u8>>;

/// Calls `bincode::serialize` on the tuple `(prev_hash, transactions,
/// timestamp, target, nonce)`. Trusted: the outcome is a function of the
/// five values alone.
#[verifier::external_body]
pub(crate) fn encode_block_content(
    prev_hash: &String,
    transactions: &Vec<PlainTransaction>,
    timestamp: u128,
    target: usize,
    nonce: u32,
) -> (res: Result<Vec<u8>, Box<bincode::ErrorKind>>)
    ensures
        match res {
            Ok(bytes) => encoded_block_content(
                prev_hash@,
                plain_transactions_view(transactions@),
                timestamp,
                target,
                nonce,
            ) == Some(bytes@),
            Err(_) => encoded_block_content(
                prev_hash@,
                plain_transactions_view(transactions@),
                timestamp,
                target,
                nonce,
            ) is None,
        },
{
    bincode::serialize(&(prev_hash, transactions, timestamp, target, nonce))
}

/// What `bincode::serialize` gives for a block written as the tuple of its
/// fields: the bytes, or `None` where it reports an error.
pub uninterp spec fn encoded_block(block: BlockView) -> Option<Seq<u8>>;

/// What `bincode::deserialize` reads from bytes as a block written as the
/// tuple of its fields, or `None` where it reports an error.
pub uninterp spec fn decoded_block(bytes: Seq<u8>) -> Option<BlockView>;

/// Calls `bincode::serialize` on a block written as a tuple. Trusted: the
/// outcome is a function of the value alone, and `bincode::deserialize` reads
/// the same value back from the bytes.
#[verifier::external_body]
pub(crate) fn encode_block(block: &PlainBlock) -> (res: Result<Vec<u8>, Box<bincode::ErrorKind>>)
    ensures
        match res {
            Ok(bytes) => encoded_block(plain_block_view(*block)) == Some(bytes@) && decoded_block(
                bytes@,
            ) == Some(plain_block_view(*block)),
            Err(_) => encoded_block(plain_block_view(*block)) is None,
        },
{
    bincode::serialize(block)
}

/// Calls `bincode::deserialize` for a block written as a tuple. Trusted: the
/// outcome is a function of the bytes alone.
#[verifier::external_body]
pub(crate) fn decode_block(bytes: &[u8]) -> (res: Result<PlainBlock, Box<bincode::ErrorKind>>)
    ensures
        match res {
            Ok(block) => decoded_block(bytes@) == Some(plain_block_view(block)),
            Err(_) => decoded_block(bytes@) is None,
        },
{
    bincode::deserialize(bytes)
}

/// What `bincode::serialize` gives for a list of unspent outputs, each
/// written as the tuple of its index and its output: the bytes, or `None`
/// where it reports an error.
pub uninterp spec fn encoded_outputs(outputs: Seq<UnspentView>) -> Option<Seq<u8>>;

/// What `bincode::deserialize` reads from bytes as a list of unspent
/// outputs, or `None` where it reports an error.
pub uninterp spec fn decoded_outputs(bytes: Seq<u8>) -> Option<Seq<UnspentView>>;

/// Calls `bincode::serialize` on a list of unspent outputs written as tuples.
/// Trusted: the outcome is a function of the value alone, and
/// `bincode::deserialize` reads the same value back from the bytes.
#[verifier::external_body]
pub(crate) fn encode_outputs(outputs: &Vec<PlainUnspent>) -> (res: Result<
    Vec<u8>,
    Box<bincode::ErrorKind>,
>)
    ensures
        match res {
            Ok(bytes) => encoded_outputs(plain_unspent_view(outputs@)) == Some(bytes@)
                && decoded_outputs(bytes@) == Some(plain_unspent_view(outputs@)),
            Err(_) => encoded_outputs(plain_unspent_view(outputs@)) is None,
        },
{
    bincode::serialize(outputs)
}

/// Calls `bincode::deserialize` for a list of unspent outputs written as
/// tuples.
/// Trusted: the outcome is a function of the bytes alone.
#[verifier::external_body]
pub(crate) fn decode_outputs(bytes: &[u8]) -> (res: Result<
    Vec<PlainUnspent>,
    Box<bincode::ErrorKind>,
>)
    ensures
        match res {
            Ok(outputs) => decoded_outputs(bytes@) == Some(plain_unspent_view(outputs@)),
            Err(_) => decoded_outputs(bytes@) is None,
        },
{
    bincode::deserialize(bytes)
}

/// What `bincode::serialize` gives for a wallet written as the tuple
/// `(secret_key, public_key)`: the bytes, or `None` where it reports an
/// error.
pub uninterp spec fn encoded_wallet(secret_key: Seq<u8>, public_key: Seq<u8>) -> Option<Seq<u8>>;

/// What `bincode::deserialize` reads from bytes as a wallet, or `None` where
/// it reports an error.
pub uninterp spec fn decoded_wallet(bytes: Seq<u8>) -> Option<(Seq<u8>, Seq<u8>)>;

/// Calls `bincode::serialize` on a wallet written as a tuple. Trusted: the
/// outcome is a function of the two keys alone, and `bincode::deserialize`
/// reads the same keys back from the bytes.
#[verifier::external_body]
pub(crate) fn encode_wallet(secret_key: &Vec<u8>, public_key: &Vec<u8>) -> (res: Result<
    Vec<u8>,
    Box<bincode::ErrorKind>,
>)
    ensures
        match res {
            Ok(bytes) => encoded_wallet(secret_key@, public_key@) == Some(bytes@) && decoded_wallet(
                bytes@,
            ) == Some((secret_key@, public_key@)),
            Err(_) => encoded_wallet(secret_key@, public_key@) is None,
        },
{
    bincode::serialize(&(secret_key, public_key))
}

/// Calls `bincode::deserialize` for a wallet written as a tuple. Trusted:
/// the outcome is a function of the bytes alone.
#[verifier::external_body]
pub(crate) fn decode_wallet(bytes: &[u8]) -> (res: Result<
    (Vec<u8>, Vec<u8>),
    Box<bincode::ErrorKind>,
>)
    ensures
        match res {
            Ok(keys) => decoded_wallet(bytes@) == Some((keys.0@, keys.1@)),
            Err(_) => decoded_wallet(bytes@) is None,
        },
{
    bincode::deserialize(bytes)
}

/// Calls `String::from_utf8`. Trusted: the text is the one that the bytes
/// encode in UTF-8, and there is none exactly where the bytes are no valid
/// UTF-8.
#[verifier::external_body]
pub(crate) fn text_from_utf8(bytes: Vec<u8>) -> (res: Option<String>)
    ensures
        match res {
            Some(text) => valid_utf8(bytes@) && text@ == decode_utf8(
                bytes@,
            ),
            None => !valid_utf8(bytes@),
        },
{
    String::from_utf8(bytes).ok()
}

/// Whether two texts hold the same characters.
pub fn same_text(a: &str, b: &str) -> (same: bool)
    ensures
        same == (a@ == b@),
{
    let same = crate::tx::bytes_equal(a.as_bytes(), b.as_bytes());
    proof {
        vstd::utf8::encode_utf8_decode_utf8(a@);
        vstd::utf8::encode_utf8_decode_utf8(b@);
    }
    same
}

} // verus!
