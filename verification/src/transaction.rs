use crate::address::spec_recipient;
use crate::codec::{encode_transaction, encoded_transaction, same_text};
use crate::errors::ChainError;
use crate::hashing::{sha256_hex, sha256_hex_digest, MAX_MESSAGE_LEN};
use crate::signing::{
    check_signature, ed25519_keypair, ed25519_signature, ed25519_verifies, sign_message,
    signature_checks,
};
use crate::tx::{
    copy_bytes, copy_inputs, copy_outputs, indexed, inputs_view, outputs_view, unspent_view,
    TXInput, TXInputView, TXOutput, TXOutputView, UnspentOutput, UnspentView,
};
use vstd::prelude::*;
use vstd::utf8::encode_utf8;

verus! {

/// The reward that a coinbase pays.
pub const SUBSIDY: i32 = 100;

/// What a transaction is, as mathematical values.
pub struct TransactionView {
    pub id: Seq<char>,
    pub vin: Seq<TXInputView>,
    pub vout: Seq<TXOutputView>,
}

/// Transaction represents a Bitcoin transaction
#[derive(Debug)]
pub struct Transaction {
    pub id: String,
    pub vin: Vec<TXInput>,
    pub vout: Vec<TXOutput>,
}

/// An input as the tuple of its fields, in their order.
pub type PlainInput = (String, i32, Vec<u8>, Vec<u8>);

/// An output as the tuple of its fields, in their order.
pub type PlainOutput = (i32, Vec<u8>);

/// An unspent output as the tuple of its index and its output.
pub type PlainUnspent = (usize, PlainOutput);

/// A transaction as the tuple of its fields, in their order.
pub type PlainTransaction = (String, Vec<PlainInput>, Vec<PlainOutput>);

impl View for Transaction {
    type V = TransactionView;

    open spec fn view(&self) -> TransactionView {
        TransactionView {
            id: self.id@,
            vin: inputs_view(self.vin@),
            vout: outputs_view(self.vout@),
        }
    }
}

impl Clone for Transaction {
    fn clone(&self) -> (copy: Transaction)
        ensures
            copy@ == self@,
    {
        Transaction {
            id: self.id.clone(),
            vin: copy_inputs(&self.vin),
            vout: copy_outputs(&self.vout),
        }
    }
}

/// The views of a sequence of transactions, in order.
pub open spec fn transactions_view(s: Seq<Transaction>) -> Seq<TransactionView> {
    s.map_values(|t: Transaction| t@)
}

/// The input that a tuple stands for, as mathematical values.
pub open spec fn plain_input_view(p: PlainInput) -> TXInputView {
    TXInputView { txid: p.0@, vout: p.1, signature: p.2@, pub_key: p.3@ }
}

/// The output that a tuple stands for, as mathematical values.
pub open spec fn plain_output_view(p: PlainOutput) -> TXOutputView {
    TXOutputView { value: p.0, pub_key_hash: p.1@ }
}

/// The inputs that a list of tuples stands for.
pub open spec fn plain_inputs_view(s: Seq<PlainInput>) -> Seq<TXInputView> {
    s.map_values(|p: PlainInput| plain_input_view(p))
}

/// The outputs that a list of tuples stands for.
pub open spec fn plain_outputs_view(s: Seq<PlainOutput>) -> Seq<TXOutputView> {
    s.map_values(|p: PlainOutput| plain_output_view(p))
}

/// The unspent outputs that a list of tuples stands for.
pub open spec fn plain_unspent_view(s: Seq<PlainUnspent>) -> Seq<UnspentView> {
    s.map_values(
        |p: PlainUnspent| UnspentView { index: p.0 as int, output: plain_output_view(p.1) },
    )
}

/// The transaction that a tuple stands for, as mathematical values.
pub open spec fn plain_transaction_view(p: PlainTransaction) -> TransactionView {
    TransactionView { id: p.0@, vin: plain_inputs_view(p.1@), vout: plain_outputs_view(p.2@) }
}

/// The transactions that a list of tuples stands for.
pub open spec fn plain_transactions_view(s: Seq<PlainTransaction>) -> Seq<TransactionView> {
    s.map_values(|p: PlainTransaction| plain_transaction_view(p))
}

/// The content hash of a transaction: the SHA-256 digest, in hexadecimal, of
/// its encoding with the id blanked.
pub open spec fn spec_transaction_hash(tx: TransactionView) -> Result<Seq<char>, ChainError> {
    match encoded_transaction(TransactionView { id: Seq::empty(), vin: tx.vin, vout: tx.vout }) {
        None => Err(ChainError::Serialization),
        Some(bytes) => if bytes.len() > MAX_MESSAGE_LEN {
            Err(ChainError::Oversize)
        } else {
            Ok(sha256_hex(bytes))
        },
    }
}

/// The transaction that carries a text and moves no value, before it has
/// its id: one input that refers to no output and holds the text, no output.
pub open spec fn carrier_draft(data: Seq<char>) -> TransactionView {
    TransactionView {
        id: Seq::empty(),
        vin: seq![
            TXInputView {
                txid: Seq::empty(),
                vout: -1i32,
                signature: Seq::empty(),
                pub_key: encode_utf8(data),
            },
        ],
        vout: Seq::empty(),
    }
}

/// The transaction that carries a text: the draft with its content hash as
/// id.
pub open spec fn spec_new_carrier(data: Seq<char>) -> Result<TransactionView, ChainError> {
    match spec_transaction_hash(carrier_draft(data)) {
        Err(e) => Err(e),
        Ok(id) => Ok(
            TransactionView { id, vin: carrier_draft(data).vin, vout: carrier_draft(data).vout },
        ),
    }
}

/// Whether a transaction is a coinbase: exactly one input, with an empty
/// `txid` and `vout == -1`.
pub open spec fn spec_is_coinbase(tx: TransactionView) -> bool {
    tx.vin.len() == 1 && tx.vin[0].txid.len() == 0 && tx.vin[0].vout == -1
}

/// The coinbase that pays the reward to `recipient` and carries `data` as
/// its reward text, before it has its id.
pub open spec fn coinbase_draft(recipient: Seq<u8>, data: Seq<char>) -> TransactionView {
    TransactionView {
        id: Seq::empty(),
        vin: seq![
            TXInputView {
                txid: Seq::empty(),
                vout: -1i32,
                signature: Seq::empty(),
                pub_key: encode_utf8(data),
            },
        ],
        vout: seq![TXOutputView { value: SUBSIDY, pub_key_hash: recipient }],
    }
}

/// The coinbase for an address and a reward text: a validation fault where
/// the text is no address, else the draft with its content hash as id.
pub open spec fn spec_new_coinbase(to: Seq<char>, data: Seq<char>) -> Result<
    TransactionView,
    ChainError,
> {
    match spec_recipient(to) {
        None => Err(ChainError::Validation),
        Some(recipient) => match spec_transaction_hash(coinbase_draft(recipient, data)) {
            Err(e) => Err(e),
            Ok(id) => Ok(
                TransactionView {
                    id,
                    vin: coinbase_draft(recipient, data).vin,
                    vout: coinbase_draft(recipient, data).vout,
                },
            ),
        },
    }
}

/// The transactions in the opposite order.
pub open spec fn reversed(txs: Seq<TransactionView>) -> Seq<TransactionView> {
    Seq::new(txs.len(), |i: int| txs[txs.len() - 1 - i])
}

/// The index of the first transaction at or after `from` whose id is `id`,
/// or the length of the list where there is none.
pub open spec fn first_with_id(txs: Seq<TransactionView>, id: Seq<char>, from: int) -> int
    decreases txs.len() - from,
{
    if from < 0 || from >= txs.len() {
        txs.len() as int
    } else if txs[from].id == id {
        from
    } else {
        first_with_id(txs, id, from + 1)
    }
}

/// The first transaction of the list whose id is `id`.
pub open spec fn lookup_transaction(txs: Seq<TransactionView>, id: Seq<char>) -> Option<
    TransactionView,
> {
    let k = first_with_id(txs, id, 0);
    if k < txs.len() {
        Some(txs[k])
    } else {
        None
    }
}

/// The output that an input spends: the one at index `vout` of the first
/// previous transaction whose id is the input's `txid`. There is none where
/// no previous transaction has that id, where the id is empty, or where the
/// index is not one of that transaction's outputs.
pub open spec fn referenced_output(prev: Seq<TransactionView>, input: TXInputView) -> Option<
    TXOutputView,
> {
    match lookup_transaction(prev, input.txid) {
        None => None,
        Some(tx) => if tx.id.len() > 0 && 0 <= input.vout < tx.vout.len() {
            Some(tx.vout[input.vout as int])
        } else {
            None
        },
    }
}

/// The recipient hash of the output that an input spends.
pub open spec fn referenced_recipient(prev: Seq<TransactionView>, input: TXInputView) -> Option<
    Seq<u8>,
> {
    match referenced_output(prev, input) {
        None => None,
        Some(out) => Some(out.pub_key_hash),
    }
}

/// Whether every input of the transaction spends an output that can be found.
pub open spec fn all_resolved(tx: TransactionView, prev: Seq<TransactionView>) -> bool {
    forall|i: int| 0 <= i < tx.vin.len() ==> referenced_output(prev, #[trigger] tx.vin[i]) is Some
}

/// An input without its signature and its key.
pub open spec fn trimmed_input(input: TXInputView) -> TXInputView {
    TXInputView {
        txid: input.txid,
        vout: input.vout,
        signature: Seq::empty(),
        pub_key: Seq::empty(),
    }
}

/// The trimmed copy of a transaction: every input without signature and key,
/// id and outputs as they are.
pub open spec fn trimmed(tx: TransactionView) -> TransactionView {
    TransactionView {
        id: tx.id,
        vin: tx.vin.map_values(|x: TXInputView| trimmed_input(x)),
        vout: tx.vout,
    }
}

/// The trimmed copy in which input `i` holds `recipient`, the recipient hash
/// of the output it spends, in place of a key.
pub open spec fn signing_copy(tx: TransactionView, i: int, recipient: Seq<u8>) -> TransactionView {
    TransactionView {
        id: tx.id,
        vin: trimmed(tx).vin.update(
            i,
            TXInputView {
                txid: tx.vin[i].txid,
                vout: tx.vin[i].vout,
                signature: Seq::empty(),
                pub_key: recipient,
            },
        ),
        vout: tx.vout,
    }
}

/// The digest that is signed for input `i`: the content hash of the signing
/// copy for `i`. A validation fault where the input's reference cannot be
/// resolved.
pub open spec fn input_digest(tx: TransactionView, prev: Seq<TransactionView>, i: int) -> Result<
    Seq<char>,
    ChainError,
> {
    match referenced_recipient(prev, tx.vin[i]) {
        None => Err(ChainError::Validation),
        Some(recipient) => spec_transaction_hash(signing_copy(tx, i, recipient)),
    }
}

/// The signature that signing puts into input `i`: that of the input's
/// digest under `private_key`. There is none where the digest cannot be
/// computed.
pub open spec fn input_signature(
    tx: TransactionView,
    prev: Seq<TransactionView>,
    i: int,
    private_key: Seq<u8>,
) -> Option<Seq<u8>> {
    match input_digest(tx, prev, i) {
        Err(_) => None,
        Ok(digest) => Some(ed25519_signature(encode_utf8(digest), private_key)),
    }
}

/// Whether `signature` is accepted under `public_key` for the digest of
/// input `i`.
pub open spec fn accepted_under(
    tx: TransactionView,
    prev: Seq<TransactionView>,
    i: int,
    public_key: Seq<u8>,
    signature: Seq<u8>,
) -> bool {
    input_digest(tx, prev, i) matches Ok(digest) && ed25519_verifies(
        encode_utf8(digest),
        public_key,
        signature,
    )
}

/// Whether the signature stored in input `i` is accepted, under the key
/// stored there, for the digest of that input.
pub open spec fn input_verifies(tx: TransactionView, prev: Seq<TransactionView>, i: int) -> bool {
    input_digest(tx, prev, i) matches Ok(digest) && signature_checks(
        encode_utf8(digest),
        tx.vin[i].pub_key,
        tx.vin[i].signature,
    )
}

/// Whether `after` is `before` with each input signed under `private_key`:
/// nothing differs but the signatures, each is the signature of its input's
/// digest and has 64 bytes, and where `private_key` is the secret key derived
/// from a seed of 32 bytes, each is accepted under the public key derived
/// from that seed.
pub open spec fn signed_with(
    before: TransactionView,
    after: TransactionView,
    prev: Seq<TransactionView>,
    private_key: Seq<u8>,
) -> bool {
    &&& after.id == before.id
    &&& after.vout == before.vout
    &&& after.vin.len() == before.vin.len()
    &&& forall|i: int|
        #![trigger after.vin[i]]
        0 <= i < before.vin.len() ==> {
            &&& after.vin[i].txid == before.vin[i].txid
            &&& after.vin[i].vout == before.vin[i].vout
            &&& after.vin[i].pub_key == before.vin[i].pub_key
            &&& after.vin[i].signature.len() == 64
            &&& input_signature(before, prev, i, private_key) == Some(after.vin[i].signature)
        }
    &&& forall|seed: Seq<u8>, i: int|
        #![trigger ed25519_keypair(seed), after.vin[i]]
        seed.len() == 32 && private_key == ed25519_keypair(seed).0 && 0 <= i < before.vin.len()
            ==> accepted_under(before, prev, i, ed25519_keypair(seed).1, after.vin[i].signature)
}

/// Whether input `i` is the first whose digest cannot be computed, and `e`
/// is why.
pub open spec fn first_digest_fault(
    tx: TransactionView,
    prev: Seq<TransactionView>,
    i: int,
    e: ChainError,
) -> bool {
    &&& 0 <= i < tx.vin.len()
    &&& input_digest(tx, prev, i) == Err::<Seq<char>, ChainError>(e)
    &&& forall|j: int| 0 <= j < i ==> input_digest(tx, prev, j) is Ok
}

/// Why signing fails: the key is shorter than 64 bytes or a reference is
/// not resolved, a validation fault; else the fault of the first digest that
/// cannot be computed.
pub open spec fn sign_fault(
    tx: TransactionView,
    prev: Seq<TransactionView>,
    private_key: Seq<u8>,
    e: ChainError,
) -> bool {
    if private_key.len() < 64 || !all_resolved(tx, prev) {
        e == ChainError::Validation
    } else {
        exists|i: int| first_digest_fault(tx, prev, i, e)
    }
}

/// Whether input `i` is the first whose signature is not accepted.
pub open spec fn first_rejected(tx: TransactionView, prev: Seq<TransactionView>, i: int) -> bool {
    &&& 0 <= i < tx.vin.len()
    &&& input_digest(tx, prev, i) is Ok
    &&& !input_verifies(tx, prev, i)
    &&& forall|j: int| 0 <= j < i ==> input_verifies(tx, prev, j)
}

/// Why verifying fails: a reference is not resolved, a validation fault;
/// else the fault of a digest that cannot be computed, every input before it
/// being accepted.
pub open spec fn verify_fault(
    tx: TransactionView,
    prev: Seq<TransactionView>,
    e: ChainError,
) -> bool {
    if !all_resolved(tx, prev) {
        e == ChainError::Validation
    } else {
        exists|i: int|
            0 <= i < tx.vin.len() && input_digest(tx, prev, i) == Err::<Seq<char>, ChainError>(e)
                && forall|j: int| 0 <= j < i ==> input_verifies(tx, prev, j)
    }
}

/// What verifying a transaction that is no coinbase returns.
pub open spec fn verify_outcome(
    tx: TransactionView,
    prev: Seq<TransactionView>,
    res: Result<bool, ChainError>,
) -> bool {
    match res {
        Ok(true) => all_resolved(tx, prev) && forall|i: int|
            0 <= i < tx.vin.len() ==> input_verifies(tx, prev, i),
        Ok(false) => all_resolved(tx, prev) && exists|i: int| first_rejected(tx, prev, i),
        Err(e) => verify_fault(tx, prev, e),
    }
}

/// A copy of a list of transactions.
pub fn copy_transactions(src: &Vec<Transaction>) -> (dst: Vec<Transaction>)
    ensures
        transactions_view(dst@) == transactions_view(src@),
{
    let mut dst: Vec<Transaction> = Vec::new();
    let mut i: usize = 0;
    while i < src.len()
        invariant
            i <= src.len(),
            dst@.len() == i,
            forall|k: int| 0 <= k < i ==> (#[trigger] dst@[k])@ == src@[k]@,
        decreases src.len() - i,
    {
        dst.push(src[i].clone());
        i = i + 1;
    }
    dst
}

/// The outputs of a transaction as tuples.
pub fn outputs_to_plain(outputs: &Vec<TXOutput>) -> (plain: Vec<PlainOutput>)
    ensures
        plain_outputs_view(plain@) == outputs_view(outputs@),
{
    let mut plain: Vec<PlainOutput> = Vec::new();
    let mut i: usize = 0;
    while i < outputs.len()
        invariant
            i <= outputs.len(),
            plain@.len() == i,
            forall|k: int| 0 <= k < i ==> plain_output_view(#[trigger] plain@[k]) == outputs@[k]@,
        decreases outputs.len() - i,
    {
        plain.push((outputs[i].value, copy_bytes(&outputs[i].pub_key_hash)));
        i = i + 1;
    }
    plain
}

/// The outputs of a transaction, each with its index, as tuples.
pub fn outputs_to_indexed(outputs: &Vec<TXOutput>) -> (plain: Vec<PlainUnspent>)
    ensures
        plain_unspent_view(plain@) == indexed(outputs_view(outputs@)),
{
    let mut plain: Vec<PlainUnspent> = Vec::new();
    let mut i: usize = 0;
    while i < outputs.len()
        invariant
            i <= outputs.len(),
            plain@.len() == i,
            forall|k: int|
                0 <= k < i ==> (#[trigger] plain@[k]).0 == k && plain_output_view(plain@[k].1)
                    == outputs@[k]@,
        decreases outputs.len() - i,
    {
        plain.push((i, (outputs[i].value, copy_bytes(&outputs[i].pub_key_hash))));
        i = i + 1;
    }
    assert(plain_unspent_view(plain@) =~= indexed(outputs_view(outputs@)));
    plain
}

/// Unspent outputs as tuples.
pub fn unspent_to_plain(outputs: &Vec<UnspentOutput>) -> (plain: Vec<PlainUnspent>)
    ensures
        plain_unspent_view(plain@) == unspent_view(outputs@),
{
    let mut plain: Vec<PlainUnspent> = Vec::new();
    let mut i: usize = 0;
    while i < outputs.len()
        invariant
            i <= outputs.len(),
            plain@.len() == i,
            forall|k: int|
                0 <= k < i ==> (#[trigger] plain@[k]).0 == outputs@[k].index && plain_output_view(
                    plain@[k].1,
                ) == outputs@[k].output@,
        decreases outputs.len() - i,
    {
        plain.push(
            (
                outputs[i].index,
                (outputs[i].output.value, copy_bytes(&outputs[i].output.pub_key_hash)),
            ),
        );
        i = i + 1;
    }
    assert(plain_unspent_view(plain@) =~= unspent_view(outputs@));
    plain
}

/// The unspent outputs that a list of tuples stands for.
pub fn unspent_from_plain(plain: &Vec<PlainUnspent>) -> (outputs: Vec<UnspentOutput>)
    ensures
        unspent_view(outputs@) == plain_unspent_view(plain@),
{
    let mut outputs: Vec<UnspentOutput> = Vec::new();
    let mut i: usize = 0;
    while i < plain.len()
        invariant
            i <= plain.len(),
            outputs@.len() == i,
            forall|k: int|
                0 <= k < i ==> (#[trigger] outputs@[k]).index == plain@[k].0 && outputs@[k].output@
                    == plain_output_view(plain@[k].1),
        decreases plain.len() - i,
    {
        outputs.push(
            UnspentOutput {
                index: plain[i].0,
                output: TXOutput { value: plain[i].1.0, pub_key_hash: copy_bytes(&plain[i].1.1) },
            },
        );
        i = i + 1;
    }
    assert(unspent_view(outputs@) =~= plain_unspent_view(plain@));
    outputs
}

/// The outputs that a list of tuples stands for.
pub fn outputs_from_plain(plain: &Vec<PlainOutput>) -> (outputs: Vec<TXOutput>)
    ensures
        outputs_view(outputs@) == plain_outputs_view(plain@),
{
    let mut outputs: Vec<TXOutput> = Vec::new();
    let mut i: usize = 0;
    while i < plain.len()
        invariant
            i <= plain.len(),
            outputs@.len() == i,
            forall|k: int| 0 <= k < i ==> (#[trigger] outputs@[k])@ == plain_output_view(plain@[k]),
        decreases plain.len() - i,
    {
        outputs.push(TXOutput { value: plain[i].0, pub_key_hash: copy_bytes(&plain[i].1) });
        i = i + 1;
    }
    outputs
}

/// The inputs of a transaction as tuples.
pub fn inputs_to_plain(inputs: &Vec<TXInput>) -> (plain: Vec<PlainInput>)
    ensures
        plain_inputs_view(plain@) == inputs_view(inputs@),
{
    let mut plain: Vec<PlainInput> = Vec::new();
    let mut i: usize = 0;
    while i < inputs.len()
        invariant
            i <= inputs.len(),
            plain@.len() == i,
            forall|k: int| 0 <= k < i ==> plain_input_view(#[trigger] plain@[k]) == inputs@[k]@,
        decreases inputs.len() - i,
    {
        let input = &inputs[i];
        plain.push(
            (
                input.txid.clone(),
                input.vout,
                copy_bytes(&input.signature),
                copy_bytes(&input.pub_key),
            ),
        );
        i = i + 1;
    }
    plain
}

/// The inputs that a list of tuples stands for.
pub fn inputs_from_plain(plain: &Vec<PlainInput>) -> (inputs: Vec<TXInput>)
    ensures
        inputs_view(inputs@) == plain_inputs_view(plain@),
{
    let mut inputs: Vec<TXInput> = Vec::new();
    let mut i: usize = 0;
    while i < plain.len()
        invariant
            i <= plain.len(),
            inputs@.len() == i,
            forall|k: int| 0 <= k < i ==> (#[trigger] inputs@[k])@ == plain_input_view(plain@[k]),
        decreases plain.len() - i,
    {
        let p = &plain[i];
        inputs.push(
            TXInput {
                txid: p.0.clone(),
                vout: p.1,
                signature: copy_bytes(&p.2),
                pub_key: copy_bytes(&p.3),
            },
        );
        i = i + 1;
    }
    inputs
}

/// A list of transactions as tuples.
pub fn transactions_to_plain(txs: &Vec<Transaction>) -> (plain: Vec<PlainTransaction>)
    ensures
        plain_transactions_view(plain@) == transactions_view(txs@),
{
    let mut plain: Vec<PlainTransaction> = Vec::new();
    let mut i: usize = 0;
    while i < txs.len()
        invariant
            i <= txs.len(),
            plain@.len() == i,
            forall|k: int| 0 <= k < i ==> plain_transaction_view(#[trigger] plain@[k]) == txs@[k]@,
        decreases txs.len() - i,
    {
        plain.push(txs[i].to_plain());
        i = i + 1;
    }
    plain
}

/// The transactions that a list of tuples stands for.
pub fn transactions_from_plain(plain: &Vec<PlainTransaction>) -> (txs: Vec<Transaction>)
    ensures
        transactions_view(txs@) == plain_transactions_view(plain@),
{
    let mut txs: Vec<Transaction> = Vec::new();
    let mut i: usize = 0;
    while i < plain.len()
        invariant
            i <= plain.len(),
            txs@.len() == i,
            forall|k: int|
                0 <= k < i ==> (#[trigger] txs@[k])@ == plain_transaction_view(plain@[k]),
        decreases plain.len() - i,
    {
        txs.push(Transaction::from_plain(&plain[i]));
        i = i + 1;
    }
    txs
}

/// The index in `txs` of the first transaction whose id is `id`.
pub fn position_of(txs: &Vec<Transaction>, id: &str) -> (found: Option<usize>)
    ensures
        match found {
            Some(k) => k < txs@.len() && k == first_with_id(transactions_view(txs@), id@, 0),
            None => first_with_id(transactions_view(txs@), id@, 0) == txs@.len(),
        },
{
    let mut i: usize = 0;
    while i < txs.len()
        invariant
            i <= txs.len(),
            first_with_id(transactions_view(txs@), id@, 0) == first_with_id(
                transactions_view(txs@),
                id@,
                i as int,
            ),
        decreases txs.len() - i,
    {
        if same_text(txs[i].id.as_str(), id) {
            return Some(i);
        }
        i = i + 1;
    }
    None
}

/// The recipient hash of the output that `input` spends, where it can be
/// found among `prev_txs`.
pub fn resolve_input(prev_txs: &Vec<Transaction>, input: &TXInput) -> (recipient: Option<Vec<u8>>)
    ensures
        match recipient {
            Some(hash) => referenced_recipient(transactions_view(prev_txs@), input@) == Some(hash@),
            None => referenced_recipient(transactions_view(prev_txs@), input@) is None,
        },
{
    match position_of(prev_txs, input.txid.as_str()) {
        None => None,
        Some(k) => {
            let tx = &prev_txs[k];
            if tx.id.as_str().is_empty() || input.vout < 0 || input.vout as usize >= tx.vout.len() {
                None
            } else {
                let out = &tx.vout[input.vout as usize];
                Some(copy_bytes(&out.pub_key_hash))
            }
        },
    }
}

impl Transaction {
    /// Creates a new coinbase transaction: one input that
    /// refers to no output and carries `data`, one output that pays the
    /// reward to the address `to`
    pub fn new_coinbase(to: String, data: String) -> (res: Result<Transaction, ChainError>)
        ensures
            match res {
                Ok(tx) => spec_new_coinbase(to@, data@) == Ok::<TransactionView, ChainError>(tx@),
                Err(e) => spec_new_coinbase(to@, data@) == Err::<TransactionView, ChainError>(e),
            },
    {
        let output = TXOutput::new(SUBSIDY, to)?;
        let mut vin: Vec<TXInput> = Vec::new();
        vin.push(
            TXInput {
                txid: String::new(),
                vout: -1,
                signature: Vec::new(),
                pub_key: data.as_str().as_bytes_vec(),
            },
        );
        let mut vout: Vec<TXOutput> = Vec::new();
        vout.push(output);
        let mut tx = Transaction { id: String::new(), vin, vout };
        assert(tx@.vin =~= coinbase_draft(tx@.vout[0].pub_key_hash, data@).vin);
        assert(tx@.vout =~= coinbase_draft(tx@.vout[0].pub_key_hash, data@).vout);
        let id = tx.hash()?;
        tx.id = id;
        Ok(tx)
    }

    /// A transaction that carries a text into a block and moves no value: it
    /// has the shape of a coinbase, holds the text in its input and has no
    /// output
    pub fn new_carrier(data: String) -> (res: Result<Transaction, ChainError>)
        ensures
            match res {
                Ok(tx) => spec_new_carrier(data@) == Ok::<TransactionView, ChainError>(tx@),
                Err(e) => spec_new_carrier(data@) == Err::<TransactionView, ChainError>(e),
            },
    {
        let mut vin: Vec<TXInput> = Vec::new();
        vin.push(
            TXInput {
                txid: String::new(),
                vout: -1,
                signature: Vec::new(),
                pub_key: data.as_str().as_bytes_vec(),
            },
        );
        let mut tx = Transaction { id: String::new(), vin, vout: Vec::new() };
        assert(tx@.vin =~= carrier_draft(data@).vin);
        assert(tx@.vout =~= carrier_draft(data@).vout);
        let id = tx.hash()?;
        tx.id = id;
        Ok(tx)
    }

    /// Checks whether the transaction is coinbase
    pub fn is_coinbase(&self) -> (coinbase: bool)
        ensures
            coinbase == spec_is_coinbase(self@),
    {
        self.vin.len() == 1 && self.vin[0].txid.as_str().is_empty() && self.vin[0].vout == -1
    }

    /// Hash returns the hash of the Transaction
    pub fn hash(&self) -> (res: Result<String, ChainError>)
        ensures
            match res {
                Ok(digest) => spec_transaction_hash(self@) == Ok::<Seq<char>, ChainError>(digest@),
                Err(e) => spec_transaction_hash(self@) == Err::<Seq<char>, ChainError>(e),
            },
    {
        let plain: PlainTransaction = (
            String::new(),
            inputs_to_plain(&self.vin),
            outputs_to_plain(&self.vout),
        );
        match encode_transaction(&plain) {
            Err(_) => Err(ChainError::Serialization),
            Ok(bytes) => {
                if bytes.len() as u64 > MAX_MESSAGE_LEN {
                    Err(ChainError::Oversize)
                } else {
                    Ok(sha256_hex_digest(bytes.as_slice()))
                }
            },
        }
    }

    /// Creates a trimmed copy of Transaction to be used in signing
    pub fn trim_copy(&self) -> (copy: Transaction)
        ensures
            copy@ == trimmed(self@),
    {
        let mut vin: Vec<TXInput> = Vec::new();
        let mut i: usize = 0;
        while i < self.vin.len()
            invariant
                i <= self.vin.len(),
                vin@.len() == i,
                forall|k: int| 0 <= k < i ==> (#[trigger] vin@[k])@ == trimmed_input(self.vin@[k]@),
            decreases self.vin.len() - i,
        {
            vin.push(
                TXInput {
                    txid: self.vin[i].txid.clone(),
                    vout: self.vin[i].vout,
                    signature: Vec::new(),
                    pub_key: Vec::new(),
                },
            );
            i = i + 1;
        }
        let copy = Transaction { id: self.id.clone(), vin, vout: copy_outputs(&self.vout) };
        assert(copy@.vin =~= trimmed(self@).vin);
        copy
    }

    /// The recipient hashes of the outputs that the inputs spend, in the
    /// order of the inputs; `None` where one of them cannot be found.
    pub fn resolve_inputs(&self, prev_txs: &Vec<Transaction>) -> (recipients: Option<Vec<Vec<u8>>>)
        ensures
            match recipients {
                Some(hashes) => all_resolved(self@, transactions_view(prev_txs@)) && hashes@.len()
                    == self.vin@.len() && forall|i: int|
                    0 <= i < hashes@.len() ==> referenced_recipient(
                        transactions_view(prev_txs@),
                        self@.vin[i],
                    ) == Some((#[trigger] hashes@[i])@),
                None => !all_resolved(self@, transactions_view(prev_txs@)),
            },
    {
        let mut hashes: Vec<Vec<u8>> = Vec::new();
        let mut i: usize = 0;
        while i < self.vin.len()
            invariant
                i <= self.vin.len(),
                hashes@.len() == i,
                forall|k: int|
                    0 <= k < i ==> referenced_recipient(
                        transactions_view(prev_txs@),
                        self@.vin[k],
                    ) == Some((#[trigger] hashes@[k])@),
            decreases self.vin.len() - i,
        {
            assert(self@.vin[i as int] == self.vin@[i as int]@);
            match resolve_input(prev_txs, &self.vin[i]) {
                None => {
                    return None;
                },
                Some(hash) => {
                    hashes.push(hash);
                },
            }
            i = i + 1;
        }
        assert forall|k: int| 0 <= k < self@.vin.len() implies referenced_output(
            transactions_view(prev_txs@),
            #[trigger] self@.vin[k],
        ) is Some by {
            let _ = hashes@[k];
        }
        Some(hashes)
    }

    /// The digest that is signed for input `i`, computed on `copy`, the
    /// trimmed copy of the transaction, which is left as it was.
    fn digest_for_input(copy: &mut Transaction, i: usize, recipient: &Vec<u8>) -> (res: Result<
        String,
        ChainError,
    >)
        requires
            i < old(copy).vin@.len(),
            old(copy)@ == trimmed(old(copy)@),
        ensures
            final(copy)@ == old(copy)@,
            match res {
                Ok(digest) => spec_transaction_hash(signing_copy(old(copy)@, i as int, recipient@))
                    == Ok::<Seq<char>, ChainError>(digest@),
                Err(e) => spec_transaction_hash(signing_copy(old(copy)@, i as int, recipient@))
                    == Err::<Seq<char>, ChainError>(e),
            },
    {
        let txid = copy.vin[i].txid.clone();
        let vout = copy.vin[i].vout;
        let before = Ghost(copy@);
        copy.vin.set(
            i,
            TXInput {
                txid: txid.clone(),
                vout,
                signature: Vec::new(),
                pub_key: copy_bytes(recipient),
            },
        );
        assert(copy@.vin =~= signing_copy(before@, i as int, recipient@).vin);
        let res = copy.hash();
        copy.vin.set(i, TXInput { txid, vout, signature: Vec::new(), pub_key: Vec::new() });
        assert(copy@.vin =~= before@.vin);
        res
    }

    /// Sign signs each input of a Transaction. A coinbase is left as it is.
    /// Otherwise every input gets the signature of its digest under
    /// `private_key`, or, on a fault, none does.
    pub fn sign(&mut self, private_key: &[u8], prev_txs: &Vec<Transaction>) -> (res: Result<
        (),
        ChainError,
    >)
        ensures
            spec_is_coinbase(old(self)@) ==> res is Ok && final(self)@ == old(self)@,
            !spec_is_coinbase(old(self)@) ==> match res {
                Ok(()) => private_key@.len() >= 64 && signed_with(
                    old(self)@,
                    final(self)@,
                    transactions_view(prev_txs@),
                    private_key@,
                ),
                Err(e) => final(self)@ == old(self)@ && sign_fault(
                    old(self)@,
                    transactions_view(prev_txs@),
                    private_key@,
                    e,
                ),
            },
    {
        if self.is_coinbase() {
            return Ok(());
        }
        if private_key.len() < 64 {
            return Err(ChainError::Validation);
        }
        let recipients = match self.resolve_inputs(prev_txs) {
            None => {
                return Err(ChainError::Validation);
            },
            Some(recipients) => recipients,
        };
        let ghost before = self@;
        let ghost prev = transactions_view(prev_txs@);
        let mut copy = self.trim_copy();
        let mut signatures: Vec<Vec<u8>> = Vec::new();
        let mut i: usize = 0;
        while i < self.vin.len()
            invariant
                i <= self.vin.len(),
                self@ == before,
                before == old(self)@,
                prev == transactions_view(prev_txs@),
                all_resolved(before, prev),
                copy@ == trimmed(before),
                private_key@.len() >= 64,
                recipients@.len() == self.vin@.len(),
                forall|k: int|
                    0 <= k < recipients@.len() ==> referenced_recipient(prev, before.vin[k])
                        == Some((#[trigger] recipients@[k])@),
                signatures@.len() == i,
                forall|k: int|
                    0 <= k < i ==> (#[trigger] signatures@[k])@.len() == 64 && input_signature(
                        before,
                        prev,
                        k,
                        private_key@,
                    ) == Some(signatures@[k]@),
                forall|seed: Seq<u8>, k: int|
                    #![trigger ed25519_keypair(seed), signatures@[k]]
                    seed.len() == 32 && private_key@ == ed25519_keypair(seed).0 && 0 <= k < i
                        ==> accepted_under(
                        before,
                        prev,
                        k,
                        ed25519_keypair(seed).1,
                        signatures@[k]@,
                    ),
            decreases self.vin.len() - i,
        {
            proof {
                lemma_trimmed_twice(before, i as int, recipients@[i as int]@);
            }
            let digest = match Transaction::digest_for_input(&mut copy, i, &recipients[i]) {
                Err(e) => {
                    proof {
                        assert forall|j: int| 0 <= j < i implies input_digest(
                            before,
                            prev,
                            j,
                        ) is Ok by {
                            let _ = signatures@[j];
                        }
                        assert(first_digest_fault(before, prev, i as int, e));
                    }
                    return Err(e);
                },
                Ok(digest) => digest,
            };
            let signature = sign_message(digest.as_str().as_bytes(), private_key);
            signatures.push(signature);
            i = i + 1;
        }
        let mut j: usize = 0;
        while j < self.vin.len()
            invariant
                j <= self.vin.len(),
                self@.id == before.id,
                self@.vout == before.vout,
                self.vin@.len() == before.vin.len(),
                signatures@.len() == before.vin.len(),
                forall|k: int|
                    #![trigger self.vin@[k]]
                    0 <= k < j ==> self.vin@[k]@.txid == before.vin[k].txid && self.vin@[k]@.vout
                        == before.vin[k].vout && self.vin@[k]@.pub_key == before.vin[k].pub_key
                        && self.vin@[k]@.signature == signatures@[k]@,
                forall|k: int|
                    #![trigger self.vin@[k]]
                    j <= k < before.vin.len() ==> self.vin@[k]@ == before.vin[k],
            decreases self.vin.len() - j,
        {
            let input = TXInput {
                txid: self.vin[j].txid.clone(),
                vout: self.vin[j].vout,
                signature: copy_bytes(&signatures[j]),
                pub_key: copy_bytes(&self.vin[j].pub_key),
            };
            self.vin.set(j, input);
            j = j + 1;
        }
        Ok(())
    }

    /// Verify verifies signatures of Transaction inputs. A coinbase always
    /// verifies. Otherwise every input must spend an output that can be
    /// found in `prev_txs`, a validation fault if not, and the answer is
    /// whether every input's signature is accepted; the first that is not
    /// ends the check.
    pub fn verify(&self, prev_txs: &Vec<Transaction>) -> (res: Result<bool, ChainError>)
        ensures
            spec_is_coinbase(self@) ==> res == Ok::<bool, ChainError>(true),
            !spec_is_coinbase(self@) ==> verify_outcome(self@, transactions_view(prev_txs@), res),
    {
        if self.is_coinbase() {
            return Ok(true);
        }
        let recipients = match self.resolve_inputs(prev_txs) {
            None => {
                return Err(ChainError::Validation);
            },
            Some(recipients) => recipients,
        };
        let ghost prev = transactions_view(prev_txs@);
        let mut copy = self.trim_copy();
        let mut i: usize = 0;
        while i < self.vin.len()
            invariant
                i <= self.vin.len(),
                prev == transactions_view(prev_txs@),
                copy@ == trimmed(self@),
                all_resolved(self@, prev),
                recipients@.len() == self.vin@.len(),
                forall|k: int|
                    0 <= k < recipients@.len() ==> referenced_recipient(prev, self@.vin[k])
                        == Some((#[trigger] recipients@[k])@),
                forall|k: int| 0 <= k < i ==> input_verifies(self@, prev, k),
            decreases self.vin.len() - i,
        {
            proof {
                lemma_trimmed_twice(self@, i as int, recipients@[i as int]@);
            }
            let digest = match Transaction::digest_for_input(&mut copy, i, &recipients[i]) {
                Err(e) => {
                    return Err(e);
                },
                Ok(digest) => digest,
            };
            let accepted = check_signature(
                digest.as_str().as_bytes(),
                self.vin[i].pub_key.as_slice(),
                self.vin[i].signature.as_slice(),
            );
            if !accepted {
                assert(first_rejected(self@, prev, i as int));
                return Ok(false);
            }
            i = i + 1;
        }
        Ok(true)
    }

    /// The transaction as a tuple.
    pub fn to_plain(&self) -> (plain: PlainTransaction)
        ensures
            plain_transaction_view(plain) == self@,
    {
        (self.id.clone(), inputs_to_plain(&self.vin), outputs_to_plain(&self.vout))
    }

    /// The transaction that a tuple stands for.
    pub fn from_plain(plain: &PlainTransaction) -> (tx: Transaction)
        ensures
            tx@ == plain_transaction_view(*plain),
    {
        Transaction {
            id: plain.0.clone(),
            vin: inputs_from_plain(&plain.1),
            vout: outputs_from_plain(&plain.2),
        }
    }
}

/// Trimming twice is trimming once, and the signing copy of a trimmed copy is
/// that of the transaction.
pub proof fn lemma_trimmed_twice(tx: TransactionView, i: int, recipient: Seq<u8>)
    requires
        0 <= i < tx.vin.len(),
    ensures
        trimmed(trimmed(tx)) == trimmed(tx),
        signing_copy(trimmed(tx), i, recipient) == signing_copy(tx, i, recipient),
{
    assert(trimmed(trimmed(tx)).vin =~= trimmed(tx).vin);
}

/// The digest of an input does not depend on the signatures and keys that
/// the inputs hold.
pub proof fn lemma_digest_ignores_signatures(
    a: TransactionView,
    b: TransactionView,
    prev: Seq<TransactionView>,
    i: int,
)
    requires
        0 <= i < a.vin.len(),
        a.id == b.id,
        a.vout == b.vout,
        a.vin.len() == b.vin.len(),
        forall|k: int|
            0 <= k < a.vin.len() ==> a.vin[k].txid == b.vin[k].txid && a.vin[k].vout
                == b.vin[k].vout,
    ensures
        input_digest(a, prev, i) == input_digest(b, prev, i),
        referenced_recipient(prev, a.vin[i]) == referenced_recipient(prev, b.vin[i]),
{
    match referenced_recipient(prev, a.vin[i]) {
        None => {},
        Some(recipient) => {
            assert(signing_copy(a, i, recipient).vin =~= signing_copy(b, i, recipient).vin);
        },
    }
}

/// A transaction that was signed under the secret key derived from a seed of
/// 32 bytes, and whose inputs hold the public key derived from that seed,
/// verifies against the same previous transactions: every reference is
/// resolved and every input is accepted.
pub proof fn lemma_signed_transaction_verifies(
    before: TransactionView,
    after: TransactionView,
    prev: Seq<TransactionView>,
    seed: Seq<u8>,
)
    requires
        seed.len() == 32,
        ed25519_keypair(seed).1.len() == 32,
        signed_with(before, after, prev, ed25519_keypair(seed).0),
        forall|i: int|
            0 <= i < before.vin.len() ==> (#[trigger] before.vin[i]).pub_key == ed25519_keypair(
                seed,
            ).1,
    ensures
        verify_outcome(after, prev, Ok(true)),
{
    assert forall|i: int| 0 <= i < after.vin.len() implies input_verifies(after, prev, i)
        && referenced_output(prev, #[trigger] after.vin[i]) is Some by {
        lemma_digest_ignores_signatures(before, after, prev, i);
        let _ = before.vin[i];
    }
}

/// What `first_with_id` finds: the first index from `from` on at which the
/// id stands, or the length.
pub proof fn lemma_first_with_id(txs: Seq<TransactionView>, id: Seq<char>, from: int)
    requires
        0 <= from <= txs.len(),
    ensures
        from <= first_with_id(txs, id, from) <= txs.len(),
        first_with_id(txs, id, from) < txs.len() ==> txs[first_with_id(txs, id, from)].id == id,
        forall|j: int| from <= j < first_with_id(txs, id, from) ==> (#[trigger] txs[j]).id != id,
    decreases txs.len() - from,
{
    if from < txs.len() && txs[from].id != id {
        lemma_first_with_id(txs, id, from + 1);
    }
}

/// An index at which the id stands, and before which it does not, is the
/// one that `first_with_id` finds.
pub proof fn lemma_first_with_id_is(txs: Seq<TransactionView>, id: Seq<char>, from: int, k: int)
    requires
        0 <= from <= k <= txs.len(),
        k < txs.len() ==> txs[k].id == id,
        forall|j: int| from <= j < k ==> (#[trigger] txs[j]).id != id,
    ensures
        first_with_id(txs, id, from) == k,
    decreases k - from,
{
    if from < k {
        lemma_first_with_id_is(txs, id, from + 1, k);
    }
}

/// Looking a transaction up in two lists joined is looking it up in the
/// first and, where it is not there, in the second.
pub proof fn lemma_lookup_concat(a: Seq<TransactionView>, b: Seq<TransactionView>, id: Seq<char>)
    ensures
        lookup_transaction(a + b, id) == match lookup_transaction(a, id) {
            Some(tx) => Some(tx),
            None => lookup_transaction(b, id),
        },
{
    lemma_first_with_id(a, id, 0);
    lemma_first_with_id(b, id, 0);
    let ka = first_with_id(a, id, 0);
    let kb = first_with_id(b, id, 0);
    if ka < a.len() {
        lemma_first_with_id_is(a + b, id, 0, ka);
    } else {
        lemma_first_with_id_is(a + b, id, 0, a.len() + kb);
    }
}

/// A transaction that is found has the id that was asked for.
pub proof fn lemma_lookup_has_id(txs: Seq<TransactionView>, id: Seq<char>)
    ensures
        lookup_transaction(txs, id) matches Some(tx) ==> tx.id == id && txs.contains(tx),
{
    lemma_first_with_id(txs, id, 0);
}

/// What verifying returns depends on the previous transactions only through
/// the outputs that the inputs spend.
pub proof fn lemma_verify_same_references(
    tx: TransactionView,
    a: Seq<TransactionView>,
    b: Seq<TransactionView>,
    res: Result<bool, ChainError>,
)
    requires
        forall|j: int|
            0 <= j < tx.vin.len() ==> referenced_output(a, #[trigger] tx.vin[j])
                == referenced_output(b, tx.vin[j]),
    ensures
        verify_outcome(tx, a, res) == verify_outcome(tx, b, res),
{
    if verify_outcome(tx, a, res) {
        lemma_verify_transfers(tx, a, b, res);
    }
    if verify_outcome(tx, b, res) {
        lemma_verify_transfers(tx, b, a, res);
    }
}

/// What verifying returns carries over to other previous transactions
/// under which every input has the same digest and is accepted alike.
proof fn lemma_verify_transfers(
    tx: TransactionView,
    a: Seq<TransactionView>,
    b: Seq<TransactionView>,
    res: Result<bool, ChainError>,
)
    requires
        forall|j: int|
            0 <= j < tx.vin.len() ==> input_digest(tx, a, j) == input_digest(tx, b, j)
                && input_verifies(tx, a, j) == input_verifies(tx, b, j),
        all_resolved(tx, a) == all_resolved(tx, b),
        verify_outcome(tx, a, res),
    ensures
        verify_outcome(tx, b, res),
{
    match res {
        Ok(true) => {},
        Ok(false) => {
            let i = choose|i: int| first_rejected(tx, a, i);
            assert(first_rejected(tx, b, i));
        },
        Err(_) => {},
    }
}

/// What signing does depends on the previous transactions only through the
/// outputs that the inputs spend.
pub proof fn lemma_sign_same_references(
    before: TransactionView,
    after: TransactionView,
    a: Seq<TransactionView>,
    b: Seq<TransactionView>,
    private_key: Seq<u8>,
    e: ChainError,
)
    requires
        forall|j: int|
            0 <= j < before.vin.len() ==> referenced_output(a, #[trigger] before.vin[j])
                == referenced_output(b, before.vin[j]),
    ensures
        signed_with(before, after, a, private_key) ==> signed_with(before, after, b, private_key),
        sign_fault(before, a, private_key, e) ==> sign_fault(before, b, private_key, e),
{
    assert forall|j: int| 0 <= j < before.vin.len() implies input_digest(before, a, j)
        == input_digest(before, b, j) by {
        let _ = before.vin[j];
    }
    if sign_fault(before, a, private_key, e) {
        if !(private_key.len() < 64 || !all_resolved(before, a)) {
            let i = choose|i: int| first_digest_fault(before, a, i, e);
            assert(first_digest_fault(before, b, i, e));
        }
    }
}

} // verus!
