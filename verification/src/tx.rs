use crate::address::{recipient_of_address, spec_recipient};
use crate::errors::ChainError;
use crate::hashing::MAX_MESSAGE_LEN;
use crate::wallets::{hash_pub_key, spec_hash_pub_key};
use vstd::prelude::*;

verus! {

/// What a transaction input is, as mathematical values.
pub struct TXInputView {
    pub txid: Seq<char>,
    pub vout: i32,
    pub signature: Seq<u8>,
    pub pub_key: Seq<u8>,
}

/// What a transaction output is, as mathematical values.
pub struct TXOutputView {
    pub value: i32,
    pub pub_key_hash: Seq<u8>,
}

/// TXInput represents a transaction input
#[derive(Debug)]
pub struct TXInput {
    pub txid: String,
    pub vout: i32,
    pub signature: Vec<u8>,
    pub pub_key: Vec<u8>,
}

/// TXOutput represents a transaction output
#[derive(Debug)]
pub struct TXOutput {
    pub value: i32,
    pub pub_key_hash: Vec<u8>,
}

/// What an unspent output is, as mathematical values.
pub struct UnspentView {
    pub index: int,
    pub output: TXOutputView,
}

/// An output that is still unspent, with its index among the outputs of its
/// transaction
#[derive(Debug)]
pub struct UnspentOutput {
    pub index: usize,
    pub output: TXOutput,
}

/// TXOutputs collects the outputs of one transaction that are still unspent,
/// each with its index in the transaction
#[derive(Debug)]
pub struct TXOutputs {
    pub outputs: Vec<UnspentOutput>,
}

impl View for TXInput {
    type V = TXInputView;

    open spec fn view(&self) -> TXInputView {
        TXInputView {
            txid: self.txid@,
            vout: self.vout,
            signature: self.signature@,
            pub_key: self.pub_key@,
        }
    }
}

impl View for TXOutput {
    type V = TXOutputView;

    open spec fn view(&self) -> TXOutputView {
        TXOutputView { value: self.value, pub_key_hash: self.pub_key_hash@ }
    }
}

impl View for UnspentOutput {
    type V = UnspentView;

    open spec fn view(&self) -> UnspentView {
        UnspentView { index: self.index as int, output: self.output@ }
    }
}

impl View for TXOutputs {
    type V = Seq<UnspentView>;

    open spec fn view(&self) -> Seq<UnspentView> {
        unspent_view(self.outputs@)
    }
}

/// The views of a sequence of unspent outputs, in order.
pub open spec fn unspent_view(s: Seq<UnspentOutput>) -> Seq<UnspentView> {
    s.map_values(|o: UnspentOutput| o@)
}

/// The outputs of a transaction, each with its index.
pub open spec fn indexed(outputs: Seq<TXOutputView>) -> Seq<UnspentView> {
    Seq::new(outputs.len(), |i: int| UnspentView { index: i, output: outputs[i] })
}

/// The views of a sequence of inputs, in order.
pub open spec fn inputs_view(s: Seq<TXInput>) -> Seq<TXInputView> {
    s.map_values(|i: TXInput| i@)
}

/// The views of a sequence of outputs, in order.
pub open spec fn outputs_view(s: Seq<TXOutput>) -> Seq<TXOutputView> {
    s.map_values(|o: TXOutput| o@)
}

/// A copy of a byte vector.
pub fn copy_bytes(src: &Vec<u8>) -> (dst: Vec<u8>)
    ensures
        dst@ == src@,
{
    let mut dst: Vec<u8> = Vec::new();
    let mut i: usize = 0;
    while i < src.len()
        invariant
            i <= src.len(),
            dst@ == src@.subrange(0, i as int),
        decreases src.len() - i,
    {
        dst.push(src[i]);
        i = i + 1;
    }
    dst
}

/// Whether two byte strings hold the same bytes.
pub fn bytes_equal(a: &[u8], b: &[u8]) -> (same: bool)
    ensures
        same == (a@ == b@),
{
    if a.len() != b.len() {
        return false;
    }
    let mut i: usize = 0;
    while i < a.len()
        invariant
            i <= a.len(),
            a.len() == b.len(),
            a@.subrange(0, i as int) == b@.subrange(0, i as int),
        decreases a.len() - i,
    {
        if a[i] != b[i] {
            return false;
        }
        i = i + 1;
    }
    assert(a@.subrange(0, a.len() as int) =~= a@);
    assert(b@.subrange(0, b.len() as int) =~= b@);
    true
}

impl Clone for TXInput {
    fn clone(&self) -> (copy: TXInput)
        ensures
            copy@ == self@,
    {
        TXInput {
            txid: self.txid.clone(),
            vout: self.vout,
            signature: copy_bytes(&self.signature),
            pub_key: copy_bytes(&self.pub_key),
        }
    }
}

impl Clone for TXOutput {
    fn clone(&self) -> (copy: TXOutput)
        ensures
            copy@ == self@,
    {
        TXOutput { value: self.value, pub_key_hash: copy_bytes(&self.pub_key_hash) }
    }
}

/// A copy of a list of inputs.
pub fn copy_inputs(src: &Vec<TXInput>) -> (dst: Vec<TXInput>)
    ensures
        inputs_view(dst@) == inputs_view(src@),
{
    let mut dst: Vec<TXInput> = Vec::new();
    let mut i: usize = 0;
    while i < src.len()
        invariant
            i <= src.len(),
            dst@.len() == i,
            forall|k: int| 0 <= k < i ==> (#[trigger] dst@[k])@ == src@[k]@,
        decreases src.len() - i,
    {
        dst.push(src[i].clone());
        i = i + 1;
    }
    dst
}

/// A copy of a list of outputs.
pub fn copy_outputs(src: &Vec<TXOutput>) -> (dst: Vec<TXOutput>)
    ensures
        outputs_view(dst@) == outputs_view(src@),
{
    let mut dst: Vec<TXOutput> = Vec::new();
    let mut i: usize = 0;
    while i < src.len()
        invariant
            i <= src.len(),
            dst@.len() == i,
            forall|k: int| 0 <= k < i ==> (#[trigger] dst@[k])@ == src@[k]@,
        decreases src.len() - i,
    {
        dst.push(src[i].clone());
        i = i + 1;
    }
    dst
}

impl Clone for UnspentOutput {
    fn clone(&self) -> (copy: UnspentOutput)
        ensures
            copy@ == self@,
    {
        UnspentOutput { index: self.index, output: self.output.clone() }
    }
}

/// A copy of a list of unspent outputs.
pub fn copy_unspent(src: &Vec<UnspentOutput>) -> (dst: Vec<UnspentOutput>)
    ensures
        unspent_view(dst@) == unspent_view(src@),
{
    let mut dst: Vec<UnspentOutput> = Vec::new();
    let mut i: usize = 0;
    while i < src.len()
        invariant
            i <= src.len(),
            dst@.len() == i,
            forall|k: int| 0 <= k < i ==> (#[trigger] dst@[k])@ == src@[k]@,
        decreases src.len() - i,
    {
        dst.push(src[i].clone());
        i = i + 1;
    }
    dst
}

impl Clone for TXOutputs {
    fn clone(&self) -> (copy: TXOutputs)
        ensures
            copy@ == self@,
    {
        TXOutputs { outputs: copy_unspent(&self.outputs) }
    }
}

impl TXInput {
    /// Checks whether the key of this input hashes to
    /// `unlocking_data`, the recipient hash of the output it wants to spend
    pub fn can_unlock_output_with(&self, unlocking_data: &[u8]) -> (unlocks: bool)
        requires
            self.pub_key@.len() <= MAX_MESSAGE_LEN,
        ensures
            unlocks == (spec_hash_pub_key(self.pub_key@) == unlocking_data@),
    {
        let mut pub_key_hash = copy_bytes(&self.pub_key);
        hash_pub_key(&mut pub_key_hash);
        bytes_equal(pub_key_hash.as_slice(), unlocking_data)
    }
}

impl TXOutput {
    /// Creates a new TXOutput locked to the recipient hash that
    /// the address stands for; a validation fault where the text is no
    /// address
    pub fn new(value: i32, address: String) -> (res: Result<TXOutput, ChainError>)
        ensures
            match res {
                Ok(output) => spec_recipient(address@) == Some(output@.pub_key_hash)
                    && output@.value == value,
                Err(e) => e == ChainError::Validation && spec_recipient(address@) is None,
            },
    {
        match recipient_of_address(address.as_str()) {
            None => Err(ChainError::Validation),
            Some(pub_key_hash) => Ok(TXOutput { value, pub_key_hash }),
        }
    }

    /// Checks if the output is locked to the recipient hash
    /// `unlocking_data`
    pub fn can_be_unlock_with(&self, unlocking_data: &[u8]) -> (unlocks: bool)
        ensures
            unlocks == (self.pub_key_hash@ == unlocking_data@),
    {
        bytes_equal(self.pub_key_hash.as_slice(), unlocking_data)
    }
}

} // verus!
