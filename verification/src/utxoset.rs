use crate::block::{Block, BlockView};
use crate::blockchain::{newest_first, Blockchain};
use crate::codec::{
    decode_outputs, decoded_outputs, encode_outputs, encoded_outputs, text_from_utf8,
};
use crate::errors::ChainError;
use crate::store::{
    db_clear, db_entries, db_get, db_insert, db_remove, db_scan, is_scan_of, items_view,
};
use crate::transaction::{
    outputs_to_indexed, plain_unspent_view, spec_is_coinbase, transactions_view, unspent_from_plain,
    unspent_to_plain, PlainUnspent, Transaction, TransactionView,
};
use crate::tx::{bytes_equal, indexed, TXInput, TXInputView, TXOutputView, TXOutputs, UnspentView};
use crate::unspent::{
    distinct_ids, entries_map, lemma_entries_map_domain, lemma_entries_map_value, spec_utxos,
};
use vstd::prelude::*;
use vstd::utf8::{decode_utf8, encode_utf8, valid_utf8};

verus! {

/// The key under which the index holds the unspent outputs of the
/// transaction with the given id.
pub open spec fn index_key(id: Seq<char>) -> Seq<u8> {
    encode_utf8(id)
}

/// Whether `entries` is the index of the unspent outputs `utxos`: under the
/// key of each id that has unspent outputs, their encoding; and nothing else.
pub open spec fn is_index_of(
    entries: Map<Seq<u8>, Seq<u8>>,
    utxos: Map<Seq<char>, Seq<UnspentView>>,
) -> bool {
    &&& forall|key: Seq<u8>| #[trigger]
        entries.contains_key(key) ==> exists|id: Seq<char>| #[trigger]
            utxos.contains_key(id) && key == index_key(id)
    &&& forall|id: Seq<char>| #[trigger]
        utxos.contains_key(id) ==> entries.contains_key(index_key(id)) && encoded_outputs(
            utxos[id],
        ) == Some(entries[index_key(id)])
}

/// The unspent outputs without the one whose index in its transaction is
/// `vout`.
pub open spec fn without_index(outputs: Seq<UnspentView>, vout: i32) -> Seq<UnspentView>
    decreases outputs.len(),
{
    if outputs.len() == 0 {
        Seq::empty()
    } else if outputs.last().index == vout {
        without_index(outputs.drop_last(), vout)
    } else {
        without_index(outputs.drop_last(), vout).push(outputs.last())
    }
}

/// The index after an input has spent its output: the entry of the
/// transaction that the input names loses the output whose index the input
/// names, and goes where no output is left. Not found where the
/// index has no such entry.
pub open spec fn spend(entries: Map<Seq<u8>, Seq<u8>>, input: TXInputView) -> Result<
    Map<Seq<u8>, Seq<u8>>,
    ChainError,
> {
    let key = index_key(input.txid);
    if !entries.contains_key(key) {
        Err(ChainError::NotFound)
    } else {
        match decoded_outputs(entries[key]) {
            None => Err(ChainError::Serialization),
            Some(outputs) => {
                let rest = without_index(outputs, input.vout);
                if rest.len() == 0 {
                    Ok(entries.remove(key))
                } else {
                    match encoded_outputs(rest) {
                        None => Err(ChainError::Serialization),
                        Some(data) => Ok(entries.insert(key, data)),
                    }
                }
            },
        }
    }
}

/// The index after the first `n` of the inputs have spent their outputs, one
/// after the other.
pub open spec fn spend_all(
    entries: Map<Seq<u8>, Seq<u8>>,
    inputs: Seq<TXInputView>,
    n: int,
) -> Result<Map<Seq<u8>, Seq<u8>>, ChainError>
    decreases n,
{
    if n <= 0 {
        Ok(entries)
    } else {
        match spend_all(entries, inputs, n - 1) {
            Err(e) => Err(e),
            Ok(earlier) => spend(earlier, inputs[n - 1]),
        }
    }
}

/// The index after a transaction: its inputs spend their outputs, unless it
/// is a coinbase, and then its own outputs are entered under its id; a
/// transaction without an output has no entry, as an entry goes where no
/// output is left.
pub open spec fn apply_transaction(entries: Map<Seq<u8>, Seq<u8>>, tx: TransactionView) -> Result<
    Map<Seq<u8>, Seq<u8>>,
    ChainError,
> {
    let spent = if spec_is_coinbase(tx) {
        Ok(entries)
    } else {
        spend_all(entries, tx.vin, tx.vin.len() as int)
    };
    match spent {
        Err(e) => Err(e),
        Ok(earlier) => if tx.vout.len() == 0 {
            Ok(earlier.remove(index_key(tx.id)))
        } else {
            match encoded_outputs(indexed(tx.vout)) {
                None => Err(ChainError::Serialization),
                Some(data) => Ok(earlier.insert(index_key(tx.id), data)),
            }
        },
    }
}

/// The index after the first `n` of the transactions, one after the other.
pub open spec fn apply_transactions(
    entries: Map<Seq<u8>, Seq<u8>>,
    txs: Seq<TransactionView>,
    n: int,
) -> Result<Map<Seq<u8>, Seq<u8>>, ChainError>
    decreases n,
{
    if n <= 0 {
        Ok(entries)
    } else {
        match apply_transactions(entries, txs, n - 1) {
            Err(e) => Err(e),
            Ok(earlier) => apply_transaction(earlier, txs[n - 1]),
        }
    }
}

/// The index after a block: its transactions applied in their order.
pub open spec fn spec_update(entries: Map<Seq<u8>, Seq<u8>>, block: BlockView) -> Result<
    Map<Seq<u8>, Seq<u8>>,
    ChainError,
> {
    apply_transactions(entries, block.transactions, block.transactions.len() as int)
}

/// The unspent outputs that an index holds, by transaction id: what the
/// bytes under the key of each id decode to.
pub open spec fn index_model(entries: Map<Seq<u8>, Seq<u8>>) -> Map<Seq<char>, Seq<UnspentView>> {
    Map::new(
        |id: Seq<char>| entries.contains_key(index_key(id)),
        |id: Seq<char>| decoded_outputs(entries[index_key(id)]).unwrap(),
    )
}

/// Whether an index is canonical: every key is a text, and every value is
/// the encoding of the outputs that it decodes to.
pub open spec fn canonical(entries: Map<Seq<u8>, Seq<u8>>) -> bool {
    forall|key: Seq<u8>| #[trigger]
        entries.contains_key(key) ==> valid_utf8(key) && decoded_outputs(entries[key]) is Some
            && encoded_outputs(decoded_outputs(entries[key]).unwrap()) == Some(entries[key])
}

/// The unspent outputs after an input has spent its output; `None` where
/// the transaction that it names has no entry.
pub open spec fn model_spend(
    utxos: Map<Seq<char>, Seq<UnspentView>>,
    input: TXInputView,
) -> Option<Map<Seq<char>, Seq<UnspentView>>> {
    if !utxos.contains_key(input.txid) {
        None
    } else {
        let rest = without_index(utxos[input.txid], input.vout);
        if rest.len() == 0 {
            Some(utxos.remove(input.txid))
        } else {
            Some(utxos.insert(input.txid, rest))
        }
    }
}

/// The unspent outputs after the first `n` of the inputs have spent theirs.
pub open spec fn model_spend_all(
    utxos: Map<Seq<char>, Seq<UnspentView>>,
    inputs: Seq<TXInputView>,
    n: int,
) -> Option<Map<Seq<char>, Seq<UnspentView>>>
    decreases n,
{
    if n <= 0 {
        Some(utxos)
    } else {
        match model_spend_all(utxos, inputs, n - 1) {
            None => None,
            Some(earlier) => model_spend(earlier, inputs[n - 1]),
        }
    }
}

/// The unspent outputs after a transaction.
pub open spec fn model_apply(
    utxos: Map<Seq<char>, Seq<UnspentView>>,
    tx: TransactionView,
) -> Option<Map<Seq<char>, Seq<UnspentView>>> {
    let spent = if spec_is_coinbase(tx) {
        Some(utxos)
    } else {
        model_spend_all(utxos, tx.vin, tx.vin.len() as int)
    };
    match spent {
        None => None,
        Some(earlier) => if tx.vout.len() == 0 {
            Some(earlier.remove(tx.id))
        } else {
            Some(earlier.insert(tx.id, indexed(tx.vout)))
        },
    }
}

/// The unspent outputs after the first `n` of the transactions.
pub open spec fn model_apply_all(
    utxos: Map<Seq<char>, Seq<UnspentView>>,
    txs: Seq<TransactionView>,
    n: int,
) -> Option<Map<Seq<char>, Seq<UnspentView>>>
    decreases n,
{
    if n <= 0 {
        Some(utxos)
    } else {
        match model_apply_all(utxos, txs, n - 1) {
            None => None,
            Some(earlier) => model_apply(earlier, txs[n - 1]),
        }
    }
}

/// The unspent outputs after a block.
pub open spec fn model_update(
    utxos: Map<Seq<char>, Seq<UnspentView>>,
    block: BlockView,
) -> Option<Map<Seq<char>, Seq<UnspentView>>> {
    model_apply_all(utxos, block.transactions, block.transactions.len() as int)
}

/// The entries of an index by id and outputs, as mathematical values.
pub open spec fn index_view(list: Seq<(String, TXOutputs)>) -> Seq<(Seq<char>, Seq<UnspentView>)> {
    list.map_values(|entry: (String, TXOutputs)| (entry.0@, entry.1@))
}

/// The output indexes of a selection, as mathematical values.
pub open spec fn positions_view(positions: Seq<i32>) -> Seq<int> {
    positions.map_values(|p: i32| p as int)
}

/// A selection by id and output indexes, as mathematical values.
pub open spec fn selection_view(selection: Seq<(String, Vec<i32>)>) -> Seq<(Seq<char>, Seq<int>)> {
    selection.map_values(|entry: (String, Vec<i32>)| (entry.0@, positions_view(entry.1@)))
}

/// Whether an output is picked: it is locked to the recipient hash `key`,
/// and the total accumulated so far is short of the amount.
pub open spec fn picks(output: TXOutputView, key: Seq<u8>, amount: int, total: int) -> bool {
    output.pub_key_hash == key && total < amount
}

/// The total and the output indexes picked after the first `n` unspent
/// outputs of an entry, from the total `start`; `None` where a total or an
/// index leaves the range of `i32`.
pub open spec fn select_in(
    outputs: Seq<UnspentView>,
    key: Seq<u8>,
    amount: int,
    start: int,
    n: int,
) -> Option<(int, Seq<int>)>
    decreases n,
{
    if n <= 0 {
        Some((start, Seq::empty()))
    } else {
        match select_in(outputs, key, amount, start, n - 1) {
            None => None,
            Some((total, positions)) => if picks(outputs[n - 1].output, key, amount, total) {
                let sum = total + outputs[n - 1].output.value;
                if sum < i32::MIN || sum > i32::MAX || outputs[n - 1].index > i32::MAX {
                    None
                } else {
                    Some((sum, positions.push(outputs[n - 1].index)))
                }
            } else {
                Some((total, positions))
            },
        }
    }
}

/// The total and the selection after the first `e` entries of an index, in
/// their order: for each entry with a picked output its id and the indexes
/// picked.
pub open spec fn select_upto(
    entries: Seq<(Seq<char>, Seq<UnspentView>)>,
    key: Seq<u8>,
    amount: int,
    e: int,
) -> Option<(int, Seq<(Seq<char>, Seq<int>)>)>
    decreases e,
{
    if e <= 0 {
        Some((0, Seq::empty()))
    } else {
        match select_upto(entries, key, amount, e - 1) {
            None => None,
            Some((total, selection)) => match select_in(
                entries[e - 1].1,
                key,
                amount,
                total,
                entries[e - 1].1.len() as int,
            ) {
                None => None,
                Some((sum, positions)) => Some(
                    (
                        sum,
                        if positions.len() == 0 {
                            selection
                        } else {
                            selection.push((entries[e - 1].0, positions))
                        },
                    ),
                ),
            },
        }
    }
}

/// The outputs to spend for an amount, chosen among the entries of an index
/// in their order: the total that they add up to, and the selection by id
/// and output indexes.
pub open spec fn spec_select(
    entries: Seq<(Seq<char>, Seq<UnspentView>)>,
    key: Seq<u8>,
    amount: int,
) -> Option<(int, Seq<(Seq<char>, Seq<int>)>)> {
    select_upto(entries, key, amount, entries.len() as int)
}

/// The sum of the values of those of the first `n` outputs that are locked
/// to `key`.
pub open spec fn matching_sum_in(outputs: Seq<UnspentView>, key: Seq<u8>, n: int) -> int
    decreases n,
{
    if n <= 0 {
        0
    } else {
        matching_sum_in(outputs, key, n - 1) + if outputs[n - 1].output.pub_key_hash == key {
            outputs[n - 1].output.value as int
        } else {
            0
        }
    }
}

/// The sum of the values of the outputs, in the first `e` entries, that are
/// locked to `key`.
pub open spec fn matching_sum(
    entries: Seq<(Seq<char>, Seq<UnspentView>)>,
    key: Seq<u8>,
    e: int,
) -> int
    decreases e,
{
    if e <= 0 {
        0
    } else {
        matching_sum(entries, key, e - 1) + matching_sum_in(
            entries[e - 1].1,
            key,
            entries[e - 1].1.len() as int,
        )
    }
}

/// Whether no output of the entries has a negative value.
pub open spec fn no_negative_value(entries: Seq<(Seq<char>, Seq<UnspentView>)>) -> bool {
    forall|e: int, j: int|
        0 <= e < entries.len() && 0 <= j < entries[e].1.len() ==> (
        #[trigger] entries[e].1[j]).output.value
            >= 0
}

/// Whether every scanned item reads as an entry of the index: its key is a
/// text and its value decodes as outputs.
pub open spec fn index_readable(items: Seq<(Seq<u8>, Seq<u8>)>) -> bool {
    forall|i: int|
        0 <= i < items.len() ==> valid_utf8((#[trigger] items[i]).0) && decoded_outputs(
            items[i].1,
        ) is Some
}

/// The entries that scanned items read as.
pub open spec fn read_index(items: Seq<(Seq<u8>, Seq<u8>)>) -> Seq<(Seq<char>, Seq<UnspentView>)> {
    items.map_values(
        |item: (Seq<u8>, Seq<u8>)| (decode_utf8(item.0), decoded_outputs(item.1).unwrap()),
    )
}

/// What a search for spendable outputs gives on the full scan of an index.
pub open spec fn spendable_outcome(
    items: Seq<(Seq<u8>, Seq<u8>)>,
    key: Seq<u8>,
    amount: int,
    res: Result<(int, Seq<(Seq<char>, Seq<int>)>), ChainError>,
) -> bool {
    if !index_readable(items) {
        res == Err::<(int, Seq<(Seq<char>, Seq<int>)>), ChainError>(ChainError::Serialization)
    } else {
        match spec_select(read_index(items), key, amount) {
            None => res == Err::<(int, Seq<(Seq<char>, Seq<int>)>), ChainError>(
                ChainError::Overflow,
            ),
            Some(found) => res == Ok::<(int, Seq<(Seq<char>, Seq<int>)>), ChainError>(found),
        }
    }
}

///UTXOSet represents UTXO set
pub struct UTXOSet {
    /// The chain that the index is derived from.
    pub blockchain: Blockchain,
    /// The store that holds the index.
    pub db: sled::Db,
}

/// The unspent outputs without the one whose index is `vout`.
pub fn unspent_without(outputs: &Vec<PlainUnspent>, vout: i32) -> (rest: Vec<PlainUnspent>)
    ensures
        plain_unspent_view(rest@) == without_index(plain_unspent_view(outputs@), vout),
{
    let ghost view = plain_unspent_view(outputs@);
    let mut rest: Vec<PlainUnspent> = Vec::new();
    let mut i: usize = 0;
    assert(view.subrange(0, 0) =~= Seq::<UnspentView>::empty());
    while i < outputs.len()
        invariant
            i <= outputs.len(),
            view == plain_unspent_view(outputs@),
            plain_unspent_view(rest@) == without_index(view.subrange(0, i as int), vout),
        decreases outputs.len() - i,
    {
        assert(view.subrange(0, i + 1).drop_last() =~= view.subrange(0, i as int));
        assert(view.subrange(0, i + 1).last() == view[i as int]);
        if !(vout >= 0 && outputs[i].0 == vout as usize) {
            let ghost before = plain_unspent_view(rest@);
            rest.push((outputs[i].0, (outputs[i].1.0, crate::tx::copy_bytes(&outputs[i].1.1))));
            assert(plain_unspent_view(rest@) =~= before.push(view[i as int]));
        }
        i = i + 1;
    }
    assert(view.subrange(0, outputs.len() as int) =~= view);
    rest
}

/// Lets an input spend its output in the index.
fn spend_output(db: &mut sled::Db, input: &TXInput) -> (res: Result<(), ChainError>)
    ensures
        res is Ok ==> model_spend(index_model(db_entries(*old(db))), input@) == Some(
            index_model(db_entries(*final(db))),
        ) && (canonical(db_entries(*old(db))) ==> canonical(db_entries(*final(db)))),
        match res {
            Ok(()) => spend(db_entries(*old(db)), input@) == Ok::<
                Map<Seq<u8>, Seq<u8>>,
                ChainError,
            >(db_entries(*final(db))),
            Err(e) => e == ChainError::Storage || spend(db_entries(*old(db)), input@) == Err::<
                Map<Seq<u8>, Seq<u8>>,
                ChainError,
            >(e),
        },
{
    let key = input.txid.as_str().as_bytes();
    let bytes = match db_get(db, key) {
        Err(_) => {
            return Err(ChainError::Storage);
        },
        Ok(None) => {
            return Err(ChainError::NotFound);
        },
        Ok(Some(bytes)) => bytes,
    };
    let stored = match decode_outputs(bytes.as_slice()) {
        Err(_) => {
            return Err(ChainError::Serialization);
        },
        Ok(stored) => stored,
    };
    let outputs = unspent_without(&stored, input.vout);
    proof {
        lemma_model_remove(db_entries(*db), input@.txid);
    }
    if outputs.len() == 0 {
        match db_remove(db, key) {
            Err(_) => Err(ChainError::Storage),
            Ok(()) => Ok(()),
        }
    } else {
        let data = match encode_outputs(&outputs) {
            Err(_) => {
                return Err(ChainError::Serialization);
            },
            Ok(data) => data,
        };
        proof {
            lemma_model_insert(
                db_entries(*db),
                input@.txid,
                data@,
                plain_unspent_view(outputs@),
            );
        }
        match db_insert(db, key, data.as_slice()) {
            Err(_) => Err(ChainError::Storage),
            Ok(()) => Ok(()),
        }
    }
}

/// Applies a transaction to the index.
fn apply_to_index(db: &mut sled::Db, tx: &Transaction) -> (res: Result<(), ChainError>)
    ensures
        res is Ok ==> model_apply(index_model(db_entries(*old(db))), tx@) == Some(
            index_model(db_entries(*final(db))),
        ) && (canonical(db_entries(*old(db))) ==> canonical(db_entries(*final(db)))),
        match res {
            Ok(()) => apply_transaction(db_entries(*old(db)), tx@) == Ok::<
                Map<Seq<u8>, Seq<u8>>,
                ChainError,
            >(db_entries(*final(db))),
            Err(e) => e == ChainError::Storage || apply_transaction(db_entries(*old(db)), tx@)
                == Err::<Map<Seq<u8>, Seq<u8>>, ChainError>(e),
        },
{
    let ghost before = db_entries(*db);
    if !tx.is_coinbase() {
        let mut k: usize = 0;
        while k < tx.vin.len()
            invariant
                k <= tx.vin.len(),
                before == db_entries(*old(db)),
                !spec_is_coinbase(tx@),
                spend_all(before, tx@.vin, k as int) == Ok::<Map<Seq<u8>, Seq<u8>>, ChainError>(
                    db_entries(*db),
                ),
                model_spend_all(index_model(before), tx@.vin, k as int) == Some(
                    index_model(db_entries(*db)),
                ),
                canonical(before) ==> canonical(db_entries(*db)),
            decreases tx.vin.len() - k,
        {
            match spend_output(db, &tx.vin[k]) {
                Err(e) => {
                    proof {
                        if e != ChainError::Storage {
                            lemma_spend_all_fault(
                                before,
                                tx@.vin,
                                k as int + 1,
                                tx@.vin.len() as int,
                            );
                        }
                    }
                    return Err(e);
                },
                Ok(()) => {},
            }
            k = k + 1;
        }
    }
    if tx.vout.len() == 0 {
        proof {
            lemma_model_remove(db_entries(*db), tx@.id);
        }
        return match db_remove(db, tx.id.as_str().as_bytes()) {
            Err(_) => Err(ChainError::Storage),
            Ok(()) => Ok(()),
        };
    }
    let data = match encode_outputs(&outputs_to_indexed(&tx.vout)) {
        Err(_) => {
            return Err(ChainError::Serialization);
        },
        Ok(data) => data,
    };
    proof {
        lemma_model_insert(db_entries(*db), tx@.id, data@, indexed(tx@.vout));
    }
    match db_insert(db, tx.id.as_str().as_bytes(), data.as_slice()) {
        Err(_) => Err(ChainError::Storage),
        Ok(()) => Ok(()),
    }
}

/// The entries that scanned items read as; a serialization fault where one
/// does not read.
pub fn read_entries(items: &Vec<(Vec<u8>, Vec<u8>)>) -> (res: Result<
    Vec<(String, TXOutputs)>,
    ChainError,
>)
    ensures
        match res {
            Ok(entries) => index_readable(items_view(items@)) && index_view(entries@)
                == read_index(items_view(items@)),
            Err(e) => e == ChainError::Serialization && !index_readable(items_view(items@)),
        },
{
    let ghost view = items_view(items@);
    let mut entries: Vec<(String, TXOutputs)> = Vec::new();
    let mut i: usize = 0;
    while i < items.len()
        invariant
            i <= items.len(),
            view == items_view(items@),
            entries@.len() == i,
            forall|k: int|
                0 <= k < i ==> valid_utf8((#[trigger] view[k]).0) && decoded_outputs(
                    view[k].1,
                ) is Some,
            forall|k: int|
                0 <= k < i ==> (#[trigger] entries@[k]).0@ == decode_utf8(view[k].0)
                    && entries@[k].1@ == decoded_outputs(view[k].1).unwrap(),
        decreases items.len() - i,
    {
        assert(view[i as int] == (items@[i as int].0@, items@[i as int].1@));
        let id = match text_from_utf8(crate::tx::copy_bytes(&items[i].0)) {
            None => {
                return Err(ChainError::Serialization);
            },
            Some(id) => id,
        };
        let outputs = match decode_outputs(items[i].1.as_slice()) {
            Err(_) => {
                return Err(ChainError::Serialization);
            },
            Ok(plain) => unspent_from_plain(&plain),
        };
        entries.push((id, TXOutputs { outputs }));
        i = i + 1;
    }
    Ok(entries)
}

/// The outputs to spend for an amount, chosen among the entries of an index
/// in their order; an overflow where a total or an index leaves the range
/// of `i32`.
pub fn select_spendable(
    entries: &Vec<(String, TXOutputs)>,
    pub_key_hash: &[u8],
    amount: i32,
) -> (res: Result<(i32, Vec<(String, Vec<i32>)>), ChainError>)
    ensures
        match res {
            Ok((total, selection)) => spec_select(
                index_view(entries@),
                pub_key_hash@,
                amount as int,
            ) == Some((total as int, selection_view(selection@))),
            Err(e) => e == ChainError::Overflow && spec_select(
                index_view(entries@),
                pub_key_hash@,
                amount as int,
            ) is None,
        },
{
    let ghost view = index_view(entries@);
    let ghost key = pub_key_hash@;
    let mut total: i32 = 0;
    let mut selection: Vec<(String, Vec<i32>)> = Vec::new();
    let mut e: usize = 0;
    while e < entries.len()
        invariant
            e <= entries.len(),
            view == index_view(entries@),
            key == pub_key_hash@,
            select_upto(view, key, amount as int, e as int) == Some(
                (total as int, selection_view(selection@)),
            ),
        decreases entries.len() - e,
    {
        let outputs = &entries[e].1.outputs;
        let ghost outs = view[e as int].1;
        let ghost start = total as int;
        let mut positions: Vec<i32> = Vec::new();
        let mut j: usize = 0;
        while j < outputs.len()
            invariant
                j <= outputs.len(),
                e < entries.len(),
                view == index_view(entries@),
                outs == view[e as int].1,
                outs == crate::tx::unspent_view(outputs@),
                key == pub_key_hash@,
                select_upto(view, key, amount as int, e as int) is Some,
                select_upto(view, key, amount as int, e as int)->Some_0.0 == start,
                select_in(outs, key, amount as int, start, j as int) == Some(
                    (total as int, positions_view(positions@)),
                ),
            decreases outputs.len() - j,
        {
            if bytes_equal(outputs[j].output.pub_key_hash.as_slice(), pub_key_hash) && total
                < amount {
                let sum: i64 = total as i64 + outputs[j].output.value as i64;
                if sum < i32::MIN as i64 || sum > i32::MAX as i64 || outputs[j].index
                    > i32::MAX as usize {
                    proof {
                        lemma_select_in_fault(
                            outs,
                            key,
                            amount as int,
                            start,
                            j as int + 1,
                            outs.len() as int,
                        );
                        lemma_select_upto_fault(
                            view,
                            key,
                            amount as int,
                            e as int + 1,
                            view.len() as int,
                        );
                    }
                    return Err(ChainError::Overflow);
                }
                total = sum as i32;
                positions.push(outputs[j].index as i32);
            }
            j = j + 1;
        }
        if positions.len() > 0 {
            selection.push((entries[e].0.clone(), positions));
        }
        e = e + 1;
    }
    Ok((total, selection))
}

impl UTXOSet {
    /// What the index holds.
    pub open spec fn index(&self) -> Map<Seq<u8>, Seq<u8>> {
        db_entries(self.db)
    }

    /// The index over a chain, held in the store `db`.
    pub fn new(blockchain: Blockchain, db: sled::Db) -> (set: UTXOSet)
        ensures
            set.blockchain == blockchain,
            set.index() == db_entries(db),
    {
        UTXOSet { blockchain, db }
    }

    /// Reindex rebuilds the UTXO set: the index is emptied and then holds,
    /// for each transaction id with an unspent output in the chain, the
    /// entry of those outputs, each with its index in the transaction
    pub fn reindex(&mut self) -> (res: Result<(), ChainError>)
        ensures
            final(self).blockchain == old(self).blockchain,
            match res {
                Ok(()) => is_index_of(
                    final(self).index(),
                    spec_utxos(newest_first(old(self).blockchain.blocks())),
                ) && canonical(final(self).index()) && index_model(final(self).index())
                    == spec_utxos(newest_first(old(self).blockchain.blocks())),
                Err(e) => e == ChainError::Storage || (e == ChainError::Serialization && exists|
                    id: Seq<char>,
                | #[trigger]
                    spec_utxos(newest_first(old(self).blockchain.blocks())).contains_key(id)
                        && encoded_outputs(
                        spec_utxos(newest_first(old(self).blockchain.blocks()))[id],
                    ) is None),
            },
    {
        let utxos = self.blockchain.find_UTXO()?;
        if db_clear(&mut self.db).is_err() {
            return Err(ChainError::Storage);
        }
        let ghost list = utxos@;
        let mut i: usize = 0;
        while i < utxos.len()
            invariant
                i <= utxos.len(),
                list == utxos@,
                distinct_ids(list),
                self.blockchain == old(self).blockchain,
                entries_map(list) == spec_utxos(newest_first(old(self).blockchain.blocks())),
                forall|key: Seq<u8>| #[trigger]
                    self.index().contains_key(key) ==> exists|k: int|
                        0 <= k < i && key == index_key((#[trigger] list[k]).0@),
                forall|k: int|
                    0 <= k < i ==> self.index().contains_key(index_key((#[trigger] list[k]).0@))
                        && encoded_outputs(list[k].1@) == Some(self.index()[index_key(list[k].0@)])
                        && decoded_outputs(self.index()[index_key(list[k].0@)]) == Some(
                        list[k].1@,
                    ),
            decreases utxos.len() - i,
        {
            let data = match encode_outputs(&unspent_to_plain(&utxos[i].1.outputs)) {
                Err(_) => {
                    proof {
                        lemma_entries_map_value(list, i as int);
                    }
                    return Err(ChainError::Serialization);
                },
                Ok(data) => data,
            };
            if db_insert(&mut self.db, utxos[i].0.as_str().as_bytes(), data.as_slice()).is_err() {
                return Err(ChainError::Storage);
            }
            proof {
                assert(self.index().contains_key(index_key(list[i as int].0@)));
                assert forall|k: int| 0 <= k < i + 1 implies self.index().contains_key(
                    index_key((#[trigger] list[k]).0@),
                ) && encoded_outputs(list[k].1@) == Some(self.index()[index_key(list[k].0@)])
                    && decoded_outputs(self.index()[index_key(list[k].0@)]) == Some(
                    list[k].1@,
                ) by {
                    if k < i {
                        vstd::utf8::encode_utf8_decode_utf8(list[k].0@);
                        vstd::utf8::encode_utf8_decode_utf8(list[i as int].0@);
                    }
                }
            }
            i = i + 1;
        }
        proof {
            let utxo_map = entries_map(list);
            assert forall|key: Seq<u8>| #[trigger] self.index().contains_key(key) implies exists|
                id: Seq<char>,
            | #[trigger] utxo_map.contains_key(id) && key == index_key(id) by {
                let k = choose|k: int|
                    0 <= k < list.len() && key == index_key((#[trigger] list[k]).0@);
                lemma_entries_map_value(list, k);
            }
            assert forall|id: Seq<char>| #[trigger]
                utxo_map.contains_key(id) implies self.index().contains_key(index_key(id))
                && encoded_outputs(utxo_map[id]) == Some(self.index()[index_key(id)])
                && decoded_outputs(self.index()[index_key(id)]) == Some(utxo_map[id]) by {
                lemma_entries_map_domain(list, id);
                let k = choose|k: int| 0 <= k < list.len() && (#[trigger] list[k]).0@ == id;
                lemma_entries_map_value(list, k);
            }
            assert forall|key: Seq<u8>| #[trigger]
                self.index().contains_key(key) implies valid_utf8(key) && decoded_outputs(
                self.index()[key],
            ) is Some && encoded_outputs(decoded_outputs(self.index()[key]).unwrap()) == Some(
                self.index()[key],
            ) by {
                let k = choose|k: int|
                    0 <= k < list.len() && key == index_key((#[trigger] list[k]).0@);
                vstd::utf8::encode_utf8_valid_utf8(list[k].0@);
            }
            assert forall|id: Seq<char>| index_model(self.index()).contains_key(id)
                == utxo_map.contains_key(id) by {
                if self.index().contains_key(index_key(id)) {
                    let k = choose|k: int|
                        0 <= k < list.len() && index_key(id) == index_key(
                            (#[trigger] list[k]).0@,
                        );
                    vstd::utf8::encode_utf8_decode_utf8(id);
                    vstd::utf8::encode_utf8_decode_utf8(list[k].0@);
                    lemma_entries_map_value(list, k);
                }
            }
            assert forall|id: Seq<char>| utxo_map.contains_key(id) implies index_model(
                self.index(),
            )[id] == utxo_map[id] by {
            }
        }
        Ok(())
    }

    /// Update updates the UTXO set with transactions from the Block: each
    /// input of a transaction that is no coinbase takes away, from the entry
    /// of the transaction that it names, the output whose index it names, and
    /// then the transaction's own outputs are entered, each with its index
    ///
    /// The Block is considered to be the tip of a blockchain
    pub fn update(&mut self, block: &Block) -> (res: Result<(), ChainError>)
        ensures
            final(self).blockchain == old(self).blockchain,
            block@.transactions.len() == 0 ==> res is Ok,
            res is Ok ==> model_update(index_model(old(self).index()), block@) == Some(
                index_model(final(self).index()),
            ) && (canonical(old(self).index()) ==> canonical(final(self).index())),
            match res {
                Ok(()) => spec_update(old(self).index(), block@) == Ok::<
                    Map<Seq<u8>, Seq<u8>>,
                    ChainError,
                >(final(self).index()),
                Err(e) => e == ChainError::Storage || spec_update(old(self).index(), block@)
                    == Err::<Map<Seq<u8>, Seq<u8>>, ChainError>(e),
            },
    {
        let ghost before = self.index();
        let txs = block.get_transaction();
        let mut p: usize = 0;
        while p < txs.len()
            invariant
                p <= txs.len(),
                self.blockchain == old(self).blockchain,
                before == old(self).index(),
                transactions_view(txs@) == block@.transactions,
                apply_transactions(before, block@.transactions, p as int) == Ok::<
                    Map<Seq<u8>, Seq<u8>>,
                    ChainError,
                >(self.index()),
                model_apply_all(index_model(before), block@.transactions, p as int) == Some(
                    index_model(self.index()),
                ),
                canonical(before) ==> canonical(self.index()),
            decreases txs.len() - p,
        {
            match apply_to_index(&mut self.db, &txs[p]) {
                Err(e) => {
                    proof {
                        if e != ChainError::Storage {
                            lemma_apply_fault(
                                before,
                                block@.transactions,
                                p as int + 1,
                                block@.transactions.len() as int,
                            );
                        }
                    }
                    return Err(e);
                },
                Ok(()) => {},
            }
            p = p + 1;
        }
        Ok(())
    }

    /// Finds the outputs to spend for an amount: the
    /// index is scanned in the order of its keys, and the outputs locked to
    /// the recipient hash are picked until their values reach the amount
    pub fn find_spendable_outputs(&self, pub_key_hash: &[u8], amount: i32) -> (res: Result<
        (i32, Vec<(String, Vec<i32>)>),
        ChainError,
    >)
        ensures
            res == Err::<(i32, Vec<(String, Vec<i32>)>), ChainError>(ChainError::Storage)
                || exists|items: Seq<(Seq<u8>, Seq<u8>)>| #[trigger]
                is_scan_of(items, self.index()) && spendable_outcome(
                    items,
                    pub_key_hash@,
                    amount as int,
                    match res {
                        Ok((total, selection)) => Ok((total as int, selection_view(selection@))),
                        Err(e) => Err(e),
                    },
                ),
    {
        let items = match db_scan(&self.db) {
            Err(_) => {
                return Err(ChainError::Storage);
            },
            Ok(items) => items,
        };
        assert(is_scan_of(items_view(items@), self.index()));
        let entries = read_entries(&items)?;
        select_spendable(&entries, pub_key_hash, amount)
    }

    /// Returns the number of transactions in the UTXO set:
    /// the number of entries that the index holds
    pub fn count_transactions(&self) -> (res: Result<i32, ChainError>)
        ensures
            match res {
                Ok(count) => self.index().dom().finite() && self.index().dom().len() == count,
                Err(e) => e == ChainError::Storage || (e == ChainError::Overflow
                    && self.index().dom().finite() && self.index().dom().len() > i32::MAX),
            },
    {
        match db_scan(&self.db) {
            Err(_) => Err(ChainError::Storage),
            Ok(items) => {
                proof {
                    crate::store::lemma_scan_counts_entries(items_view(items@), self.index());
                }
                if items.len() > i32::MAX as usize {
                    Err(ChainError::Overflow)
                } else {
                    Ok(items.len() as i32)
                }
            },
        }
    }
}

/// Writing bytes that decode to outputs under the key of an id puts the
/// outputs under the id, and keeps a canonical index canonical where the
/// bytes are the encoding of the outputs.
pub proof fn lemma_model_insert(
    entries: Map<Seq<u8>, Seq<u8>>,
    id: Seq<char>,
    data: Seq<u8>,
    outputs: Seq<UnspentView>,
)
    requires
        decoded_outputs(data) == Some(outputs),
    ensures
        index_model(entries.insert(index_key(id), data)) == index_model(entries).insert(
            id,
            outputs,
        ),
        canonical(entries) && encoded_outputs(outputs) == Some(data) ==> canonical(
            entries.insert(index_key(id), data),
        ),
{
    let after = entries.insert(index_key(id), data);
    assert forall|other: Seq<char>| other != id implies index_key(other) != index_key(id) by {
        vstd::utf8::encode_utf8_decode_utf8(other);
        vstd::utf8::encode_utf8_decode_utf8(id);
    }
    vstd::utf8::encode_utf8_valid_utf8(id);
}

/// Removing the key of an id removes the id, and keeps a canonical index
/// canonical.
pub proof fn lemma_model_remove(entries: Map<Seq<u8>, Seq<u8>>, id: Seq<char>)
    ensures
        index_model(entries.remove(index_key(id))) == index_model(entries).remove(id),
        canonical(entries) ==> canonical(entries.remove(index_key(id))),
{
    let after = entries.remove(index_key(id));
    assert forall|other: Seq<char>| other != id implies index_key(other) != index_key(id) by {
        vstd::utf8::encode_utf8_decode_utf8(other);
        vstd::utf8::encode_utf8_decode_utf8(id);
    }
}

/// Two canonical indexes that hold the same unspent outputs are the same.
pub proof fn lemma_canonical_determined(a: Map<Seq<u8>, Seq<u8>>, b: Map<Seq<u8>, Seq<u8>>)
    requires
        canonical(a),
        canonical(b),
        index_model(a) == index_model(b),
    ensures
        a == b,
{
    assert forall|key: Seq<u8>| a.contains_key(key) == b.contains_key(key) && (a.contains_key(key)
        ==> a[key] == b[key]) by {
        if a.contains_key(key) || b.contains_key(key) {
            vstd::utf8::decode_utf8_encode_utf8(key);
            let id = decode_utf8(key);
            assert(index_model(b).contains_key(id) == b.contains_key(key));
            assert(index_model(b)[id] == decoded_outputs(b[key]).unwrap());
        }
    }
}

/// A fault among the first inputs is the fault of them all.
proof fn lemma_spend_all_fault(
    entries: Map<Seq<u8>, Seq<u8>>,
    inputs: Seq<TXInputView>,
    n: int,
    m: int,
)
    requires
        n <= m,
        spend_all(entries, inputs, n) is Err,
    ensures
        spend_all(entries, inputs, m) == spend_all(entries, inputs, n),
    decreases m - n,
{
    if n < m {
        lemma_spend_all_fault(entries, inputs, n, m - 1);
    }
}

/// A fault among the first transactions is the fault of them all.
proof fn lemma_apply_fault(
    entries: Map<Seq<u8>, Seq<u8>>,
    txs: Seq<TransactionView>,
    n: int,
    m: int,
)
    requires
        n <= m,
        apply_transactions(entries, txs, n) is Err,
    ensures
        apply_transactions(entries, txs, m) == apply_transactions(entries, txs, n),
    decreases m - n,
{
    if n < m {
        lemma_apply_fault(entries, txs, n, m - 1);
    }
}

/// An overflow among the first outputs is one of them all.
proof fn lemma_select_in_fault(
    outputs: Seq<UnspentView>,
    key: Seq<u8>,
    amount: int,
    start: int,
    n: int,
    m: int,
)
    requires
        n <= m,
        select_in(outputs, key, amount, start, n) is None,
    ensures
        select_in(outputs, key, amount, start, m) is None,
    decreases m - n,
{
    if n < m {
        lemma_select_in_fault(outputs, key, amount, start, n, m - 1);
    }
}

/// An overflow among the first entries is one of them all.
proof fn lemma_select_upto_fault(
    entries: Seq<(Seq<char>, Seq<UnspentView>)>,
    key: Seq<u8>,
    amount: int,
    n: int,
    m: int,
)
    requires
        n <= m,
        select_upto(entries, key, amount, n) is None,
    ensures
        select_upto(entries, key, amount, m) is None,
    decreases m - n,
{
    if n < m {
        lemma_select_upto_fault(entries, key, amount, n, m - 1);
    }
}

/// The total after the first `n` outputs of an entry: the sum of the
/// matching values where it stays short of the amount, never more than that
/// sum where no value is negative, and unchanged once the amount is reached.
proof fn lemma_select_in_bounds(
    outputs: Seq<UnspentView>,
    key: Seq<u8>,
    amount: int,
    start: int,
    n: int,
)
    requires
        0 <= n <= outputs.len(),
        select_in(outputs, key, amount, start, n) is Some,
    ensures
        ({
            let total = select_in(outputs, key, amount, start, n)->Some_0.0;
            &&& total < amount ==> total == start + matching_sum_in(outputs, key, n)
            &&& (forall|j: int| 0 <= j < n ==> (#[trigger] outputs[j]).output.value >= 0) ==> start
                <= total <= start + matching_sum_in(outputs, key, n)
            &&& start >= amount ==> total == start
        }),
    decreases n,
{
    if n > 0 {
        lemma_select_in_bounds(outputs, key, amount, start, n - 1);
    }
}

/// The total after the first `e` entries: the sum of the matching values
/// where it stays short of the amount, and never more than that sum where no
/// value is negative.
proof fn lemma_select_upto_bounds(
    entries: Seq<(Seq<char>, Seq<UnspentView>)>,
    key: Seq<u8>,
    amount: int,
    e: int,
)
    requires
        0 <= e <= entries.len(),
        select_upto(entries, key, amount, e) is Some,
    ensures
        ({
            let total = select_upto(entries, key, amount, e)->Some_0.0;
            &&& total < amount ==> total == matching_sum(entries, key, e)
            &&& no_negative_value(entries) ==> 0 <= total <= matching_sum(entries, key, e)
        }),
    decreases e,
{
    if e > 0 {
        lemma_select_upto_bounds(entries, key, amount, e - 1);
        let before = select_upto(entries, key, amount, e - 1)->Some_0.0;
        let outputs = entries[e - 1].1;
        lemma_select_in_bounds(outputs, key, amount, before, outputs.len() as int);
    }
}

/// The total of a selection is never more than the sum of the unspent
/// outputs that are locked to the recipient hash, where no output has a
/// negative value.
pub proof fn lemma_selection_within_funds(
    entries: Seq<(Seq<char>, Seq<UnspentView>)>,
    key: Seq<u8>,
    amount: int,
)
    requires
        spec_select(entries, key, amount) is Some,
        no_negative_value(entries),
    ensures
        spec_select(entries, key, amount)->Some_0.0 <= matching_sum(
            entries,
            key,
            entries.len() as int,
        ),
{
    lemma_select_upto_bounds(entries, key, amount, entries.len() as int);
}

/// Where the unspent outputs that are locked to the recipient hash add up to
/// the amount, so does the selection.
pub proof fn lemma_selection_sufficient(
    entries: Seq<(Seq<char>, Seq<UnspentView>)>,
    key: Seq<u8>,
    amount: int,
)
    requires
        spec_select(entries, key, amount) is Some,
        matching_sum(entries, key, entries.len() as int) >= amount,
    ensures
        spec_select(entries, key, amount)->Some_0.0 >= amount,
{
    lemma_select_upto_bounds(entries, key, amount, entries.len() as int);
}

} // verus!
