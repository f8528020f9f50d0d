use crate::codec::same_text;
use crate::errors::ChainError;
use crate::hashing::MAX_MESSAGE_LEN;
use crate::transaction::{
    first_with_id, lemma_first_with_id, position_of, spec_is_coinbase, transactions_view,
    Transaction, TransactionView,
};
use crate::tx::{unspent_view, TXInputView, TXOutputs, UnspentOutput, UnspentView};
use crate::wallets::spec_hash_pub_key;
use vstd::prelude::*;

verus! {

/// Whether a transaction spends the output `index` of the transaction with
/// the id `id`: it is no coinbase and one of its inputs names that output.
pub open spec fn spends(tx: TransactionView, id: Seq<char>, index: int) -> bool {
    !spec_is_coinbase(tx) && exists|k: int|
        0 <= k < tx.vin.len() && (#[trigger] tx.vin[k]).txid == id && tx.vin[k].vout == index
}

/// Whether one of the transactions before position `p` spends the output.
pub open spec fn spent_before(
    txs: Seq<TransactionView>,
    p: int,
    id: Seq<char>,
    index: int,
) -> bool {
    exists|q: int| 0 <= q < p && spends(#[trigger] txs[q], id, index)
}

/// Those of the first `n` outputs of the transaction at position `p` that no
/// transaction before it spends, in their order.
pub open spec fn surviving_upto(txs: Seq<TransactionView>, p: int, n: int) -> Seq<UnspentView>
    decreases n,
{
    if n <= 0 {
        Seq::empty()
    } else if spent_before(txs, p, txs[p].id, n - 1) {
        surviving_upto(txs, p, n - 1)
    } else {
        surviving_upto(txs, p, n - 1).push(UnspentView { index: n - 1, output: txs[p].vout[n - 1] })
    }
}

/// The outputs of the transaction at position `p` that no transaction before
/// it spends.
pub open spec fn surviving(txs: Seq<TransactionView>, p: int) -> Seq<UnspentView> {
    surviving_upto(txs, p, txs[p].vout.len() as int)
}

/// The unspent outputs that the first `n` transactions of a traversal
/// leave, where the traversal runs from the newest transaction to the
/// oldest: under each id, the surviving outputs of the first of them with
/// that id, which is the newest; an id has an entry where an output of that
/// transaction survives.
pub open spec fn utxos_upto(txs: Seq<TransactionView>, n: int) -> Map<Seq<char>, Seq<UnspentView>> {
    Map::new(
        |id: Seq<char>|
            first_with_id(txs, id, 0) < n && surviving(txs, first_with_id(txs, id, 0)).len() > 0,
        |id: Seq<char>| surviving(txs, first_with_id(txs, id, 0)),
    )
}

/// The unspent outputs of a traversal's transactions, newest first: under
/// each id, the outputs of the newest transaction with that id that no
/// transaction after it spends.
pub open spec fn spec_utxos(txs: Seq<TransactionView>) -> Map<Seq<char>, Seq<UnspentView>> {
    utxos_upto(txs, txs.len() as int)
}

/// Whether one of the inputs of a transaction names the output.
pub open spec fn names(tx: TransactionView, id: Seq<char>, index: int) -> bool {
    exists|k: int|
        0 <= k < tx.vin.len() && (#[trigger] tx.vin[k]).txid == id && tx.vin[k].vout == index
}

/// Whether a list of spent outputs names the output.
pub open spec fn recorded(spent: Seq<(String, i32)>, id: Seq<char>, index: int) -> bool {
    exists|k: int| 0 <= k < spent.len() && (#[trigger] spent[k]).0@ == id && spent[k].1 == index
}

/// Whether a list of spent outputs names exactly the outputs that the
/// transactions before position `p` spend.
pub open spec fn records(spent: Seq<(String, i32)>, txs: Seq<TransactionView>, p: int) -> bool {
    forall|id: Seq<char>, index: int| #[trigger]
        recorded(spent, id, index) <==> spent_before(txs, p, id, index)
}

/// Those of the first `n` outputs of a transaction that a list of spent
/// outputs does not name, in their order.
pub open spec fn kept_upto(tx: TransactionView, spent: Seq<(String, i32)>, n: int) -> Seq<
    UnspentView,
>
    decreases n,
{
    if n <= 0 {
        Seq::empty()
    } else if recorded(spent, tx.id, n - 1) {
        kept_upto(tx, spent, n - 1)
    } else {
        kept_upto(tx, spent, n - 1).push(UnspentView { index: n - 1, output: tx.vout[n - 1] })
    }
}

/// The map that a list of entries stands for; of two entries with one id the
/// later counts.
pub open spec fn entries_map(list: Seq<(String, TXOutputs)>) -> Map<Seq<char>, Seq<UnspentView>>
    decreases list.len(),
{
    if list.len() == 0 {
        Map::empty()
    } else {
        entries_map(list.drop_last()).insert(list.last().0@, list.last().1@)
    }
}

/// Whether no id stands twice in a list of entries.
pub open spec fn distinct_ids(list: Seq<(String, TXOutputs)>) -> bool {
    forall|i: int, j: int|
        0 <= i < j < list.len() ==> (#[trigger] list[i]).0@ != (#[trigger] list[j]).0@
}

/// Whether the key of an input hashes to the recipient hash `address`.
pub open spec fn unlocks(input: TXInputView, address: Seq<u8>) -> bool {
    spec_hash_pub_key(input.pub_key) == address
}

/// Whether one of the first `k` inputs of a transaction has a key that
/// hashes to `address` and names the output.
pub open spec fn named_for(
    tx: TransactionView,
    address: Seq<u8>,
    k: int,
    id: Seq<char>,
    index: int,
) -> bool {
    exists|j: int|
        0 <= j < k && unlocks(#[trigger] tx.vin[j], address) && tx.vin[j].txid == id
            && tx.vin[j].vout == index
}

/// Whether a transaction spends the output for `address`: it is no coinbase,
/// and one of its inputs has a key that hashes to `address` and names the
/// output.
pub open spec fn spends_for(
    tx: TransactionView,
    address: Seq<u8>,
    id: Seq<char>,
    index: int,
) -> bool {
    !spec_is_coinbase(tx) && named_for(tx, address, tx.vin.len() as int, id, index)
}

/// Whether one of the transactions before position `p` spends the output
/// for `address`.
pub open spec fn spent_before_for(
    txs: Seq<TransactionView>,
    p: int,
    address: Seq<u8>,
    id: Seq<char>,
    index: int,
) -> bool {
    exists|q: int| 0 <= q < p && spends_for(#[trigger] txs[q], address, id, index)
}

/// The transaction at position `p`, once for each of its first `n` outputs
/// that is locked to `address` and that no transaction before it spends for
/// `address`.
pub open spec fn owned_upto(txs: Seq<TransactionView>, p: int, address: Seq<u8>, n: int) -> Seq<
    TransactionView,
>
    decreases n,
{
    if n <= 0 {
        Seq::empty()
    } else if !spent_before_for(txs, p, address, txs[p].id, n - 1) && txs[p].vout[n
        - 1].pub_key_hash == address {
        owned_upto(txs, p, address, n - 1).push(txs[p])
    } else {
        owned_upto(txs, p, address, n - 1)
    }
}

/// The transactions, among the first `n` of a traversal, that hold an
/// unspent output locked to `address`, each once for each such output.
pub open spec fn unspent_transactions_upto(
    txs: Seq<TransactionView>,
    address: Seq<u8>,
    n: int,
) -> Seq<TransactionView>
    decreases n,
{
    if n <= 0 {
        Seq::empty()
    } else {
        unspent_transactions_upto(txs, address, n - 1) + owned_upto(
            txs,
            n - 1,
            address,
            txs[n - 1].vout.len() as int,
        )
    }
}

/// Whether the key of some input of the transactions is too long to hash.
pub open spec fn has_oversize_key(txs: Seq<TransactionView>) -> bool {
    exists|p: int, k: int|
        0 <= p < txs.len() && 0 <= k < txs[p].vin.len() && !spec_is_coinbase(txs[p]) && (
        #[trigger] txs[p].vin[k]).pub_key.len() > MAX_MESSAGE_LEN
}

/// Whether a list of spent outputs names exactly the outputs that the
/// transactions before position `p` spend for `address`.
pub open spec fn records_for(
    spent: Seq<(String, i32)>,
    txs: Seq<TransactionView>,
    p: int,
    address: Seq<u8>,
) -> bool {
    forall|id: Seq<char>, index: int| #[trigger]
        recorded(spent, id, index) <==> spent_before_for(txs, p, address, id, index)
}

/// Whether a list of spent outputs names the output `index` of the
/// transaction with the id `id`.
pub fn is_recorded(spent: &Vec<(String, i32)>, id: &str, index: usize) -> (found: bool)
    ensures
        found == recorded(spent@, id@, index as int),
{
    let mut k: usize = 0;
    while k < spent.len()
        invariant
            k <= spent.len(),
            forall|j: int|
                0 <= j < k ==> !((#[trigger] spent@[j]).0@ == id@ && spent@[j].1 == index as int),
        decreases spent.len() - k,
    {
        let vout = spent[k].1;
        if vout >= 0 && vout as usize == index && same_text(spent[k].0.as_str(), id) {
            return true;
        }
        k = k + 1;
    }
    false
}

/// The outputs of a transaction that a list of spent outputs does not name,
/// each with its index.
pub fn kept_outputs(tx: &Transaction, spent: &Vec<(String, i32)>) -> (kept: Vec<UnspentOutput>)
    ensures
        unspent_view(kept@) == kept_upto(tx@, spent@, tx@.vout.len() as int),
{
    let mut kept: Vec<UnspentOutput> = Vec::new();
    let mut index: usize = 0;
    while index < tx.vout.len()
        invariant
            index <= tx.vout.len(),
            unspent_view(kept@) == kept_upto(tx@, spent@, index as int),
        decreases tx.vout.len() - index,
    {
        if !is_recorded(spent, tx.id.as_str(), index) {
            let ghost before = unspent_view(kept@);
            kept.push(UnspentOutput { index, output: tx.vout[index].clone() });
            assert(unspent_view(kept@) =~= before.push(
                UnspentView { index: index as int, output: tx@.vout[index as int] },
            ));
        }
        index = index + 1;
    }
    kept
}

/// Adds the outputs that the inputs of a transaction name to a list of spent
/// outputs.
pub fn record_inputs(spent: &mut Vec<(String, i32)>, tx: &Transaction)
    ensures
        forall|id: Seq<char>, index: int| #[trigger]
            recorded(final(spent)@, id, index) <==> recorded(old(spent)@, id, index) || names(
                tx@,
                id,
                index,
            ),
{
    let ghost before = spent@;
    let mut k: usize = 0;
    while k < tx.vin.len()
        invariant
            k <= tx.vin.len(),
            spent@.len() == before.len() + k,
            forall|j: int| 0 <= j < before.len() ==> spent@[j] == before[j],
            forall|j: int|
                #![trigger spent@[before.len() + j]]
                0 <= j < k ==> spent@[before.len() + j].0@ == tx@.vin[j].txid && spent@[before.len()
                    + j].1 == tx@.vin[j].vout,
        decreases tx.vin.len() - k,
    {
        spent.push((tx.vin[k].txid.clone(), tx.vin[k].vout));
        k = k + 1;
    }
    proof {
        let after = spent@;
        assert forall|id: Seq<char>, index: int| #[trigger]
            recorded(after, id, index) <==> recorded(before, id, index) || names(
                tx@,
                id,
                index,
            ) by {
            if recorded(after, id, index) {
                let j = choose|j: int|
                    0 <= j < after.len() && (#[trigger] after[j]).0@ == id && after[j].1 == index;
                if j < before.len() {
                    assert(before[j].0@ == id && before[j].1 == index);
                } else {
                    let i = j - before.len();
                    assert(after[before.len() + i] == after[j]);
                }
            }
            if recorded(before, id, index) {
                let j = choose|j: int|
                    0 <= j < before.len() && (#[trigger] before[j]).0@ == id && before[j].1
                        == index;
                assert(after[j].0@ == id && after[j].1 == index);
            }
            if names(tx@, id, index) {
                let i = choose|i: int|
                    0 <= i < tx@.vin.len() && (#[trigger] tx@.vin[i]).txid == id && tx@.vin[i].vout
                        == index;
                assert(after[before.len() + i].0@ == id && after[before.len() + i].1 == index);
            }
        }
    }
}

/// The unspent outputs of a traversal's transactions, newest first: for
/// each id one entry at most, which holds the outputs of the newest
/// transaction with that id that no transaction after it spends.
pub fn unspent_outputs(txs: &Vec<Transaction>) -> (utxos: Vec<(String, TXOutputs)>)
    ensures
        distinct_ids(utxos@),
        entries_map(utxos@) == spec_utxos(transactions_view(txs@)),
{
    let ghost view = transactions_view(txs@);
    let mut utxos: Vec<(String, TXOutputs)> = Vec::new();
    let mut spent: Vec<(String, i32)> = Vec::new();
    let mut p: usize = 0;
    assert(entries_map(utxos@) =~= utxos_upto(view, 0)) by {
        assert forall|id: Seq<char>| !utxos_upto(view, 0).contains_key(id) by {
            lemma_first_with_id(view, id, 0);
        }
    }
    while p < txs.len()
        invariant
            p <= txs.len(),
            view == transactions_view(txs@),
            distinct_ids(utxos@),
            forall|k: int|
                0 <= k < utxos@.len() ==> first_with_id(view, (#[trigger] utxos@[k]).0@, 0) < p,
            entries_map(utxos@) == utxos_upto(view, p as int),
            records(spent@, view, p as int),
        decreases txs.len() - p,
    {
        let tx = &txs[p];
        assert(view[p as int] == tx@);
        let kept = kept_outputs(tx, &spent);
        proof {
            lemma_kept_is_surviving(view, spent@, p as int, tx@.vout.len() as int);
            lemma_first_with_id(view, tx@.id, 0);
        }
        let first = position_of(txs, tx.id.as_str());
        let ghost before = utxos@;
        let newest = match first {
            Some(k) => k == p,
            None => false,
        };
        if newest && kept.len() > 0 {
            let entry = (tx.id.clone(), TXOutputs { outputs: kept });
            utxos.push(entry);
            proof {
                assert(utxos@.drop_last() =~= before);
                assert forall|i: int, j: int| 0 <= i < j < utxos@.len() implies (
                #[trigger] utxos@[i]).0@ != (#[trigger] utxos@[j]).0@ by {
                    if j < before.len() {
                        assert(before[i].0@ != before[j].0@);
                    } else {
                        assert(first_with_id(view, before[i].0@, 0) < p);
                    }
                }
            }
        }
        proof {
            let target = utxos_upto(view, p + 1);
            let now = entries_map(utxos@);
            assert forall|id: Seq<char>|
                #![trigger now.contains_key(id)]
                #![trigger target.contains_key(id)]
                now.contains_key(id) == target.contains_key(id) && (target.contains_key(id)
                    ==> now[id] == target[id]) by {
                lemma_first_with_id(view, id, 0);
                assert(utxos_upto(view, p as int).contains_key(id) == entries_map(
                    before,
                ).contains_key(id));
            }
            assert(now =~= target);
        }
        if !tx.is_coinbase() {
            record_inputs(&mut spent, tx);
        }
        p = p + 1;
    }
    utxos
}

/// Adds to a list of spent outputs those that the inputs of a transaction
/// name with a key that hashes to `address`; `false`, and the list in some
/// state, where a key is too long to hash.
fn record_inputs_for(spent: &mut Vec<(String, i32)>, tx: &Transaction, address: &[u8]) -> (done:
    bool)
    ensures
        done ==> forall|id: Seq<char>, index: int| #[trigger]
            recorded(final(spent)@, id, index) <==> recorded(old(spent)@, id, index) || named_for(
                tx@,
                address@,
                tx@.vin.len() as int,
                id,
                index,
            ),
        done ==> forall|k: int|
            0 <= k < tx@.vin.len() ==> (#[trigger] tx@.vin[k]).pub_key.len() <= MAX_MESSAGE_LEN,
        !done ==> exists|k: int|
            0 <= k < tx@.vin.len() && (#[trigger] tx@.vin[k]).pub_key.len() > MAX_MESSAGE_LEN,
{
    let ghost before = spent@;
    let mut k: usize = 0;
    while k < tx.vin.len()
        invariant
            k <= tx.vin.len(),
            before == old(spent)@,
            forall|j: int|
                0 <= j < k ==> (#[trigger] tx@.vin[j]).pub_key.len() <= MAX_MESSAGE_LEN,
            forall|id: Seq<char>, index: int| #[trigger]
                recorded(spent@, id, index) <==> recorded(before, id, index) || named_for(
                    tx@,
                    address@,
                    k as int,
                    id,
                    index,
                ),
        decreases tx.vin.len() - k,
    {
        assert(tx@.vin[k as int] == tx.vin@[k as int]@);
        if tx.vin[k].pub_key.len() as u64 > MAX_MESSAGE_LEN {
            return false;
        }
        let ghost earlier = spent@;
        let unlocking = tx.vin[k].can_unlock_output_with(address);
        if unlocking {
            spent.push((tx.vin[k].txid.clone(), tx.vin[k].vout));
        }
        proof {
            assert forall|id: Seq<char>, index: int| #[trigger]
                recorded(spent@, id, index) <==> recorded(before, id, index) || named_for(
                    tx@,
                    address@,
                    k + 1,
                    id,
                    index,
                ) by {
                lemma_named_for_step(tx@, address@, k as int, id, index);
                if unlocking {
                    lemma_recorded_push(
                        earlier,
                        (tx.vin@[k as int].txid, tx.vin@[k as int].vout),
                        id,
                        index,
                    );
                }
            }
        }
        k = k + 1;
    }
    true
}

/// The transactions of a traversal that hold an unspent output locked to
/// the recipient hash `address`, each once for each such output; an output
/// counts as spent where an earlier transaction of the traversal names it
/// in an input whose key hashes to `address`.
pub fn unspent_transactions(txs: &Vec<Transaction>, address: &[u8]) -> (res: Result<
    Vec<Transaction>,
    ChainError,
>)
    ensures
        match res {
            Ok(found) => !has_oversize_key(transactions_view(txs@)) && transactions_view(found@)
                == unspent_transactions_upto(
                transactions_view(txs@),
                address@,
                txs@.len() as int,
            ),
            Err(e) => e == ChainError::Oversize && has_oversize_key(transactions_view(txs@)),
        },
{
    let ghost view = transactions_view(txs@);
    let mut found: Vec<Transaction> = Vec::new();
    let mut spent: Vec<(String, i32)> = Vec::new();
    let mut p: usize = 0;
    while p < txs.len()
        invariant
            p <= txs.len(),
            view == transactions_view(txs@),
            transactions_view(found@) == unspent_transactions_upto(view, address@, p as int),
            records_for(spent@, view, p as int, address@),
            forall|q: int, k: int|
                0 <= q < p && 0 <= k < view[q].vin.len() && !spec_is_coinbase(view[q]) ==> (
                #[trigger] view[q].vin[k]).pub_key.len() <= MAX_MESSAGE_LEN,
        decreases txs.len() - p,
    {
        let tx = &txs[p];
        let ghost before = transactions_view(found@);
        let mut index: usize = 0;
        while index < tx.vout.len()
            invariant
                index <= tx.vout.len(),
                p < txs.len(),
                view == transactions_view(txs@),
                view[p as int] == tx@,
                records_for(spent@, view, p as int, address@),
                transactions_view(found@) == before + owned_upto(
                    view,
                    p as int,
                    address@,
                    index as int,
                ),
            decreases tx.vout.len() - index,
        {
            if !is_recorded(&spent, tx.id.as_str(), index) && tx.vout[index].can_be_unlock_with(
                address,
            ) {
                found.push(tx.clone());
                assert(before + owned_upto(view, p as int, address@, index as int).push(tx@)
                    =~= (before + owned_upto(view, p as int, address@, index as int)).push(tx@));
            }
            index = index + 1;
        }
        if !tx.is_coinbase() {
            if !record_inputs_for(&mut spent, tx, address) {
                return Err(ChainError::Oversize);
            }
        }
        p = p + 1;
    }
    Ok(found)
}

/// An id has an entry in the map exactly where it stands in the list.
pub proof fn lemma_entries_map_domain(list: Seq<(String, TXOutputs)>, id: Seq<char>)
    ensures
        entries_map(list).contains_key(id) <==> exists|k: int|
            0 <= k < list.len() && (#[trigger] list[k]).0@ == id,
    decreases list.len(),
{
    if list.len() > 0 {
        let front = list.drop_last();
        lemma_entries_map_domain(front, id);
        if exists|k: int| 0 <= k < list.len() && (#[trigger] list[k]).0@ == id {
            let k = choose|k: int| 0 <= k < list.len() && (#[trigger] list[k]).0@ == id;
            if k < list.len() - 1 {
                assert(front[k].0@ == id);
            }
        }
    }
}

/// In a list without a repeated id, the map holds under each id the outputs
/// of its entry.
pub proof fn lemma_entries_map_value(list: Seq<(String, TXOutputs)>, k: int)
    requires
        distinct_ids(list),
        0 <= k < list.len(),
    ensures
        entries_map(list).contains_key(list[k].0@),
        entries_map(list)[list[k].0@] == list[k].1@,
    decreases list.len(),
{
    let front = list.drop_last();
    if k < list.len() - 1 {
        lemma_entries_map_value(front, k);
    }
}

/// With the list of what the transactions before `p` spend, the outputs kept
/// are the surviving ones.
pub proof fn lemma_kept_is_surviving(
    txs: Seq<TransactionView>,
    spent: Seq<(String, i32)>,
    p: int,
    n: int,
)
    requires
        records(spent, txs, p),
    ensures
        kept_upto(txs[p], spent, n) == surviving_upto(txs, p, n),
    decreases n,
{
    if n > 0 {
        lemma_kept_is_surviving(txs, spent, p, n - 1);
    }
}

/// A list with one more entry names what the list named and what the
/// entry names.
proof fn lemma_recorded_push(
    spent: Seq<(String, i32)>,
    entry: (String, i32),
    id: Seq<char>,
    index: int,
)
    ensures
        recorded(spent.push(entry), id, index) <==> recorded(spent, id, index) || (entry.0@ == id
            && entry.1 == index),
{
    let after = spent.push(entry);
    if recorded(spent, id, index) {
        let k = choose|k: int|
            0 <= k < spent.len() && (#[trigger] spent[k]).0@ == id && spent[k].1 == index;
        assert(after[k].0@ == id && after[k].1 == index);
    }
    if entry.0@ == id && entry.1 == index {
        assert(after[spent.len() as int].0@ == id && after[spent.len() as int].1 == index);
    }
}

/// What the first `k + 1` inputs name for an address is what the first `k`
/// name and what input `k` names.
proof fn lemma_named_for_step(
    tx: TransactionView,
    address: Seq<u8>,
    k: int,
    id: Seq<char>,
    index: int,
)
    requires
        0 <= k < tx.vin.len(),
    ensures
        named_for(tx, address, k + 1, id, index) <==> named_for(tx, address, k, id, index) || (
        unlocks(tx.vin[k], address) && tx.vin[k].txid == id && tx.vin[k].vout == index),
{
}

} // verus!
