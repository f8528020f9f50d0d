use crate::transaction::{
    first_with_id, lemma_first_with_id, lemma_first_with_id_is, reversed, spec_is_coinbase,
    TransactionView,
};
use crate::tx::{indexed, TXOutputView, UnspentView};
use crate::unspent::{spec_utxos, spends, spent_before, surviving, surviving_upto};
use crate::utxoset::{
    canonical, index_model, lemma_canonical_determined, model_apply, model_apply_all, model_spend,
    model_spend_all, without_index,
};
use vstd::prelude::*;

verus! {

/// Those of the first `n` outputs whose index `gone` does not hold of, each
/// with its index, in their order.
pub open spec fn keep(outputs: Seq<TXOutputView>, gone: Set<int>, n: int) -> Seq<UnspentView>
    decreases n,
{
    if n <= 0 {
        Seq::empty()
    } else if gone.contains(n - 1) {
        keep(outputs, gone, n - 1)
    } else {
        keep(outputs, gone, n - 1).push(UnspentView { index: n - 1, output: outputs[n - 1] })
    }
}

/// Whether one of the first `k` inputs of a transaction, which is no
/// coinbase, names the output.
pub open spec fn named_by_first(tx: TransactionView, k: int, id: Seq<char>, index: int) -> bool {
    !spec_is_coinbase(tx) && exists|j: int|
        0 <= j < k && (#[trigger] tx.vin[j]).txid == id && tx.vin[j].vout == index
}

/// The indexes of the outputs of the transaction at position `q` of a
/// traversal that are spent once the first `k` inputs of a newer transaction
/// `tx` are applied: by a transaction after it in the chain, or by one of
/// those inputs.
pub open spec fn spent_so_far(
    txs: Seq<TransactionView>,
    tx: TransactionView,
    k: int,
    q: int,
) -> Set<int> {
    Set::new(|i: int| spent_before(txs, q, txs[q].id, i) || named_by_first(tx, k, txs[q].id, i))
}

/// What is left of the newest transaction with the id `id` by then.
pub open spec fn left(
    txs: Seq<TransactionView>,
    tx: TransactionView,
    k: int,
    id: Seq<char>,
) -> Seq<UnspentView> {
    let q = first_with_id(txs, id, 0);
    keep(txs[q].vout, spent_so_far(txs, tx, k, q), txs[q].vout.len() as int)
}

/// Whether `utxos` is what is unspent once the first `k` inputs of a newer
/// transaction `tx` are applied: under each id what is left of the newest
/// transaction with that id, where anything is.
pub open spec fn state_after(
    utxos: Map<Seq<char>, Seq<UnspentView>>,
    txs: Seq<TransactionView>,
    tx: TransactionView,
    k: int,
) -> bool {
    forall|id: Seq<char>|
        (#[trigger] utxos.contains_key(id) <==> first_with_id(txs, id, 0) < txs.len() && left(
            txs,
            tx,
            k,
            id,
        ).len() > 0) && (utxos.contains_key(id) ==> utxos[id] == left(txs, tx, k, id))
}

/// What is kept depends on `gone` only through what it says of the indexes.
pub proof fn lemma_keep_alike(outputs: Seq<TXOutputView>, a: Set<int>, b: Set<int>, n: int)
    requires
        forall|i: int| 0 <= i < n ==> a.contains(i) == b.contains(i),
    ensures
        keep(outputs, a, n) == keep(outputs, b, n),
    decreases n,
{
    if n > 0 {
        lemma_keep_alike(outputs, a, b, n - 1);
    }
}

/// Where none of the first `n` outputs is gone, all of them are kept.
pub proof fn lemma_keep_all(outputs: Seq<TXOutputView>, gone: Set<int>, n: int)
    requires
        0 <= n <= outputs.len(),
        forall|i: int| 0 <= i < n ==> !gone.contains(i),
    ensures
        keep(outputs, gone, n) == indexed(outputs).subrange(0, n),
    decreases n,
{
    if n > 0 {
        lemma_keep_all(outputs, gone, n - 1);
        assert(indexed(outputs).subrange(0, n - 1).push(
            UnspentView { index: n - 1, output: outputs[n - 1] },
        ) =~= indexed(outputs).subrange(0, n));
    } else {
        assert(indexed(outputs).subrange(0, 0) =~= Seq::<UnspentView>::empty());
    }
}

/// To take the output with the index `v` away from what is kept is to let
/// the output `v` be gone too.
pub proof fn lemma_keep_without(
    outputs: Seq<TXOutputView>,
    gone: Set<int>,
    also: Set<int>,
    v: i32,
    n: int,
)
    requires
        forall|i: int| 0 <= i < n ==> also.contains(i) == (gone.contains(i) || i == v),
    ensures
        without_index(keep(outputs, gone, n), v) == keep(outputs, also, n),
    decreases n,
{
    if n > 0 {
        lemma_keep_without(outputs, gone, also, v, n - 1);
        let before = keep(outputs, gone, n - 1);
        let last = UnspentView { index: n - 1, output: outputs[n - 1] };
        if !gone.contains(n - 1) {
            assert(before.push(last).drop_last() =~= before);
            assert(before.push(last).last() == last);
        }
    }
}

/// The surviving outputs are those kept when the outputs that an earlier
/// transaction of the traversal spends are gone.
pub proof fn lemma_surviving_is_kept(txs: Seq<TransactionView>, p: int, n: int)
    ensures
        surviving_upto(txs, p, n) == keep(
            txs[p].vout,
            Set::new(|i: int| spent_before(txs, p, txs[p].id, i)),
            n,
        ),
    decreases n,
{
    if n > 0 {
        lemma_surviving_is_kept(txs, p, n - 1);
    }
}

/// What the first `k + 1` inputs name is what the first `k` name and what
/// input `k` names.
proof fn lemma_named_step(tx: TransactionView, k: int, id: Seq<char>, index: int)
    requires
        !spec_is_coinbase(tx),
        0 <= k < tx.vin.len(),
    ensures
        named_by_first(tx, k + 1, id, index) <==> named_by_first(tx, k, id, index) || (
        tx.vin[k].txid == id && tx.vin[k].vout == index),
{
    if named_by_first(tx, k + 1, id, index) {
        let j = choose|j: int|
            0 <= j < k + 1 && (#[trigger] tx.vin[j]).txid == id && tx.vin[j].vout == index;
        if j < k {
            assert(named_by_first(tx, k, id, index));
        }
    }
    if named_by_first(tx, k, id, index) {
        let j = choose|j: int|
            0 <= j < k && (#[trigger] tx.vin[j]).txid == id && tx.vin[j].vout == index;
        assert(0 <= j < k + 1 && tx.vin[j].txid == id && tx.vin[j].vout == index);
    }
    if tx.vin[k].txid == id && tx.vin[k].vout == index {
        assert(0 <= k < k + 1 && tx.vin[k].txid == id && tx.vin[k].vout == index);
    }
}

/// With a transaction put before a traversal, the first transaction with an
/// id is that transaction, where it has the id, and else the first of the
/// traversal, one place on.
proof fn lemma_first_prepended(txs: Seq<TransactionView>, tx: TransactionView, id: Seq<char>)
    ensures
        first_with_id(seq![tx] + txs, id, 0) == if tx.id == id {
            0
        } else {
            first_with_id(txs, id, 0) + 1
        },
{
    let all = seq![tx] + txs;
    assert(all[0] == tx);
    if tx.id != id {
        lemma_first_with_id(txs, id, 0);
        let f = first_with_id(txs, id, 0);
        assert forall|j: int| 0 <= j < f + 1 implies (#[trigger] all[j]).id != id by {
            if j > 0 {
                assert(all[j] == txs[j - 1]);
            }
        }
        if f < txs.len() {
            assert(all[f + 1] == txs[f]);
        }
        lemma_first_with_id_is(all, id, 0, f + 1);
    }
}

/// With a transaction put before a traversal, an output is spent before a
/// place of the traversal where that transaction spends it or a transaction
/// before that place does.
proof fn lemma_spent_before_prepended(
    txs: Seq<TransactionView>,
    tx: TransactionView,
    q: int,
    id: Seq<char>,
    index: int,
)
    requires
        0 <= q <= txs.len(),
    ensures
        spent_before(seq![tx] + txs, q + 1, id, index) <==> spends(tx, id, index) || spent_before(
            txs,
            q,
            id,
            index,
        ),
{
    let all = seq![tx] + txs;
    assert(all[0] == tx);
    if spent_before(all, q + 1, id, index) {
        let c = choose|c: int| 0 <= c < q + 1 && spends(#[trigger] all[c], id, index);
        if c > 0 {
            assert(all[c] == txs[c - 1]);
            assert(0 <= c - 1 < q && spends(txs[c - 1], id, index));
        }
    }
    if spends(tx, id, index) {
        assert(0 <= 0 < q + 1 && spends(all[0], id, index));
    }
    if spent_before(txs, q, id, index) {
        let c = choose|c: int| 0 <= c < q && spends(#[trigger] txs[c], id, index);
        assert(all[c + 1] == txs[c]);
        assert(0 <= c + 1 < q + 1 && spends(all[c + 1], id, index));
    }
}

/// Before any input of a newer transaction is applied, what is unspent is
/// what the traversal leaves.
proof fn lemma_state_at_start(txs: Seq<TransactionView>, tx: TransactionView)
    ensures
        state_after(spec_utxos(txs), txs, tx, 0),
{
    let utxos = spec_utxos(txs);
    assert forall|id: Seq<char>|
        (#[trigger] utxos.contains_key(id) <==> first_with_id(txs, id, 0) < txs.len() && left(
            txs,
            tx,
            0,
            id,
        ).len() > 0) && (utxos.contains_key(id) ==> utxos[id] == left(txs, tx, 0, id)) by {
        let q = first_with_id(txs, id, 0);
        lemma_surviving_is_kept(txs, q, txs[q].vout.len() as int);
        lemma_keep_alike(
            txs[q].vout,
            spent_so_far(txs, tx, 0, q),
            Set::new(|i: int| spent_before(txs, q, txs[q].id, i)),
            txs[q].vout.len() as int,
        );
        assert(left(txs, tx, 0, id) == surviving(txs, q));
    }
}

/// An input that can be applied takes its output away, and what is unspent
/// then is what is left after one input more.
proof fn lemma_spend_step(
    txs: Seq<TransactionView>,
    tx: TransactionView,
    k: int,
    utxos: Map<Seq<char>, Seq<UnspentView>>,
)
    requires
        !spec_is_coinbase(tx),
        0 <= k < tx.vin.len(),
        state_after(utxos, txs, tx, k),
        model_spend(utxos, tx.vin[k]) is Some,
    ensures
        state_after(model_spend(utxos, tx.vin[k])->Some_0, txs, tx, k + 1),
{
    let input = tx.vin[k];
    let named = input.txid;
    let next = model_spend(utxos, input)->Some_0;
    assert(utxos.contains_key(named));
    assert forall|id: Seq<char>|
        (#[trigger] next.contains_key(id) <==> first_with_id(txs, id, 0) < txs.len() && left(
            txs,
            tx,
            k + 1,
            id,
        ).len() > 0) && (next.contains_key(id) ==> next[id] == left(txs, tx, k + 1, id)) by {
        let q = first_with_id(txs, id, 0);
        lemma_first_with_id(txs, id, 0);
        assert(utxos.contains_key(id) <==> q < txs.len() && left(txs, tx, k, id).len() > 0);
        if q < txs.len() {
            let outs = txs[q].vout;
            let before = spent_so_far(txs, tx, k, q);
            let after = spent_so_far(txs, tx, k + 1, q);
            if id == named {
                assert forall|i: int| 0 <= i < outs.len() implies after.contains(i) == (
                before.contains(i) || i == input.vout) by {
                    lemma_named_step(tx, k, id, i);
                }
                lemma_keep_without(outs, before, after, input.vout, outs.len() as int);
            } else {
                assert forall|i: int| 0 <= i < outs.len() implies after.contains(i)
                    == before.contains(i) by {
                    lemma_named_step(tx, k, id, i);
                }
                lemma_keep_alike(outs, after, before, outs.len() as int);
            }
        }
    }
}

/// Where the first `k` inputs of a transaction can be applied, what is
/// unspent then is what is left after them.
proof fn lemma_spend_prefix(
    txs: Seq<TransactionView>,
    tx: TransactionView,
    k: int,
    utxos: Map<Seq<char>, Seq<UnspentView>>,
)
    requires
        !spec_is_coinbase(tx),
        0 <= k <= tx.vin.len(),
        state_after(utxos, txs, tx, 0),
        model_spend_all(utxos, tx.vin, k) is Some,
    ensures
        state_after(model_spend_all(utxos, tx.vin, k)->Some_0, txs, tx, k),
    decreases k,
{
    if k > 0 {
        lemma_spend_prefix(txs, tx, k - 1, utxos);
        lemma_spend_step(txs, tx, k - 1, model_spend_all(utxos, tx.vin, k - 1)->Some_0);
    }
}

/// Applying a transaction, where it can be applied, to the unspent outputs
/// of a chain gives the unspent outputs of the chain with the transaction as
/// its newest.
pub proof fn lemma_apply_agrees_with_rebuild(txs: Seq<TransactionView>, tx: TransactionView)
    requires
        model_apply(spec_utxos(txs), tx) is Some,
    ensures
        model_apply(spec_utxos(txs), tx) == Some(spec_utxos(seq![tx] + txs)),
{
    let all = seq![tx] + txs;
    let start = spec_utxos(txs);
    let k = if spec_is_coinbase(tx) {
        0
    } else {
        tx.vin.len() as int
    };
    let spent = if spec_is_coinbase(tx) {
        start
    } else {
        model_spend_all(start, tx.vin, tx.vin.len() as int)->Some_0
    };
    lemma_state_at_start(txs, tx);
    if !spec_is_coinbase(tx) {
        lemma_spend_prefix(txs, tx, tx.vin.len() as int, start);
    }
    assert(state_after(spent, txs, tx, k));
    let updated = model_apply(start, tx)->Some_0;
    let rebuilt = spec_utxos(all);
    assert(all[0] == tx);
    assert forall|id: Seq<char>|
        #![trigger updated.contains_key(id)]
        #![trigger rebuilt.contains_key(id)]
        updated.contains_key(id) == rebuilt.contains_key(id) && (updated.contains_key(id)
            ==> updated[id] == rebuilt[id]) by {
        lemma_first_prepended(txs, tx, id);
        let q = first_with_id(txs, id, 0);
        lemma_first_with_id(txs, id, 0);
        if id == tx.id {
            lemma_surviving_is_kept(all, 0, tx.vout.len() as int);
            lemma_keep_all(
                tx.vout,
                Set::new(|i: int| spent_before(all, 0, all[0].id, i)),
                tx.vout.len() as int,
            );
            assert(indexed(tx.vout).subrange(0, tx.vout.len() as int) =~= indexed(tx.vout));
            assert(surviving(all, 0) == indexed(tx.vout));
        } else {
            assert(spent.contains_key(id) <==> q < txs.len() && left(txs, tx, k, id).len() > 0);
            if q < txs.len() {
                assert(all[q + 1] == txs[q]);
                lemma_surviving_is_kept(all, q + 1, txs[q].vout.len() as int);
                assert forall|i: int| 0 <= i < txs[q].vout.len() implies Set::new(
                    |i: int| spent_before(all, q + 1, all[q + 1].id, i),
                ).contains(i) == spent_so_far(txs, tx, k, q).contains(i) by {
                    lemma_spent_before_prepended(txs, tx, q, txs[q].id, i);
                }
                lemma_keep_alike(
                    txs[q].vout,
                    Set::new(|i: int| spent_before(all, q + 1, all[q + 1].id, i)),
                    spent_so_far(txs, tx, k, q),
                    txs[q].vout.len() as int,
                );
                assert(surviving(all, q + 1) == left(txs, tx, k, id));
            }
        }
    }
    assert(updated =~= rebuilt);
}

/// Where the first `p` transactions of a block can be applied to the unspent
/// outputs of the older chain, they give the unspent outputs of the chain
/// with those transactions as its newest.
proof fn lemma_apply_prefix(older: Seq<TransactionView>, block: Seq<TransactionView>, p: int)
    requires
        0 <= p <= block.len(),
        model_apply_all(spec_utxos(older), block, p) is Some,
    ensures
        model_apply_all(spec_utxos(older), block, p) == Some(
            spec_utxos(reversed(block.subrange(0, p)) + older),
        ),
    decreases p,
{
    if p == 0 {
        assert(reversed(block.subrange(0, 0)) + older =~= older);
    } else {
        lemma_apply_prefix(older, block, p - 1);
        let earlier = reversed(block.subrange(0, p - 1)) + older;
        lemma_apply_agrees_with_rebuild(earlier, block[p - 1]);
        assert(seq![block[p - 1]] + earlier =~= reversed(block.subrange(0, p)) + older);
    }
}

/// Applying a block, where it can be applied, to the unspent outputs of the
/// older chain gives the unspent outputs of the chain with the block on top:
/// an index kept up by updates holds what a rebuild gives. Both chains are
/// written newest transaction first, the block in its own order.
pub proof fn lemma_update_agrees_with_reindex(
    older: Seq<TransactionView>,
    block: Seq<TransactionView>,
)
    requires
        model_apply_all(spec_utxos(older), block, block.len() as int) is Some,
    ensures
        model_apply_all(spec_utxos(older), block, block.len() as int) == Some(
            spec_utxos(reversed(block) + older),
        ),
{
    lemma_apply_prefix(older, block, block.len() as int);
    assert(block.subrange(0, block.len() as int) =~= block);
}

/// Two indexes are the same where both are canonical, one holds what
/// applying a block made of the unspent outputs of the older chain, and the
/// other the unspent outputs of the chain with the block on top.
pub proof fn lemma_updated_index_is_rebuilt_index(
    older: Seq<TransactionView>,
    block: Seq<TransactionView>,
    updated: Map<Seq<u8>, Seq<u8>>,
    rebuilt: Map<Seq<u8>, Seq<u8>>,
)
    requires
        canonical(updated),
        canonical(rebuilt),
        model_apply_all(spec_utxos(older), block, block.len() as int) == Some(
            index_model(updated),
        ),
        index_model(rebuilt) == spec_utxos(reversed(block) + older),
    ensures
        updated == rebuilt,
{
    lemma_update_agrees_with_reindex(older, block);
    lemma_canonical_determined(updated, rebuilt);
}

/// An output among the first `n` that is not gone is kept: something is
/// kept.
pub proof fn lemma_keep_has(outputs: Seq<TXOutputView>, gone: Set<int>, v: int, n: int)
    requires
        0 <= v < n,
        !gone.contains(v),
    ensures
        keep(outputs, gone, n).len() > 0,
    decreases n,
{
    if v < n - 1 {
        lemma_keep_has(outputs, gone, v, n - 1);
    }
}

/// Whether input `k` of a transaction names an unspent output of the chain:
/// an output of the newest transaction with the id that it names, which
/// neither a later transaction of the chain nor an input before it has spent.
pub open spec fn names_unspent(txs: Seq<TransactionView>, tx: TransactionView, k: int) -> bool {
    let q = first_with_id(txs, tx.vin[k].txid, 0);
    q < txs.len() && 0 <= tx.vin[k].vout < txs[q].vout.len() && !spent_so_far(
        txs,
        tx,
        k,
        q,
    ).contains(tx.vin[k].vout as int)
}

/// Whether a transaction is a coinbase or every input of it names an unspent
/// output of the chain.
pub open spec fn spends_unspent(txs: Seq<TransactionView>, tx: TransactionView) -> bool {
    spec_is_coinbase(tx) || forall|k: int|
        0 <= k < tx.vin.len() ==> #[trigger] names_unspent(txs, tx, k)
}

/// Whether every transaction of a block spends unspent outputs of the chain
/// as it stands before it: those of the older chain and of the transactions
/// of the block before it.
pub open spec fn block_spends_unspent(
    older: Seq<TransactionView>,
    block: Seq<TransactionView>,
) -> bool {
    forall|p: int|
        0 <= p < block.len() ==> spends_unspent(
            reversed(block.subrange(0, p)) + older,
            #[trigger] block[p],
        )
}

/// Inputs that name unspent outputs can be applied.
proof fn lemma_spend_prefix_succeeds(txs: Seq<TransactionView>, tx: TransactionView, k: int)
    requires
        !spec_is_coinbase(tx),
        0 <= k <= tx.vin.len(),
        forall|j: int| 0 <= j < k ==> #[trigger] names_unspent(txs, tx, j),
    ensures
        model_spend_all(spec_utxos(txs), tx.vin, k) is Some,
        state_after(model_spend_all(spec_utxos(txs), tx.vin, k)->Some_0, txs, tx, k),
    decreases k,
{
    if k == 0 {
        lemma_state_at_start(txs, tx);
    } else {
        lemma_spend_prefix_succeeds(txs, tx, k - 1);
        let earlier = model_spend_all(spec_utxos(txs), tx.vin, k - 1)->Some_0;
        let input = tx.vin[k - 1];
        assert(names_unspent(txs, tx, k - 1));
        let q = first_with_id(txs, input.txid, 0);
        lemma_keep_has(
            txs[q].vout,
            spent_so_far(txs, tx, k - 1, q),
            input.vout as int,
            txs[q].vout.len() as int,
        );
        assert(left(txs, tx, k - 1, input.txid).len() > 0);
        assert(earlier.contains_key(input.txid));
        lemma_spend_step(txs, tx, k - 1, earlier);
    }
}

/// A transaction that spends unspent outputs of the chain can be applied.
pub proof fn lemma_can_be_applied(txs: Seq<TransactionView>, tx: TransactionView)
    requires
        spends_unspent(txs, tx),
    ensures
        model_apply(spec_utxos(txs), tx) is Some,
{
    if !spec_is_coinbase(tx) {
        lemma_spend_prefix_succeeds(txs, tx, tx.vin.len() as int);
    }
}

/// The first `p` transactions of a block that spends unspent outputs can be
/// applied.
proof fn lemma_prefix_can_be_applied(
    older: Seq<TransactionView>,
    block: Seq<TransactionView>,
    p: int,
)
    requires
        block_spends_unspent(older, block),
        0 <= p <= block.len(),
    ensures
        model_apply_all(spec_utxos(older), block, p) is Some,
    decreases p,
{
    if p > 0 {
        lemma_prefix_can_be_applied(older, block, p - 1);
        lemma_apply_prefix(older, block, p - 1);
        assert(spends_unspent(reversed(block.subrange(0, p - 1)) + older, block[p - 1]));
        lemma_can_be_applied(reversed(block.subrange(0, p - 1)) + older, block[p - 1]);
    }
}

/// For every block whose inputs name unspent outputs, applying the block to
/// the unspent outputs of the older chain succeeds and gives the unspent
/// outputs of the chain with the block on top.
pub proof fn lemma_block_of_spendable_inputs_converges(
    older: Seq<TransactionView>,
    block: Seq<TransactionView>,
)
    requires
        block_spends_unspent(older, block),
    ensures
        model_apply_all(spec_utxos(older), block, block.len() as int) == Some(
            spec_utxos(reversed(block) + older),
        ),
{
    lemma_prefix_can_be_applied(older, block, block.len() as int);
    lemma_update_agrees_with_reindex(older, block);
}

} // verus!
