use crate::block::BlockView;
use crate::blockchain::{
    best_height, block_at, block_key, block_under, chain_from, committed, created,
    lemma_commit_keeps_sound, lemma_sealed_hash_is_no_tip_key, mined, next_height, spec_add_block,
    store_sound, stored_tip, tip_key, walk,
};
use crate::codec::{decoded_block, encoded_block};
use crate::errors::ChainError;
use crate::transaction::TransactionView;
use vstd::prelude::*;

verus! {

/// Whether a block links back into the store: its link is empty and its
/// height 0, as of the genesis block, or its link names a block of the store
/// whose height is one less.
pub open spec fn links_back(entries: Map<Seq<u8>, Seq<u8>>, block: BlockView) -> bool {
    if block.prev_block_hash.len() == 0 {
        block.height == 0
    } else {
        &&& block_key(block.prev_block_hash) != tip_key()
        &&& block_at(entries, block.prev_block_hash) matches Ok(prev)
        &&& prev.height + 1 == block.height
    }
}

/// Whether the store holds a sound chain: it is sound, every block of it
/// links back into it, and the tip, where there is one, names a block of it.
pub open spec fn chain_sound(entries: Map<Seq<u8>, Seq<u8>>) -> bool {
    &&& store_sound(entries)
    &&& forall|key: Seq<u8>| #[trigger]
        entries.contains_key(key) && key != tip_key() ==> links_back(
            entries,
            decoded_block(entries[key]).unwrap(),
        )
    &&& entries.contains_key(tip_key()) ==> entries[tip_key()] != tip_key()
        && entries.contains_key(entries[tip_key()])
}

/// Whether a traversal runs from the tip to the genesis block: its first
/// block has the tip's hash, every block is valid, each block after the first
/// has the hash that the block before it names as its link and a height one
/// less, and the last block has an empty link and height 0.
pub open spec fn runs_to_genesis(chain: Seq<BlockView>, tip: Seq<char>) -> bool {
    &&& chain.len() > 0
    &&& chain[0].hash == tip
    &&& forall|i: int| 0 <= i < chain.len() ==> (#[trigger] chain[i]).is_sealed()
    &&& forall|i: int|
        0 <= i < chain.len() - 1 ==> (#[trigger] chain[i + 1]).hash == chain[i].prev_block_hash
            && chain[i + 1].height + 1 == chain[i].height
    &&& chain.last().prev_block_hash.len() == 0
    &&& chain.last().height == 0
}

/// In a sound store, the block found under a hash has that hash.
proof fn lemma_found_has_hash(entries: Map<Seq<u8>, Seq<u8>>, hash: Seq<char>)
    requires
        store_sound(entries),
        block_key(hash) != tip_key(),
        block_at(entries, hash) is Ok,
    ensures
        block_at(entries, hash)->Ok_0.hash == hash,
        block_at(entries, hash)->Ok_0.is_sealed(),
        links_back(entries, block_at(entries, hash)->Ok_0) == links_back(
            entries,
            decoded_block(entries[block_key(hash)]).unwrap(),
        ),
{
    assert(entries.contains_key(block_key(hash)));
    vstd::utf8::encode_utf8_decode_utf8(hash);
    vstd::utf8::encode_utf8_decode_utf8(block_at(entries, hash)->Ok_0.hash);
}

/// In a sound chain, the walk from a block with one more step than its
/// height runs from that block to the genesis block.
proof fn lemma_walk_to_genesis(entries: Map<Seq<u8>, Seq<u8>>, hash: Seq<char>, budget: nat)
    requires
        chain_sound(entries),
        hash.len() > 0,
        block_key(hash) != tip_key(),
        block_at(entries, hash) is Ok,
        budget == block_at(entries, hash)->Ok_0.height + 1,
    ensures
        runs_to_genesis(walk(entries, hash, budget), hash),
        walk(entries, hash, budget)[0] == block_at(entries, hash)->Ok_0,
    decreases budget,
{
    let block = block_at(entries, hash)->Ok_0;
    lemma_found_has_hash(entries, hash);
    assert(entries.contains_key(block_key(hash)));
    assert(links_back(entries, block));
    let rest = walk(entries, block.prev_block_hash, (budget - 1) as nat);
    let chain = walk(entries, hash, budget);
    assert(chain == seq![block] + rest);
    if block.prev_block_hash.len() == 0 {
        assert(rest =~= Seq::<BlockView>::empty());
        assert(chain =~= seq![block]);
    } else {
        lemma_walk_to_genesis(entries, block.prev_block_hash, (budget - 1) as nat);
        assert(rest.len() > 0);
        assert forall|i: int| 0 <= i < chain.len() implies (#[trigger] chain[i]).is_sealed() by {
            if i > 0 {
                assert(chain[i] == rest[i - 1]);
            }
        }
        assert forall|i: int| 0 <= i < chain.len() - 1 implies (#[trigger] chain[i + 1]).hash
            == chain[i].prev_block_hash && chain[i + 1].height + 1 == chain[i].height by {
            assert(chain[i + 1] == rest[i]);
            if i > 0 {
                assert(chain[i] == rest[i - 1]);
                assert(rest[(i - 1) + 1] == rest[i]);
            }
        }
        assert(chain.last() == rest.last());
    }
}

/// In a store that holds a sound chain, the traversal from the stored tip
/// runs to the genesis block: every block has the hash by which the
/// traversal came to it, that hash is the digest recomputed from the block's
/// stored fields, and the heights fall by one down to 0.
pub proof fn lemma_traversal_runs_to_genesis(entries: Map<Seq<u8>, Seq<u8>>, tip: Seq<char>)
    requires
        chain_sound(entries),
        stored_tip(entries) == Ok::<Seq<char>, ChainError>(tip),
    ensures
        runs_to_genesis(chain_from(entries, tip), tip),
{
    vstd::utf8::decode_utf8_encode_utf8(entries[tip_key()]);
    assert(block_key(tip) == entries[tip_key()]);
    assert(entries.contains_key(block_key(tip)));
    lemma_found_has_hash(entries, tip);
    let block = block_at(entries, tip)->Ok_0;
    assert(tip.len() > 0);
    assert(links_back(entries, block));
    let rest = walk(entries, block.prev_block_hash, block.height as nat);
    let chain = chain_from(entries, tip);
    assert(chain == seq![block] + rest);
    if block.prev_block_hash.len() == 0 {
        assert(rest =~= Seq::<BlockView>::empty());
        assert(chain =~= seq![block]);
    } else {
        lemma_walk_to_genesis(entries, block.prev_block_hash, block.height as nat);
        assert forall|i: int| 0 <= i < chain.len() implies (#[trigger] chain[i]).is_sealed() by {
            if i > 0 {
                assert(chain[i] == rest[i - 1]);
            }
        }
        assert forall|i: int| 0 <= i < chain.len() - 1 implies (#[trigger] chain[i + 1]).hash
            == chain[i].prev_block_hash && chain[i + 1].height + 1 == chain[i].height by {
            assert(chain[i + 1] == rest[i]);
            if i > 0 {
                assert(chain[i] == rest[i - 1]);
                assert(rest[(i - 1) + 1] == rest[i]);
            }
        }
        assert(chain.last() == rest.last());
    }
}

/// Storing a valid block that links back, under a hash that the store does
/// not hold yet, keeps a sound chain sound; so does making it the tip.
pub proof fn lemma_stored_keeps_chain_sound(
    entries: Map<Seq<u8>, Seq<u8>>,
    block: BlockView,
    data: Seq<u8>,
)
    requires
        chain_sound(entries),
        block.is_sealed(),
        decoded_block(data) == Some(block),
        links_back(entries, block),
        !entries.contains_key(block_key(block.hash)),
    ensures
        chain_sound(entries.insert(block_key(block.hash), data)),
        chain_sound(committed(entries, block, data)),
{
    lemma_commit_keeps_sound(entries, block, data);
    lemma_sealed_hash_is_no_tip_key(block.hash);
    let key = block_key(block.hash);
    let stored = entries.insert(key, data);
    let after = committed(entries, block, data);
    assert forall|other: BlockView| links_back(entries, other) implies links_back(stored, other)
        && links_back(after, other) by {
        if other.prev_block_hash.len() > 0 {
            assert(entries.contains_key(block_key(other.prev_block_hash)));
        }
    }
    assert forall|k: Seq<u8>| #[trigger]
        stored.contains_key(k) && k != tip_key() implies links_back(
        stored,
        decoded_block(stored[k]).unwrap(),
    ) by {
        if k != key {
            assert(entries.contains_key(k));
        }
    }
    assert forall|k: Seq<u8>| #[trigger] after.contains_key(k) && k != tip_key() implies links_back(
        after,
        decoded_block(after[k]).unwrap(),
    ) by {
        if k != key {
            assert(entries.contains_key(k));
        }
    }
    assert(stored.contains_key(tip_key()) ==> entries.contains_key(tip_key()));
}

/// In a sound chain, the block that follows the tip links back.
proof fn lemma_next_links_back(
    entries: Map<Seq<u8>, Seq<u8>>,
    tip: Seq<char>,
    height: usize,
    block: BlockView,
)
    requires
        chain_sound(entries),
        stored_tip(entries) == Ok::<Seq<char>, ChainError>(tip),
        next_height(entries) == Ok::<usize, ChainError>(height),
        block.prev_block_hash == tip,
        block.height == height,
    ensures
        links_back(entries, block),
{
    vstd::utf8::decode_utf8_encode_utf8(entries[tip_key()]);
    assert(block_key(tip) == entries[tip_key()]);
    lemma_found_has_hash(entries, tip);
    assert(block_at(entries, tip) == block_under(entries, entries[tip_key()]));
}

/// Mining a block, whose hash the store does not hold yet, keeps a sound
/// chain sound.
pub proof fn lemma_mined_keeps_chain_sound(
    entries: Map<Seq<u8>, Seq<u8>>,
    all: Seq<TransactionView>,
    txs: Seq<TransactionView>,
    timestamp: u128,
    block: BlockView,
    after: Map<Seq<u8>, Seq<u8>>,
)
    requires
        chain_sound(entries),
        mined(entries, all, txs, timestamp, block, after),
        !entries.contains_key(block_key(block.hash)),
    ensures
        chain_sound(after),
{
    lemma_next_links_back(
        entries,
        stored_tip(entries)->Ok_0,
        next_height(entries)->Ok_0,
        block,
    );
    lemma_stored_keeps_chain_sound(entries, block, encoded_block(block)->Some_0);
}

/// Creating the chain in a store that holds a sound chain, and not the
/// genesis block's hash yet, keeps the chain sound; the empty store holds a
/// sound chain.
pub proof fn lemma_created_keeps_chain_sound(
    entries: Map<Seq<u8>, Seq<u8>>,
    address: Seq<char>,
    timestamp: u128,
    genesis: BlockView,
    after: Map<Seq<u8>, Seq<u8>>,
)
    requires
        chain_sound(entries),
        created(entries, address, timestamp, genesis, after),
        !entries.contains_key(block_key(genesis.hash)),
    ensures
        chain_sound(after),
        chain_sound(crate::store::no_entries()),
{
    lemma_stored_keeps_chain_sound(entries, genesis, encoded_block(genesis)->Some_0);
}

/// Adding a valid block that links back, with bytes that decode to it, keeps
/// a sound chain sound.
pub proof fn lemma_added_keeps_chain_sound(
    entries: Map<Seq<u8>, Seq<u8>>,
    tip: Seq<char>,
    block: BlockView,
)
    requires
        chain_sound(entries),
        block.is_sealed(),
        links_back(entries, block),
        encoded_block(block) matches Some(data) && decoded_block(data) == Some(block),
        spec_add_block(entries, tip, block) is Ok,
    ensures
        chain_sound(spec_add_block(entries, tip, block)->Ok_0.0),
{
    if !entries.contains_key(block_key(block.hash)) {
        lemma_stored_keeps_chain_sound(entries, block, encoded_block(block)->Some_0);
        let stored = entries.insert(block_key(block.hash), encoded_block(block)->Some_0);
        assert(best_height(stored) is Ok);
    }
}

} // verus!
