use crate::block::{genesis_unsealed, unix_millis, unsealed_block, Block, BlockView};
use crate::codec::{decode_block, decoded_block, encode_block, encoded_block, text_from_utf8};
use crate::errors::ChainError;
use crate::store::{db_entries, db_flush, db_get, db_insert};
use crate::transaction::{
    lemma_first_with_id, lemma_lookup_concat, lemma_lookup_has_id, lemma_sign_same_references,
    lemma_verify_same_references, lookup_transaction, position_of, referenced_output, reversed,
    sign_fault, signed_with, spec_is_coinbase, spec_new_coinbase, transactions_view, verify_outcome,
    Transaction, TransactionView,
};
use crate::tx::TXOutputs;
use crate::unspent::{
    distinct_ids, entries_map, has_oversize_key, spec_utxos, unspent_outputs, unspent_transactions,
    unspent_transactions_upto,
};
use vstd::prelude::*;
use vstd::utf8::{decode_utf8, encode_utf8, valid_utf8};

verus! {

/// The reward text of the genesis block's coinbase.
pub const GENESIS_COINBASE_DATA: &'static str =
    "The Times 03/Jan/2009 Chancellor on brink of second bailout for banks";

/// The key under which the store holds the hash of the tip.
pub open spec fn tip_key() -> Seq<u8> {
    encode_utf8("LAST"@)
}

/// The key under which the store holds the block with the given hash.
pub open spec fn block_key(hash: Seq<char>) -> Seq<u8> {
    encode_utf8(hash)
}

/// The block that the store holds under a key: not found where the key is
/// absent, a serialization fault where the bytes do not decode.
pub open spec fn block_under(entries: Map<Seq<u8>, Seq<u8>>, key: Seq<u8>) -> Result<
    BlockView,
    ChainError,
> {
    if !entries.contains_key(key) {
        Err(ChainError::NotFound)
    } else {
        match decoded_block(entries[key]) {
            None => Err(ChainError::Serialization),
            Some(block) => Ok(block),
        }
    }
}

/// The block that the store holds for a hash.
pub open spec fn block_at(entries: Map<Seq<u8>, Seq<u8>>, hash: Seq<char>) -> Result<
    BlockView,
    ChainError,
> {
    block_under(entries, block_key(hash))
}

/// The blocks met from `hash` backward along the links to the previous
/// block, `budget` of them at most; an empty link, which is that of the
/// genesis block, ends the walk, and so does a link that leads to no block.
pub open spec fn walk(entries: Map<Seq<u8>, Seq<u8>>, hash: Seq<char>, budget: nat) -> Seq<
    BlockView,
>
    decreases budget,
{
    if budget == 0 || hash.len() == 0 {
        Seq::empty()
    } else {
        match block_at(entries, hash) {
            Err(_) => Seq::empty(),
            Ok(block) => seq![block] + walk(entries, block.prev_block_hash, (budget - 1) as nat),
        }
    }
}

/// The traversal from the block with hash `hash`: that block, then its
/// predecessors, as many as its height allows. It ends at the genesis
/// block, whose link is empty, or where a link leads to no block.
pub open spec fn chain_from(entries: Map<Seq<u8>, Seq<u8>>, hash: Seq<char>) -> Seq<BlockView> {
    if hash.len() == 0 {
        Seq::empty()
    } else {
        match block_at(entries, hash) {
            Err(_) => Seq::empty(),
            Ok(block) => seq![block] + walk(entries, block.prev_block_hash, block.height as nat),
        }
    }
}

/// The height of the tip: -1 where the store holds no tip; a fault where the
/// tip's block is absent or does not decode, or its height is beyond `i32`.
pub open spec fn best_height(entries: Map<Seq<u8>, Seq<u8>>) -> Result<int, ChainError> {
    if !entries.contains_key(tip_key()) {
        Ok(-1)
    } else {
        match block_under(entries, entries[tip_key()]) {
            Err(e) => Err(e),
            Ok(block) => if block.height > i32::MAX {
                Err(ChainError::Overflow)
            } else {
                Ok(block.height as int)
            },
        }
    }
}

/// The hash of the tip that the store holds: not found where it holds none,
/// a serialization fault where the bytes are no text.
pub open spec fn stored_tip(entries: Map<Seq<u8>, Seq<u8>>) -> Result<Seq<char>, ChainError> {
    if !entries.contains_key(tip_key()) {
        Err(ChainError::NotFound)
    } else if !valid_utf8(entries[tip_key()]) {
        Err(ChainError::Serialization)
    } else {
        Ok(decode_utf8(entries[tip_key()]))
    }
}

/// The height of the block that follows the tip.
pub open spec fn next_height(entries: Map<Seq<u8>, Seq<u8>>) -> Result<usize, ChainError> {
    match best_height(entries) {
        Err(e) => Err(e),
        Ok(height) => if height >= i32::MAX {
            Err(ChainError::Overflow)
        } else {
            Ok((height + 1) as usize)
        },
    }
}

/// The store after a block was committed as the new tip: the block's bytes
/// under its hash, and its hash under the tip's key.
pub open spec fn committed(entries: Map<Seq<u8>, Seq<u8>>, block: BlockView, data: Seq<u8>) -> Map<
    Seq<u8>,
    Seq<u8>,
> {
    entries.insert(block_key(block.hash), data).insert(tip_key(), block_key(block.hash))
}

/// The views of a sequence of blocks, in order.
pub open spec fn blocks_view(s: Seq<Block>) -> Seq<BlockView> {
    s.map_values(|b: Block| b@)
}

/// The transactions of a sequence of blocks, block after block, each
/// block's in their order.
pub open spec fn chain_transactions(blocks: Seq<BlockView>) -> Seq<TransactionView>
    decreases blocks.len(),
{
    if blocks.len() == 0 {
        Seq::empty()
    } else {
        blocks[0].transactions + chain_transactions(blocks.drop_first())
    }
}

/// The transactions of a sequence of blocks that runs from the tip
/// backward, newest first: block after block, each block's in the opposite of
/// their order.
pub open spec fn newest_first(blocks: Seq<BlockView>) -> Seq<TransactionView>
    decreases blocks.len(),
{
    if blocks.len() == 0 {
        Seq::empty()
    } else {
        reversed(blocks[0].transactions) + newest_first(blocks.drop_first())
    }
}

/// The first transaction with the given id that a traversal meets.
pub open spec fn find_in_chain(blocks: Seq<BlockView>, id: Seq<char>) -> Option<TransactionView> {
    lookup_transaction(chain_transactions(blocks), id)
}

/// Whether a transaction is accepted into a block: it is a coinbase, or it
/// verifies against the chain's transactions.
pub open spec fn accepted(tx: TransactionView, all: Seq<TransactionView>) -> bool {
    spec_is_coinbase(tx) || verify_outcome(tx, all, Ok(true))
}

/// Whether a transaction is refused with the fault `e`: a validation fault
/// where a signature is not accepted, else the fault of its verification.
pub open spec fn refused(tx: TransactionView, all: Seq<TransactionView>, e: ChainError) -> bool {
    !spec_is_coinbase(tx) && ((e == ChainError::Validation && verify_outcome(tx, all, Ok(false)))
        || verify_outcome(tx, all, Err(e)))
}

/// Whether `e` is the fault of the first transaction that is refused.
pub open spec fn first_refused(
    txs: Seq<TransactionView>,
    all: Seq<TransactionView>,
    e: ChainError,
) -> bool {
    exists|i: int|
        0 <= i < txs.len() && refused(#[trigger] txs[i], all, e) && forall|j: int|
            0 <= j < i ==> accepted(#[trigger] txs[j], all)
}

/// Whether every transaction is accepted.
pub open spec fn all_accepted(txs: Seq<TransactionView>, all: Seq<TransactionView>) -> bool {
    forall|i: int| 0 <= i < txs.len() ==> accepted(#[trigger] txs[i], all)
}

/// Why sealing and encoding a block fails: the search for a nonce fails, or
/// the sealed block cannot be encoded.
pub open spec fn sealing_fault(open: BlockView, e: ChainError) -> bool {
    open.seal_fault(e) || (e == ChainError::Serialization && exists|sealed: BlockView|
        #[trigger] sealed.seals(open) && encoded_block(sealed) is None)
}

/// Why mining a block fails without a fault of the store: a transaction is
/// refused; else the tip cannot be read; else the next height cannot be
/// had; else the block cannot be sealed or encoded.
pub open spec fn mine_fault(
    entries: Map<Seq<u8>, Seq<u8>>,
    all: Seq<TransactionView>,
    txs: Seq<TransactionView>,
    timestamp: u128,
    e: ChainError,
) -> bool {
    if !all_accepted(txs, all) {
        first_refused(txs, all, e)
    } else {
        match stored_tip(entries) {
            Err(fault) => e == fault,
            Ok(tip) => match next_height(entries) {
                Err(fault) => e == fault,
                Ok(height) => sealing_fault(unsealed_block(txs, tip, height, timestamp), e),
            },
        }
    }
}

/// Whether `block` is the block mined on top of the store's tip from the
/// given transactions, and `after` the store once it is committed.
pub open spec fn mined(
    entries: Map<Seq<u8>, Seq<u8>>,
    all: Seq<TransactionView>,
    txs: Seq<TransactionView>,
    timestamp: u128,
    block: BlockView,
    after: Map<Seq<u8>, Seq<u8>>,
) -> bool {
    &&& all_accepted(txs, all)
    &&& stored_tip(entries) matches Ok(tip)
    &&& next_height(entries) matches Ok(height)
    &&& block.seals(unsealed_block(txs, tip, height, timestamp))
    &&& encoded_block(block) matches Some(data)
    &&& decoded_block(data) == Some(block)
    &&& after == committed(entries, block, data)
}

/// Whether `genesis` is the genesis block for an address, and `after` the
/// store once it is committed.
pub open spec fn created(
    entries: Map<Seq<u8>, Seq<u8>>,
    address: Seq<char>,
    timestamp: u128,
    genesis: BlockView,
    after: Map<Seq<u8>, Seq<u8>>,
) -> bool {
    &&& spec_new_coinbase(address, GENESIS_COINBASE_DATA@) matches Ok(coinbase)
    &&& genesis.seals(genesis_unsealed(coinbase, timestamp))
    &&& encoded_block(genesis) matches Some(data)
    &&& decoded_block(data) == Some(genesis)
    &&& after == committed(entries, genesis, data)
}

/// The fault that creating a chain meets before it looks at the store: that
/// of making the coinbase, or else that of sealing the genesis block.
pub open spec fn genesis_fault(address: Seq<char>, timestamp: u128, e: ChainError) -> bool {
    match spec_new_coinbase(address, GENESIS_COINBASE_DATA@) {
        Err(fault) => e == fault,
        Ok(coinbase) => genesis_unsealed(coinbase, timestamp).seal_fault(e),
    }
}

/// Why creating a chain fails without a fault of the store: the coinbase
/// cannot be made, or the genesis block cannot be sealed or encoded.
pub open spec fn create_fault(address: Seq<char>, timestamp: u128, e: ChainError) -> bool {
    match spec_new_coinbase(address, GENESIS_COINBASE_DATA@) {
        Err(fault) => e == fault,
        Ok(coinbase) => sealing_fault(genesis_unsealed(coinbase, timestamp), e),
    }
}

/// What adding a block makes of store and tip: nothing new where the store
/// holds the block's hash already; else the block's bytes under its hash,
/// and the block as tip where it is higher than the tip.
pub open spec fn spec_add_block(
    entries: Map<Seq<u8>, Seq<u8>>,
    tip: Seq<char>,
    block: BlockView,
) -> Result<(Map<Seq<u8>, Seq<u8>>, Seq<char>), ChainError> {
    match encoded_block(block) {
        None => Err(ChainError::Serialization),
        Some(data) => if entries.contains_key(block_key(block.hash)) {
            Ok((entries, tip))
        } else {
            let stored = entries.insert(block_key(block.hash), data);
            match best_height(stored) {
                Err(e) => Err(e),
                Ok(height) => if block.height > height {
                    Ok((stored.insert(tip_key(), block_key(block.hash)), block.hash))
                } else {
                    Ok((stored, tip))
                },
            }
        },
    }
}

/// Whether the store is sound: under every key but the tip's, it holds the
/// bytes of a valid block whose hash is that key.
pub open spec fn store_sound(entries: Map<Seq<u8>, Seq<u8>>) -> bool {
    forall|key: Seq<u8>| #[trigger]
        entries.contains_key(key) && key != tip_key() ==> (decoded_block(entries[key]) matches Some(
            block,
        ) && block_key(block.hash) == key && block.is_sealed())
}

/// How many blocks a traversal may still give once it has given a block:
/// as many as the height of its first block, and one less with each block
/// after that.
pub open spec fn budget_after(budget: Option<nat>, height: usize) -> nat {
    match budget {
        None => height as nat,
        Some(left) => if left == 0 {
            0
        } else {
            (left - 1) as nat
        },
    }
}

/// Blockchain implements interactions with a DB
pub struct Blockchain {
    current_hash: String,
    db: sled::Db,
}

/// BlockchainIter walks the chain from the tip backward
pub struct BlockchainIter<'a> {
    current_hash: String,
    budget: Option<usize>,
    bc: &'a Blockchain,
}

/// The block that the store holds under a key.
pub(crate) fn fetch_block(db: &sled::Db, key: &[u8]) -> (res: Result<Block, ChainError>)
    ensures
        match res {
            Ok(block) => block_under(db_entries(*db), key@) == Ok::<BlockView, ChainError>(block@),
            Err(e) => e == ChainError::Storage || block_under(db_entries(*db), key@) == Err::<
                BlockView,
                ChainError,
            >(e),
        },
{
    match db_get(db, key) {
        Err(_) => Err(ChainError::Storage),
        Ok(None) => Err(ChainError::NotFound),
        Ok(Some(bytes)) => match decode_block(bytes.as_slice()) {
            Err(_) => Err(ChainError::Serialization),
            Ok(plain) => Ok(Block::from_plain(&plain)),
        },
    }
}

/// The height of the tip that a store holds, -1 where it holds no tip.
pub fn stored_best_height(db: &sled::Db) -> (res: Result<i32, ChainError>)
    ensures
        match res {
            Ok(height) => best_height(db_entries(*db)) == Ok::<int, ChainError>(height as int),
            Err(e) => e == ChainError::Storage || best_height(db_entries(*db)) == Err::<
                int,
                ChainError,
            >(e),
        },
{
    let last = match db_get(db, "LAST".as_bytes()) {
        Err(_) => {
            return Err(ChainError::Storage);
        },
        Ok(None) => {
            return Ok(-1);
        },
        Ok(Some(last)) => last,
    };
    let block = fetch_block(db, last.as_slice())?;
    let height = block.get_height();
    if height > i32::MAX as usize {
        Err(ChainError::Overflow)
    } else {
        Ok(height as i32)
    }
}

/// The hash of the tip that a store holds.
fn read_tip(db: &sled::Db) -> (res: Result<String, ChainError>)
    ensures
        match res {
            Ok(tip) => stored_tip(db_entries(*db)) == Ok::<Seq<char>, ChainError>(tip@),
            Err(e) => e == ChainError::Storage || stored_tip(db_entries(*db)) == Err::<
                Seq<char>,
                ChainError,
            >(e),
        },
{
    match db_get(db, "LAST".as_bytes()) {
        Err(_) => Err(ChainError::Storage),
        Ok(None) => Err(ChainError::NotFound),
        Ok(Some(bytes)) => match text_from_utf8(bytes) {
            None => Err(ChainError::Serialization),
            Some(tip) => Ok(tip),
        },
    }
}

/// Writes a block as the new tip: its bytes under its hash, its hash under
/// the tip's key, and a flush.
fn commit(db: &mut sled::Db, block: &Block) -> (res: Result<(), ChainError>)
    ensures
        match res {
            Ok(()) => encoded_block(block@) matches Some(data) && decoded_block(data) == Some(
                block@,
            ) && db_entries(*final(db)) == committed(db_entries(*old(db)), block@, data),
            Err(e) => e == ChainError::Storage || (e == ChainError::Serialization && encoded_block(
                block@,
            ) is None && db_entries(*final(db)) == db_entries(*old(db))),
        },
{
    let data = match encode_block(&block.to_plain()) {
        Err(_) => {
            return Err(ChainError::Serialization);
        },
        Ok(data) => data,
    };
    let hash = block.get_hash();
    if db_insert(db, hash.as_str().as_bytes(), data.as_slice()).is_err() {
        return Err(ChainError::Storage);
    }
    if db_insert(db, "LAST".as_bytes(), hash.as_str().as_bytes()).is_err() {
        return Err(ChainError::Storage);
    }
    if db_flush(db).is_err() {
        return Err(ChainError::Storage);
    }
    Ok(())
}

/// The transactions of a list of blocks, block after block.
pub fn transactions_of(blocks: &Vec<Block>) -> (txs: Vec<Transaction>)
    ensures
        transactions_view(txs@) == chain_transactions(blocks_view(blocks@)),
{
    let ghost all = blocks_view(blocks@);
    let mut txs: Vec<Transaction> = Vec::new();
    let mut i: usize = 0;
    assert(all.subrange(0, all.len() as int) =~= all);
    while i < blocks.len()
        invariant
            i <= blocks.len(),
            all == blocks_view(blocks@),
            transactions_view(txs@) + chain_transactions(all.subrange(i as int, all.len() as int))
                == chain_transactions(all),
        decreases blocks.len() - i,
    {
        let ghost rest = all.subrange(i as int, all.len() as int);
        assert(rest.drop_first() =~= all.subrange(i + 1, all.len() as int));
        let block_txs = blocks[i].get_transaction();
        let mut copies = crate::transaction::copy_transactions(block_txs);
        txs.append(&mut copies);
        i = i + 1;
    }
    txs
}

/// The transactions of a list in the opposite order.
pub fn reversed_copy(txs: &Vec<Transaction>) -> (copy: Vec<Transaction>)
    ensures
        transactions_view(copy@) == reversed(transactions_view(txs@)),
{
    let mut copy: Vec<Transaction> = Vec::new();
    let mut left: usize = txs.len();
    while left > 0
        invariant
            left <= txs.len(),
            copy@.len() == txs.len() - left,
            forall|k: int|
                0 <= k < copy@.len() ==> (#[trigger] copy@[k])@ == txs@[txs.len() - 1 - k]@,
        decreases left,
    {
        left = left - 1;
        copy.push(txs[left].clone());
    }
    assert(transactions_view(copy@) =~= reversed(transactions_view(txs@)));
    copy
}

/// The transactions of a list of blocks that runs from the tip backward,
/// newest first.
pub fn transactions_newest_first(blocks: &Vec<Block>) -> (txs: Vec<Transaction>)
    ensures
        transactions_view(txs@) == newest_first(blocks_view(blocks@)),
{
    let ghost all = blocks_view(blocks@);
    let mut txs: Vec<Transaction> = Vec::new();
    let mut i: usize = 0;
    assert(all.subrange(0, all.len() as int) =~= all);
    assert(transactions_view(txs@) + newest_first(all) =~= newest_first(all));
    while i < blocks.len()
        invariant
            i <= blocks.len(),
            all == blocks_view(blocks@),
            transactions_view(txs@) + newest_first(all.subrange(i as int, all.len() as int))
                == newest_first(all),
        decreases blocks.len() - i,
    {
        let ghost rest = all.subrange(i as int, all.len() as int);
        let ghost before = transactions_view(txs@);
        assert(rest[0] == blocks@[i as int]@);
        assert(rest.drop_first() =~= all.subrange(i + 1, all.len() as int));
        let mut copies = reversed_copy(blocks[i].get_transaction());
        let ghost added = transactions_view(copies@);
        txs.append(&mut copies);
        assert(transactions_view(txs@) =~= before + added);
        assert((before + added) + newest_first(rest.drop_first()) =~= before + (added
            + newest_first(rest.drop_first())));
        i = i + 1;
    }
    assert(newest_first(all.subrange(all.len() as int, all.len() as int))
        =~= Seq::<TransactionView>::empty());
    assert(transactions_view(txs@) + Seq::<TransactionView>::empty() =~= transactions_view(txs@));
    txs
}

/// The transactions of a block followed by older blocks, newest first, are
/// the block's in the opposite of their order, then the older blocks'.
pub proof fn lemma_newest_first_step(block: BlockView, rest: Seq<BlockView>)
    ensures
        newest_first(seq![block] + rest) == reversed(block.transactions) + newest_first(rest),
{
    assert((seq![block] + rest).drop_first() =~= rest);
}

impl Blockchain {
    /// What the store holds.
    pub closed spec fn entries(&self) -> Map<Seq<u8>, Seq<u8>> {
        db_entries(self.db)
    }

    /// The hash of the tip.
    pub closed spec fn tip(&self) -> Seq<char> {
        self.current_hash@
    }

    /// The traversal from the tip.
    pub open spec fn blocks(&self) -> Seq<BlockView> {
        chain_from(self.entries(), self.tip())
    }

    /// Whether the tip that the chain goes by is the one that the store
    /// holds.
    pub open spec fn wf(&self) -> bool {
        stored_tip(self.entries()) == Ok::<Seq<char>, ChainError>(self.tip())
    }

    /// Opens the chain that a store holds: it reads the tip's
    /// hash and nothing else
    pub fn new(db: sled::Db) -> (res: Result<Blockchain, ChainError>)
        ensures
            match res {
                Ok(bc) => bc.entries() == db_entries(db) && bc.wf(),
                Err(e) => e == ChainError::Storage || stored_tip(db_entries(db)) == Err::<
                    Seq<char>,
                    ChainError,
                >(e),
            },
    {
        match read_tip(&db) {
            Err(e) => Err(e),
            Ok(tip) => Ok(Blockchain { current_hash: tip, db }),
        }
    }

    /// Opens the chain that a store holds or, where it holds none, writes the
    /// sealed block `genesis` to the store as its tip.
    fn open_or_commit(db: sled::Db, genesis: &Block) -> (res: Result<Blockchain, ChainError>)
        requires
            genesis@.is_sealed(),
        ensures
            match res {
                Ok(bc) => bc.wf() && if db_entries(db).contains_key(tip_key()) {
                    bc.entries() == db_entries(db)
                } else {
                    &&& bc.blocks().len() > 0
                    &&& bc.blocks()[0] == genesis@
                    &&& bc.tip() == genesis@.hash
                    &&& encoded_block(genesis@) matches Some(data)
                    &&& decoded_block(data) == Some(genesis@)
                    &&& bc.entries() == committed(db_entries(db), genesis@, data)
                },
                Err(e) => e == ChainError::Storage || if db_entries(db).contains_key(tip_key()) {
                    stored_tip(db_entries(db)) == Err::<Seq<char>, ChainError>(e)
                } else {
                    e == ChainError::Serialization && encoded_block(genesis@) is None
                },
            },
    {
        let ghost before = db_entries(db);
        let mut db = db;
        match db_get(&db, "LAST".as_bytes()) {
            Err(_) => {
                return Err(ChainError::Storage);
            },
            Ok(Some(_)) => {
                return Blockchain::new(db);
            },
            Ok(None) => {},
        }
        match commit(&mut db, genesis) {
            Err(e) => {
                return Err(e);
            },
            Ok(()) => {},
        }
        let bc = Blockchain { current_hash: genesis.get_hash(), db };
        proof {
            lemma_tip_after_commit(before, genesis@, encoded_block(genesis@)->Some_0);
            lemma_block_after_commit(before, genesis@, encoded_block(genesis@)->Some_0);
        }
        Ok(bc)
    }

    /// Creates a new blockchain DB: the genesis block, whose
    /// coinbase pays the reward to `address`, stamped with `timestamp`, is
    /// written to the store as its tip. A store that holds a tip already is
    /// left as it is, and the chain at that tip is returned. The address is
    /// looked at, and the genesis block sealed, before the store is: their
    /// faults come whatever the store holds.
    pub fn create_blockchain_at(db: sled::Db, address: String, timestamp: u128) -> (res: Result<
        Blockchain,
        ChainError,
    >)
        ensures
            forall|f: ChainError| #[trigger]
                genesis_fault(address@, timestamp, f) ==> (res matches Err(e) && e == f),
            match res {
                Ok(bc) => bc.wf() && if db_entries(db).contains_key(tip_key()) {
                    bc.entries() == db_entries(db)
                } else {
                    bc.blocks().len() > 0 && created(
                        db_entries(db),
                        address@,
                        timestamp,
                        bc.blocks()[0],
                        bc.entries(),
                    ) && bc.tip() == bc.blocks()[0].hash
                },
                Err(e) => e == ChainError::Storage || create_fault(address@, timestamp, e) || (
                db_entries(db).contains_key(tip_key()) && stored_tip(db_entries(db)) == Err::<
                    Seq<char>,
                    ChainError,
                >(e)),
            },
    {
        let coinbase = Transaction::new_coinbase(
            address,
            crate::block::text_of(GENESIS_COINBASE_DATA),
        )?;
        let genesis = Block::new_genesis_block_at(coinbase, timestamp)?;
        Blockchain::open_or_commit(db, &genesis)
    }

    /// Creates a new blockchain DB, its genesis block
    /// stamped with the time of the wall clock. A store that holds a tip
    /// already is left as it is, and the chain at that tip is returned. The
    /// address is looked at before clock and store are.
    pub fn create_blockchain(db: sled::Db, address: String) -> (res: Result<Blockchain, ChainError>)
        ensures
            spec_new_coinbase(address@, GENESIS_COINBASE_DATA@) matches Err(f) ==> (
            res matches Err(e) && e == f),
            match res {
                Ok(bc) => bc.wf() && if db_entries(db).contains_key(tip_key()) {
                    bc.entries() == db_entries(db)
                } else {
                    bc.blocks().len() > 0 && created(
                        db_entries(db),
                        address@,
                        bc.blocks()[0].timestamp,
                        bc.blocks()[0],
                        bc.entries(),
                    ) && bc.tip() == bc.blocks()[0].hash
                },
                Err(e) => e == ChainError::Storage || e == ChainError::Clock || (exists|
                    timestamp: u128,
                | #[trigger] create_fault(address@, timestamp, e)) || (db_entries(db).contains_key(
                    tip_key(),
                ) && stored_tip(db_entries(db)) == Err::<Seq<char>, ChainError>(e)),
            },
    {
        let coinbase = match Transaction::new_coinbase(
            address,
            crate::block::text_of(GENESIS_COINBASE_DATA),
        ) {
            Err(e) => {
                assert(create_fault(address@, 0u128, e));
                return Err(e);
            },
            Ok(coinbase) => coinbase,
        };
        match unix_millis() {
            None => Err(ChainError::Clock),
            Some(timestamp) => {
                let genesis = match Block::new_genesis_block_at(coinbase, timestamp) {
                    Err(e) => {
                        assert(create_fault(address@, timestamp, e));
                        return Err(e);
                    },
                    Ok(genesis) => genesis,
                };
                let res = Blockchain::open_or_commit(db, &genesis);
                proof {
                    if let Err(e) = res {
                        if e != ChainError::Storage && !db_entries(db).contains_key(tip_key()) {
                            assert(create_fault(address@, timestamp, e));
                        }
                    }
                }
                res
            },
        }
    }

    /// Opens the chain that a store holds or, where it holds none yet,
    /// creates one whose genesis block pays the reward to `address`
    pub fn open_or_init(db: sled::Db, address: String) -> (res: Result<Blockchain, ChainError>)
        ensures
            match res {
                Ok(bc) => bc.wf() && if db_entries(db).contains_key(tip_key()) {
                    bc.entries() == db_entries(db)
                } else {
                    bc.blocks().len() > 0 && created(
                        db_entries(db),
                        address@,
                        bc.blocks()[0].timestamp,
                        bc.blocks()[0],
                        bc.entries(),
                    ) && bc.tip() == bc.blocks()[0].hash
                },
                Err(e) => e == ChainError::Storage || if db_entries(db).contains_key(tip_key()) {
                    stored_tip(db_entries(db)) == Err::<Seq<char>, ChainError>(e)
                } else {
                    e == ChainError::Clock || exists|timestamp: u128| #[trigger]
                        create_fault(address@, timestamp, e)
                },
            },
    {
        match db_get(&db, "LAST".as_bytes()) {
            Err(_) => Err(ChainError::Storage),
            Ok(Some(_)) => Blockchain::new(db),
            Ok(None) => Blockchain::create_blockchain(db, address),
        }
    }

    /// Whether each of the transactions is accepted: `Ok(())` where all
    /// are, else the fault of the first that is not.
    fn check_transactions(&self, transactions: &Vec<Transaction>) -> (res: Result<(), ChainError>)
        ensures
            match res {
                Ok(()) => all_accepted(
                    transactions_view(transactions@),
                    chain_transactions(self.blocks()),
                ),
                Err(e) => e == ChainError::Storage || (!all_accepted(
                    transactions_view(transactions@),
                    chain_transactions(self.blocks()),
                ) && first_refused(
                    transactions_view(transactions@),
                    chain_transactions(self.blocks()),
                    e,
                )),
            },
    {
        let ghost txs = transactions_view(transactions@);
        let ghost all = chain_transactions(self.blocks());
        let mut i: usize = 0;
        while i < transactions.len()
            invariant
                i <= transactions.len(),
                txs == transactions_view(transactions@),
                all == chain_transactions(self.blocks()),
                forall|j: int| 0 <= j < i ==> accepted(#[trigger] txs[j], all),
            decreases transactions.len() - i,
        {
            match self.verify_transacton(&transactions[i]) {
                Err(ChainError::Storage) => {
                    return Err(ChainError::Storage);
                },
                Err(e) => {
                    proof {
                        lemma_not_both(txs[i as int], all, e);
                    }
                    return Err(e);
                },
                Ok(false) => {
                    proof {
                        lemma_not_both(txs[i as int], all, ChainError::Validation);
                    }
                    return Err(ChainError::Validation);
                },
                Ok(true) => {},
            }
            i = i + 1;
        }
        Ok(())
    }

    /// Mines a new block with the provided transactions, stamped
    /// with `timestamp`, on top of the tip that the store holds. Every
    /// transaction must be accepted; the first that is not ends the attempt
    /// before anything is written.
    pub fn mine_block_at(&mut self, transactions: Vec<Transaction>, timestamp: u128) -> (res:
        Result<Block, ChainError>)
        ensures
            match res {
                Ok(block) => final(self).wf() && final(self).tip() == block@.hash
                    && block@.hash.len() == 64 && mined(
                    old(self).entries(),
                    chain_transactions(old(self).blocks()),
                    transactions_view(transactions@),
                    timestamp,
                    block@,
                    final(self).entries(),
                ),
                Err(e) => e == ChainError::Storage || (final(self).entries() == old(self).entries()
                    && final(self).tip() == old(self).tip() && mine_fault(
                    old(self).entries(),
                    chain_transactions(old(self).blocks()),
                    transactions_view(transactions@),
                    timestamp,
                    e,
                )),
            },
    {
        self.check_transactions(&transactions)?;
        let tip = read_tip(&self.db)?;
        let height = match stored_best_height(&self.db) {
            Err(e) => {
                return Err(e);
            },
            Ok(best) => {
                if best >= i32::MAX {
                    return Err(ChainError::Overflow);
                }
                (best + 1) as usize
            },
        };
        let ghost before = self.entries();
        let block = match Block::new_block_at(transactions, tip, height, timestamp) {
            Err(e) => {
                return Err(e);
            },
            Ok(block) => block,
        };
        match commit(&mut self.db, &block) {
            Err(e) => {
                return Err(e);
            },
            Ok(()) => {},
        }
        self.current_hash = block.get_hash();
        proof {
            lemma_tip_after_commit(before, block@, encoded_block(block@)->Some_0);
        }
        Ok(block)
    }

    /// Mines a new block with the provided transactions, stamped
    /// with the time of the wall clock
    pub fn mine_block(&mut self, transactions: Vec<Transaction>) -> (res: Result<Block, ChainError>)
        ensures
            match res {
                Ok(block) => final(self).wf() && final(self).tip() == block@.hash
                    && block@.hash.len() == 64 && mined(
                    old(self).entries(),
                    chain_transactions(old(self).blocks()),
                    transactions_view(transactions@),
                    block@.timestamp,
                    block@,
                    final(self).entries(),
                ),
                Err(e) => e == ChainError::Storage || (final(self).entries() == old(self).entries()
                    && final(self).tip() == old(self).tip() && (e == ChainError::Clock || exists|
                    timestamp: u128,
                | #[trigger]
                    mine_fault(
                        old(self).entries(),
                        chain_transactions(old(self).blocks()),
                        transactions_view(transactions@),
                        timestamp,
                        e,
                    ))),
            },
    {
        match unix_millis() {
            None => Err(ChainError::Clock),
            Some(timestamp) => self.mine_block_at(transactions, timestamp),
        }
    }

    /// Saves the block into the blockchain. A block whose hash the
    /// store holds already changes nothing. Else the block is stored, and
    /// becomes the tip where it is higher than the tip.
    pub fn add_block(&mut self, block: Block) -> (res: Result<(), ChainError>)
        ensures
            encoded_block(block@) matches Some(data) ==> decoded_block(data) == Some(block@),
            encoded_block(block@) is None ==> (res matches Err(e) && e
                == ChainError::Serialization),
            match res {
                Ok(()) => spec_add_block(old(self).entries(), old(self).tip(), block@) == Ok::<
                    (Map<Seq<u8>, Seq<u8>>, Seq<char>),
                    ChainError,
                >((final(self).entries(), final(self).tip())),
                Err(e) => e == ChainError::Storage || (spec_add_block(
                    old(self).entries(),
                    old(self).tip(),
                    block@,
                ) == Err::<(Map<Seq<u8>, Seq<u8>>, Seq<char>), ChainError>(e) && final(self).tip()
                    == old(self).tip() && final(self).entries() == match encoded_block(block@) {
                    None => old(self).entries(),
                    Some(data) => old(self).entries().insert(block_key(block@.hash), data),
                }),
            },
    {
        let data = match encode_block(&block.to_plain()) {
            Err(_) => {
                return Err(ChainError::Serialization);
            },
            Ok(data) => data,
        };
        let hash = block.get_hash();
        match db_get(&self.db, hash.as_str().as_bytes()) {
            Err(_) => {
                return Err(ChainError::Storage);
            },
            Ok(Some(_)) => {
                return Ok(());
            },
            Ok(None) => {},
        }
        if db_insert(&mut self.db, hash.as_str().as_bytes(), data.as_slice()).is_err() {
            return Err(ChainError::Storage);
        }
        let last_height = stored_best_height(&self.db)?;
        if last_height < 0 || block.get_height() > last_height as usize {
            if db_insert(&mut self.db, "LAST".as_bytes(), hash.as_str().as_bytes()).is_err() {
                return Err(ChainError::Storage);
            }
            self.current_hash = hash;
            if db_flush(&self.db).is_err() {
                return Err(ChainError::Storage);
            }
        }
        Ok(())
    }

    /// Finds a block by its hash and returns it
    pub fn get_block(&self, block_hash: &str) -> (res: Result<Block, ChainError>)
        ensures
            match res {
                Ok(block) => block_at(self.entries(), block_hash@) == Ok::<BlockView, ChainError>(
                    block@,
                ),
                Err(e) => e == ChainError::Storage || block_at(self.entries(), block_hash@)
                    == Err::<BlockView, ChainError>(e),
            },
    {
        fetch_block(&self.db, block_hash.as_bytes())
    }

    /// Returns the height of the latest block
    pub fn get_best_height(&self) -> (res: Result<i32, ChainError>)
        ensures
            match res {
                Ok(height) => best_height(self.entries()) == Ok::<int, ChainError>(height as int),
                Err(e) => e == ChainError::Storage || best_height(self.entries()) == Err::<
                    int,
                    ChainError,
                >(e),
            },
    {
        stored_best_height(&self.db)
    }

    /// Iterator returns a BlockchainIter that starts at the tip
    pub fn iter(&self) -> (it: BlockchainIter<'_>)
        ensures
            it.remaining() == self.blocks(),
            it.entries() == self.entries(),
            it.link() == self.tip(),
            it.budget() is None,
    {
        BlockchainIter { current_hash: self.current_hash.clone(), budget: None, bc: self }
    }

    /// The blocks of the traversal from the tip.
    pub fn collect_blocks(&self) -> (res: Result<Vec<Block>, ChainError>)
        ensures
            self.tip().len() == 0 ==> res is Ok,
            match res {
                Ok(blocks) => blocks_view(blocks@) == self.blocks(),
                Err(e) => e == ChainError::Storage,
            },
    {
        let mut blocks: Vec<Block> = Vec::new();
        let mut it = self.iter();
        loop
            invariant
                it.entries() == self.entries(),
                self.tip().len() == 0 ==> it.link().len() == 0,
                self.blocks() == blocks_view(blocks@) + it.remaining(),
            decreases it.remaining().len(),
        {
            match it.step() {
                Err(e) => {
                    return Err(e);
                },
                Ok(None) => {
                    return Ok(blocks);
                },
                Ok(Some(block)) => {
                    blocks.push(block);
                },
            }
        }
    }

    /// Returns a list of hashes of all the blocks in the chain
    pub fn get_block_hashs(&self) -> (res: Result<Vec<String>, ChainError>)
        ensures
            self.tip().len() == 0 ==> res is Ok,
            match res {
                Ok(hashes) => hashes@.len() == self.blocks().len() && forall|i: int|
                    0 <= i < hashes@.len() ==> (#[trigger] hashes@[i])@ == self.blocks()[i].hash,
                Err(e) => e == ChainError::Storage,
            },
    {
        let blocks = self.collect_blocks()?;
        let mut hashes: Vec<String> = Vec::new();
        let mut i: usize = 0;
        while i < blocks.len()
            invariant
                i <= blocks.len(),
                hashes@.len() == i,
                blocks_view(blocks@) == self.blocks(),
                forall|k: int| 0 <= k < i ==> (#[trigger] hashes@[k])@ == self.blocks()[k].hash,
            decreases blocks.len() - i,
        {
            hashes.push(blocks[i].get_hash());
            i = i + 1;
        }
        Ok(hashes)
    }

    /// Finds a transaction by its ID: the first with that id
    /// that the traversal from the tip meets
    pub fn find_transacton(&self, id: &str) -> (res: Result<Transaction, ChainError>)
        ensures
            self.tip().len() == 0 ==> (res matches Err(e) && e == ChainError::NotFound),
            match res {
                Ok(tx) => find_in_chain(self.blocks(), id@) == Some(tx@),
                Err(e) => e == ChainError::Storage || (e == ChainError::NotFound && find_in_chain(
                    self.blocks(),
                    id@,
                ) is None),
            },
    {
        let mut it = self.iter();
        loop
            invariant
                it.entries() == self.entries(),
                self.tip().len() == 0 ==> it.link().len() == 0,
                find_in_chain(self.blocks(), id@) == find_in_chain(it.remaining(), id@),
            decreases it.remaining().len(),
        {
            match it.step() {
                Err(e) => {
                    return Err(e);
                },
                Ok(None) => {
                    return Err(ChainError::NotFound);
                },
                Ok(Some(block)) => {
                    proof {
                        lemma_chain_transactions_step(block@, it.remaining());
                        lemma_lookup_concat(
                            block@.transactions,
                            chain_transactions(it.remaining()),
                            id@,
                        );
                    }
                    let txs = block.get_transaction();
                    match position_of(txs, id) {
                        Some(k) => {
                            return Ok(txs[k].clone());
                        },
                        None => {},
                    }
                },
            }
        }
    }

    /// The transactions that the inputs of `tx` refer to, in the order of the
    /// inputs; not found where one of them is not in the chain.
    pub fn get_prev_txs(&self, tx: &Transaction) -> (res: Result<Vec<Transaction>, ChainError>)
        ensures
            tx@.vin.len() == 0 ==> res is Ok,
            match res {
                Ok(found) => found@.len() == tx@.vin.len() && forall|j: int|
                    0 <= j < tx@.vin.len() ==> find_in_chain(self.blocks(), tx@.vin[j].txid)
                        == Some((#[trigger] found@[j])@),
                Err(e) => e == ChainError::Storage || (e == ChainError::NotFound && exists|j: int|
                    0 <= j < tx@.vin.len() && find_in_chain(
                        self.blocks(),
                        (#[trigger] tx@.vin[j]).txid,
                    ) is None && forall|i: int|
                        0 <= i < j ==> find_in_chain(
                            self.blocks(),
                            (#[trigger] tx@.vin[i]).txid,
                        ) is Some),
            },
    {
        let mut found: Vec<Transaction> = Vec::new();
        let mut i: usize = 0;
        while i < tx.vin.len()
            invariant
                i <= tx.vin.len(),
                found@.len() == i,
                forall|j: int|
                    0 <= j < i ==> find_in_chain(self.blocks(), tx@.vin[j].txid) == Some(
                        (#[trigger] found@[j])@,
                    ),
            decreases tx.vin.len() - i,
        {
            assert(tx@.vin[i as int] == tx.vin@[i as int]@);
            match self.find_transacton(tx.vin[i].txid.as_str()) {
                Err(e) => {
                    proof {
                        assert forall|k: int| 0 <= k < i implies find_in_chain(
                            self.blocks(),
                            (#[trigger] tx@.vin[k]).txid,
                        ) is Some by {
                            let _ = found@[k];
                        }
                    }
                    return Err(e);
                },
                Ok(prev) => {
                    found.push(prev);
                },
            }
            i = i + 1;
        }
        Ok(found)
    }

    /// Signs inputs of a Transaction, each against the
    /// output that it spends in the chain
    pub fn sign_transacton(&self, tx: &mut Transaction, private_key: &[u8]) -> (res: Result<
        (),
        ChainError,
    >)
        ensures
            spec_is_coinbase(old(tx)@) ==> res is Ok && final(tx)@ == old(tx)@,
            !spec_is_coinbase(old(tx)@) && private_key@.len() < 64 ==> (res matches Err(e) && e
                == ChainError::Validation),
            private_key@.len() >= 64 && old(tx)@.vin.len() == 0 ==> res is Ok,
            !spec_is_coinbase(old(tx)@) ==> match res {
                Ok(()) => private_key@.len() >= 64 && signed_with(
                    old(tx)@,
                    final(tx)@,
                    chain_transactions(self.blocks()),
                    private_key@,
                ),
                Err(e) => final(tx)@ == old(tx)@ && (e == ChainError::Storage || sign_fault(
                    old(tx)@,
                    chain_transactions(self.blocks()),
                    private_key@,
                    e,
                )),
            },
    {
        if tx.is_coinbase() {
            return Ok(());
        }
        if private_key.len() < 64 {
            return Err(ChainError::Validation);
        }
        let ghost all = chain_transactions(self.blocks());
        let ghost before = tx@;
        let prev_txs = match self.get_prev_txs(tx) {
            Err(ChainError::Storage) => {
                return Err(ChainError::Storage);
            },
            Err(_) => {
                return Err(ChainError::Validation);
            },
            Ok(prev_txs) => prev_txs,
        };
        proof {
            let found = transactions_view(prev_txs@);
            lemma_found_resolve_alike(before, found, all);
        }
        let res = tx.sign(private_key, &prev_txs);
        proof {
            let e = match res {
                Ok(()) => ChainError::Validation,
                Err(e) => e,
            };
            lemma_sign_same_references(
                before,
                tx@,
                transactions_view(prev_txs@),
                all,
                private_key@,
                e,
            );
        }
        res
    }

    /// Verifies transaction input signatures, each against
    /// the output that it spends in the chain
    pub fn verify_transacton(&self, tx: &Transaction) -> (res: Result<bool, ChainError>)
        ensures
            spec_is_coinbase(tx@) ==> res == Ok::<bool, ChainError>(true),
            tx@.vin.len() == 0 ==> res == Ok::<bool, ChainError>(true),
            !spec_is_coinbase(tx@) ==> res == Err::<bool, ChainError>(ChainError::Storage)
                || verify_outcome(tx@, chain_transactions(self.blocks()), res),
    {
        if tx.is_coinbase() {
            return Ok(true);
        }
        let ghost all = chain_transactions(self.blocks());
        let prev_txs = match self.get_prev_txs(tx) {
            Err(ChainError::Storage) => {
                return Err(ChainError::Storage);
            },
            Err(_) => {
                return Err(ChainError::Validation);
            },
            Ok(prev_txs) => prev_txs,
        };
        proof {
            let found = transactions_view(prev_txs@);
            lemma_found_resolve_alike(tx@, found, all);
        }
        let res = tx.verify(&prev_txs);
        proof {
            lemma_verify_same_references(tx@, transactions_view(prev_txs@), all, res);
        }
        res
    }

    /// Returns a list of transactions containing
    /// unspent outputs that are locked to the recipient hash `address`
    pub fn find_unspent_transactions(&self, address: &[u8]) -> (res: Result<
        Vec<Transaction>,
        ChainError,
    >)
        ensures
            self.tip().len() == 0 ==> res is Ok,
            match res {
                Ok(found) => !has_oversize_key(chain_transactions(self.blocks()))
                    && transactions_view(found@) == unspent_transactions_upto(
                    chain_transactions(self.blocks()),
                    address@,
                    chain_transactions(self.blocks()).len() as int,
                ),
                Err(e) => e == ChainError::Storage || (e == ChainError::Oversize
                    && has_oversize_key(chain_transactions(self.blocks()))),
            },
    {
        let blocks = self.collect_blocks()?;
        let txs = transactions_of(&blocks);
        unspent_transactions(&txs, address)
    }

    /// Finds and returns all unspent transaction outputs: for each
    /// transaction id, the outputs of the newest transaction with that id
    /// that no later transaction spends, each with its index, where there is
    /// any
    #[allow(non_snake_case)]
    pub fn find_UTXO(&self) -> (res: Result<Vec<(String, TXOutputs)>, ChainError>)
        ensures
            self.tip().len() == 0 ==> res is Ok,
            match res {
                Ok(utxos) => distinct_ids(utxos@) && entries_map(utxos@) == spec_utxos(
                    newest_first(self.blocks()),
                ),
                Err(e) => e == ChainError::Storage,
            },
    {
        let blocks = self.collect_blocks()?;
        let txs = transactions_newest_first(&blocks);
        Ok(unspent_outputs(&txs))
    }
}

impl<'a> BlockchainIter<'a> {
    /// What the store under the traversal holds.
    pub closed spec fn entries(&self) -> Map<Seq<u8>, Seq<u8>> {
        self.bc.entries()
    }

    /// The link that the traversal follows next: the hash under which it
    /// looks for its next block.
    pub closed spec fn link(&self) -> Seq<char> {
        self.current_hash@
    }

    /// How many blocks the traversal may still give; `None` before its
    /// first block, whose height sets the number.
    pub closed spec fn budget(&self) -> Option<nat> {
        match self.budget {
            None => None,
            Some(budget) => Some(budget as nat),
        }
    }

    /// The blocks that the traversal has still to give, in order.
    pub open spec fn remaining(&self) -> Seq<BlockView> {
        match self.budget() {
            None => chain_from(self.entries(), self.link()),
            Some(budget) => walk(self.entries(), self.link(), budget),
        }
    }

    /// What a step makes of what the store gave under the link. A block is
    /// handed on, and the traversal moves to the block's link, with one block
    /// less to give, or as many as the height of its first block. A fault of
    /// the store is handed on. Where the store holds no block under the link,
    /// or bytes that do not decode, the traversal has ended. In both cases the
    /// traversal stays where it was.
    pub fn advance(&mut self, fetched: Result<Block, ChainError>) -> (res: Result<
        Option<Block>,
        ChainError,
    >)
        ensures
            final(self).entries() == old(self).entries(),
            match fetched {
                Ok(block) => {
                    &&& res == Ok::<Option<Block>, ChainError>(Some(block))
                    &&& final(self).link() == block@.prev_block_hash
                    &&& final(self).budget() == Some(
                        budget_after(old(self).budget(), block@.height),
                    )
                },
                Err(ChainError::Storage) => {
                    &&& res == Err::<Option<Block>, ChainError>(ChainError::Storage)
                    &&& *final(self) == *old(self)
                },
                Err(_) => {
                    &&& res == Ok::<Option<Block>, ChainError>(None)
                    &&& *final(self) == *old(self)
                },
            },
    {
        match fetched {
            Err(ChainError::Storage) => Err(ChainError::Storage),
            Err(_) => Ok(None),
            Ok(block) => {
                let budget = match self.budget {
                    None => block.get_height(),
                    Some(budget) => if budget == 0 {
                        0
                    } else {
                        budget - 1
                    },
                };
                self.budget = Some(budget);
                self.current_hash = block.get_prev_hash();
                Ok(Some(block))
            },
        }
    }

    /// The next block of the traversal, `None` at its end. Where the
    /// traversal has ended already, by an empty link or a budget used up, the
    /// store is not asked. A fault of the store is reported and leaves the
    /// traversal where it was.
    pub fn step(&mut self) -> (res: Result<Option<Block>, ChainError>)
        ensures
            final(self).entries() == old(self).entries(),
            old(self).link().len() == 0 || old(self).budget() == Some(0nat) ==> res matches Ok(
                None,
            ),
            match res {
                Ok(Some(block)) => old(self).remaining() == seq![block@] + final(self).remaining(),
                Ok(None) => old(self).remaining().len() == 0 && final(self).remaining() == old(
                    self,
                ).remaining(),
                Err(e) => e == ChainError::Storage && final(self).remaining() == old(
                    self,
                ).remaining(),
            },
    {
        if let Some(0) = self.budget {
            return Ok(None);
        }
        if self.current_hash.as_str().is_empty() {
            return Ok(None);
        }
        let fetched = fetch_block(&self.bc.db, self.current_hash.as_str().as_bytes());
        self.advance(fetched)
    }

    /// The next block of the traversal; the traversal ends where a link
    /// leads to no block, where the bytes found do not decode, or where the
    /// store reports a fault.
    pub fn next(&mut self) -> (res: Option<Block>)
        ensures
            final(self).entries() == old(self).entries(),
            match res {
                Some(block) => old(self).remaining() == seq![block@] + final(self).remaining(),
                None => final(self).remaining() == old(self).remaining(),
            },
    {
        match self.step() {
            Ok(found) => found,
            Err(_) => None,
        }
    }
}

/// The transactions of a block followed by others are the block's, then the
/// others'.
pub proof fn lemma_chain_transactions_step(block: BlockView, rest: Seq<BlockView>)
    ensures
        chain_transactions(seq![block] + rest) == block.transactions + chain_transactions(rest),
{
    assert((seq![block] + rest).drop_first() =~= rest);
}

/// Where each input's transaction was found in the chain, the list of those
/// found resolves every input as the chain's transactions do.
proof fn lemma_found_resolve_alike(
    tx: TransactionView,
    found: Seq<TransactionView>,
    all: Seq<TransactionView>,
)
    requires
        found.len() == tx.vin.len(),
        forall|j: int|
            0 <= j < tx.vin.len() ==> lookup_transaction(all, tx.vin[j].txid) == Some(
                #[trigger] found[j],
            ),
    ensures
        forall|j: int|
            0 <= j < tx.vin.len() ==> referenced_output(found, #[trigger] tx.vin[j])
                == referenced_output(all, tx.vin[j]),
{
    assert forall|j: int| 0 <= j < tx.vin.len() implies referenced_output(
        found,
        #[trigger] tx.vin[j],
    ) == referenced_output(all, tx.vin[j]) by {
        let id = tx.vin[j].txid;
        let _ = found[j];
        lemma_lookup_has_id(all, id);
        lemma_first_with_id(found, id, 0);
        let k = crate::transaction::first_with_id(found, id, 0);
        lemma_lookup_has_id(all, tx.vin[k].txid);
    }
}

/// A transaction that is refused is not accepted.
proof fn lemma_not_both(tx: TransactionView, all: Seq<TransactionView>, e: ChainError)
    requires
        refused(tx, all, e),
    ensures
        !accepted(tx, all),
{
    if verify_outcome(tx, all, Ok(true)) {
        if verify_outcome(tx, all, Err(e)) {
            let i = choose|i: int|
                0 <= i < tx.vin.len() && crate::transaction::input_digest(tx, all, i) == Err::<
                    Seq<char>,
                    ChainError,
                >(e) && forall|j: int|
                    0 <= j < i ==> crate::transaction::input_verifies(tx, all, j);
            assert(crate::transaction::input_verifies(tx, all, i));
        }
    }
}

/// After a commit the store holds the block's hash as tip.
proof fn lemma_tip_after_commit(entries: Map<Seq<u8>, Seq<u8>>, block: BlockView, data: Seq<u8>)
    ensures
        stored_tip(committed(entries, block, data)) == Ok::<Seq<char>, ChainError>(block.hash),
{
    vstd::utf8::encode_utf8_valid_utf8(block.hash);
    vstd::utf8::encode_utf8_decode_utf8(block.hash);
}

/// After a commit of a valid block whose bytes decode to it, the store
/// holds the block under its hash.
proof fn lemma_block_after_commit(entries: Map<Seq<u8>, Seq<u8>>, block: BlockView, data: Seq<u8>)
    requires
        decoded_block(data) == Some(block),
        block.is_sealed(),
    ensures
        block_at(committed(entries, block, data), block.hash) == Ok::<BlockView, ChainError>(
            block,
        ),
        block_key(block.hash) != tip_key(),
{
    lemma_sealed_hash_is_no_tip_key(block.hash);
}

/// The key of a digest that meets the difficulty is not the tip's key.
pub proof fn lemma_sealed_hash_is_no_tip_key(hash: Seq<char>)
    requires
        crate::block::meets_target(hash),
    ensures
        block_key(hash) != tip_key(),
{
    reveal_strlit("LAST");
    vstd::utf8::encode_utf8_decode_utf8(hash);
    vstd::utf8::encode_utf8_decode_utf8("LAST"@);
}

/// Adding a block a second time changes nothing: once a block was added,
/// adding it again leaves store and tip as they are.
pub proof fn lemma_add_block_idempotent(
    entries: Map<Seq<u8>, Seq<u8>>,
    tip: Seq<char>,
    block: BlockView,
)
    requires
        spec_add_block(entries, tip, block) is Ok,
    ensures
        ({
            let once = spec_add_block(entries, tip, block)->Ok_0;
            spec_add_block(once.0, once.1, block) == Ok::<
                (Map<Seq<u8>, Seq<u8>>, Seq<char>),
                ChainError,
            >(once)
        }),
{
}

/// Committing a valid block, with bytes that decode to it, keeps a sound
/// store sound.
pub proof fn lemma_commit_keeps_sound(
    entries: Map<Seq<u8>, Seq<u8>>,
    block: BlockView,
    data: Seq<u8>,
)
    requires
        store_sound(entries),
        block.is_sealed(),
        decoded_block(data) == Some(block),
    ensures
        store_sound(entries.insert(block_key(block.hash), data)),
        store_sound(committed(entries, block, data)),
{
    assert(entries.insert(block_key(block.hash), data).contains_key(block_key(block.hash)));
    assert(committed(entries, block, data).contains_key(tip_key()));
}

} // verus!
