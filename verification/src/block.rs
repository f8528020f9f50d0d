use crate::codec::{encode_block_content, encoded_block_content};
use crate::errors::ChainError;
use crate::hashing::{sha256_hex, sha256_hex_digest, MAX_MESSAGE_LEN};
use crate::transaction::{
    plain_transactions_view, transactions_view, PlainTransaction, Transaction, TransactionView,
};
use std::time::{Duration, SystemTime, SystemTimeError};
use vstd::prelude::*;

verus! {

/// The difficulty: how many leading characters of a block's digest must be
/// `'0'`.
pub const TARGET_HEXT: usize = 4;

/// What a block is, as mathematical values.
pub struct BlockView {
    pub timestamp: u128,
    pub transactions: Seq<TransactionView>,
    pub prev_block_hash: Seq<char>,
    pub hash: Seq<char>,
    pub height: usize,
    pub nonce: u32,
}

/// Block keeps block headers
#[derive(Debug)]
pub struct Block {
    timestamp: u128,
    transactions: Vec<Transaction>,
    prev_block_hash: String,
    hash: String,
    height: usize,
    nonce: u32,
}

/// A block as the tuple of its fields, in their order.
pub type PlainBlock = (u128, Vec<PlainTransaction>, String, String, usize, u32);

impl View for Block {
    type V = BlockView;

    closed spec fn view(&self) -> BlockView {
        BlockView {
            timestamp: self.timestamp,
            transactions: transactions_view(self.transactions@),
            prev_block_hash: self.prev_block_hash@,
            hash: self.hash@,
            height: self.height,
            nonce: self.nonce,
        }
    }
}

/// The block that a tuple stands for, as mathematical values.
pub open spec fn plain_block_view(p: PlainBlock) -> BlockView {
    BlockView {
        timestamp: p.0,
        transactions: plain_transactions_view(p.1@),
        prev_block_hash: p.2@,
        hash: p.3@,
        height: p.4,
        nonce: p.5,
    }
}

/// Whether a digest meets the difficulty: its first `TARGET_HEXT` characters
/// are all `'0'`.
pub open spec fn meets_target(digest: Seq<char>) -> bool {
    digest.len() >= TARGET_HEXT && forall|i: int| 0 <= i < TARGET_HEXT ==> digest[i] == '0'
}

/// The digest of a block's content with a given nonce: the SHA-256 digest,
/// in hexadecimal, of the encoding of `(prev_hash, transactions, timestamp,
/// difficulty, nonce)`.
pub open spec fn content_digest(
    prev_hash: Seq<char>,
    transactions: Seq<TransactionView>,
    timestamp: u128,
    nonce: u32,
) -> Result<Seq<char>, ChainError> {
    match encoded_block_content(prev_hash, transactions, timestamp, TARGET_HEXT, nonce) {
        None => Err(ChainError::Serialization),
        Some(bytes) => if bytes.len() > MAX_MESSAGE_LEN {
            Err(ChainError::Oversize)
        } else {
            Ok(sha256_hex(bytes))
        },
    }
}

/// The block that holds the given values and is not sealed yet: nonce 0 and
/// no hash.
pub open spec fn unsealed_block(
    transactions: Seq<TransactionView>,
    prev_block_hash: Seq<char>,
    height: usize,
    timestamp: u128,
) -> BlockView {
    BlockView { timestamp, transactions, prev_block_hash, hash: Seq::empty(), height, nonce: 0 }
}

/// The genesis block before it is sealed: the coinbase alone, no
/// predecessor, height 0.
pub open spec fn genesis_unsealed(coinbase: TransactionView, timestamp: u128) -> BlockView {
    unsealed_block(seq![coinbase], Seq::empty(), 0, timestamp)
}

impl BlockView {
    /// The digest of the block's content with the nonce `nonce`.
    pub open spec fn digest_at(self, nonce: u32) -> Result<Seq<char>, ChainError> {
        content_digest(self.prev_block_hash, self.transactions, self.timestamp, nonce)
    }

    /// The digest recomputed from the block's stored fields.
    pub open spec fn digest(self) -> Result<Seq<char>, ChainError> {
        self.digest_at(self.nonce)
    }

    /// Whether the nonce `nonce` does not seal the block: the digest can be
    /// computed and misses the difficulty.
    pub open spec fn unsealed_at(self, nonce: u32) -> bool {
        self.digest_at(nonce) matches Ok(digest) && !meets_target(digest)
    }

    /// Whether no nonce from `from` up to, not including, `to` seals the
    /// block.
    pub open spec fn unsealed_between(self, from: int, to: int) -> bool {
        forall|m: u32| from <= m < to ==> #[trigger] self.unsealed_at(m)
    }

    /// Whether the block is valid: its stored hash is the digest recomputed
    /// from its stored fields, and that digest meets the difficulty.
    pub open spec fn is_sealed(self) -> bool {
        self.digest() == Ok::<Seq<char>, ChainError>(self.hash) && meets_target(self.hash)
    }

    /// Whether `self` is `open` sealed by the search from `open`'s nonce: the
    /// first nonce from there on whose digest meets the difficulty, and that
    /// digest as hash.
    pub open spec fn seals(self, open: BlockView) -> bool {
        &&& self.timestamp == open.timestamp
        &&& self.transactions == open.transactions
        &&& self.prev_block_hash == open.prev_block_hash
        &&& self.height == open.height
        &&& open.nonce <= self.nonce
        &&& self.is_sealed()
        &&& open.unsealed_between(open.nonce as int, self.nonce as int)
    }

    /// Why the search from the block's nonce fails: no nonce of the 32-bit
    /// space seals the block, or the digest for some nonce cannot be computed
    /// and no nonce before it seals the block.
    pub open spec fn seal_fault(self, e: ChainError) -> bool {
        if e == ChainError::NonceExhausted {
            self.unsealed_between(self.nonce as int, u32::MAX + 1)
        } else {
            exists|n: u32|
                self.nonce <= n && self.digest_at(n) == Err::<Seq<char>, ChainError>(e)
                    && self.unsealed_between(self.nonce as int, n as int)
        }
    }
}

/// A reading of the wall clock.
#[verifier::external_type_specification]
#[verifier::external_body]
pub struct ExSystemTime(SystemTime);

/// Calls `SystemTime::now`, which reads the wall clock. Nothing is claimed of
/// the reading.
#[verifier::external_body]
pub(crate) fn clock_now() -> SystemTime {
    SystemTime::now()
}

/// Why a reading of the clock lies before another.
#[verifier::external_type_specification]
#[verifier::external_body]
pub struct ExSystemTimeError(SystemTimeError);

/// Calls `SystemTime::duration_since` with the Unix epoch: the time from the
/// epoch to the reading, an error where the reading is before the epoch.
/// Nothing is claimed of the duration.
#[verifier::external_body]
pub(crate) fn since_epoch(reading: &SystemTime) -> Result<Duration, SystemTimeError> {
    reading.duration_since(SystemTime::UNIX_EPOCH)
}

/// Calls `Duration::as_millis`: the whole milliseconds of a duration.
/// Nothing is claimed of the number.
#[verifier::external_body]
pub(crate) fn whole_millis(elapsed: &Duration) -> u128 {
    elapsed.as_millis()
}

/// The time of the wall clock in milliseconds since the Unix epoch, `None`
/// where the clock is before the epoch.
pub(crate) fn unix_millis() -> Option<u128> {
    let reading = clock_now();
    match since_epoch(&reading) {
        Err(_) => None,
        Ok(elapsed) => Some(whole_millis(&elapsed)),
    }
}

/// An owned copy of a text.
pub(crate) fn text_of(text: &str) -> (owned: String)
    ensures
        owned@ == text@,
{
    text.to_owned()
}

/// Whether the first `TARGET_HEXT` characters of a digest are `'0'`.
pub fn digest_meets_target(digest: &str) -> (meets: bool)
    ensures
        meets == meets_target(digest@),
{
    if digest.unicode_len() < TARGET_HEXT {
        return false;
    }
    let mut i: usize = 0;
    while i < TARGET_HEXT
        invariant
            i <= TARGET_HEXT,
            digest@.len() >= TARGET_HEXT,
            forall|k: int| 0 <= k < i ==> digest@[k] == '0',
        decreases TARGET_HEXT - i,
    {
        if digest.get_char(i) != '0' {
            return false;
        }
        i = i + 1;
    }
    true
}

/// The digest of a block's content with the nonce `nonce`.
fn compute_digest(
    prev_hash: &String,
    transactions: &Vec<PlainTransaction>,
    timestamp: u128,
    nonce: u32,
) -> (res: Result<String, ChainError>)
    ensures
        match res {
            Ok(digest) => content_digest(
                prev_hash@,
                plain_transactions_view(transactions@),
                timestamp,
                nonce,
            ) == Ok::<Seq<char>, ChainError>(digest@) && digest@.len() == 64,
            Err(e) => content_digest(
                prev_hash@,
                plain_transactions_view(transactions@),
                timestamp,
                nonce,
            ) == Err::<Seq<char>, ChainError>(e),
        },
{
    match encode_block_content(prev_hash, transactions, timestamp, TARGET_HEXT, nonce) {
        Err(_) => Err(ChainError::Serialization),
        Ok(bytes) => {
            if bytes.len() as u64 > MAX_MESSAGE_LEN {
                Err(ChainError::Oversize)
            } else {
                Ok(sha256_hex_digest(bytes.as_slice()))
            }
        },
    }
}

/// The first nonce from `start` on whose digest meets the difficulty, with
/// that digest.
fn search_nonce(
    prev_hash: &String,
    transactions: &Vec<PlainTransaction>,
    timestamp: u128,
    start: u32,
) -> (res: Result<(u32, String), ChainError>)
    ensures
        ({
            let open = BlockView {
                timestamp,
                transactions: plain_transactions_view(transactions@),
                prev_block_hash: prev_hash@,
                hash: Seq::empty(),
                height: 0,
                nonce: start,
            };
            match res {
                Ok((nonce, digest)) => start <= nonce && open.digest_at(nonce) == Ok::<
                    Seq<char>,
                    ChainError,
                >(digest@) && meets_target(digest@) && digest@.len() == 64
                    && open.unsealed_between(start as int, nonce as int),
                Err(e) => open.seal_fault(e),
            }
        }),
{
    let ghost open = BlockView {
        timestamp,
        transactions: plain_transactions_view(transactions@),
        prev_block_hash: prev_hash@,
        hash: Seq::empty(),
        height: 0,
        nonce: start,
    };
    let mut nonce: u32 = start;
    loop
        invariant
            start <= nonce,
            open == (BlockView {
                timestamp,
                transactions: plain_transactions_view(transactions@),
                prev_block_hash: prev_hash@,
                hash: Seq::empty(),
                height: 0,
                nonce: start,
            }),
            open.unsealed_between(start as int, nonce as int),
        decreases u32::MAX - nonce,
    {
        let digest = match compute_digest(prev_hash, transactions, timestamp, nonce) {
            Err(e) => {
                return Err(e);
            },
            Ok(digest) => digest,
        };
        if digest_meets_target(digest.as_str()) {
            return Ok((nonce, digest));
        }
        assert(open.unsealed_at(nonce));
        if nonce == u32::MAX {
            return Err(ChainError::NonceExhausted);
        }
        nonce = nonce + 1;
    }
}

impl Block {
    /// The transactions of the block, in their order.
    pub fn get_transaction(&self) -> (transactions: &Vec<Transaction>)
        ensures
            transactions_view(transactions@) == self@.transactions,
    {
        &self.transactions
    }

    /// The hash of the block before this one; empty for the genesis block.
    pub fn get_prev_hash(&self) -> (prev_hash: String)
        ensures
            prev_hash@ == self@.prev_block_hash,
    {
        self.prev_block_hash.clone()
    }

    /// The hash stored in the block.
    pub fn get_hash(&self) -> (hash: String)
        ensures
            hash@ == self@.hash,
    {
        self.hash.clone()
    }

    /// The height of the block: 0 for the genesis block.
    pub fn get_height(&self) -> (height: usize)
        ensures
            height == self@.height,
    {
        self.height
    }

    /// The time stamp of the block, in milliseconds since the Unix epoch.
    pub fn get_timestamp(&self) -> (timestamp: u128)
        ensures
            timestamp == self@.timestamp,
    {
        self.timestamp
    }

    /// The nonce stored in the block.
    pub fn get_nonce(&self) -> (nonce: u32)
        ensures
            nonce == self@.nonce,
    {
        self.nonce
    }

    /// The block as a tuple.
    pub fn to_plain(&self) -> (plain: PlainBlock)
        ensures
            plain_block_view(plain) == self@,
    {
        (
            self.timestamp,
            crate::transaction::transactions_to_plain(&self.transactions),
            self.prev_block_hash.clone(),
            self.hash.clone(),
            self.height,
            self.nonce,
        )
    }

    /// The block that a tuple stands for. Nothing is checked: the block need
    /// not be valid.
    pub fn from_plain(plain: &PlainBlock) -> (block: Block)
        ensures
            block@ == plain_block_view(*plain),
    {
        Block {
            timestamp: plain.0,
            transactions: crate::transaction::transactions_from_plain(&plain.1),
            prev_block_hash: plain.2.clone(),
            hash: plain.3.clone(),
            height: plain.4,
            nonce: plain.5,
        }
    }

    /// The bytes that the block's digest is taken of: the encoding of
    /// `(prev_hash, transactions, timestamp, difficulty, nonce)`
    pub fn prepare_hash_data(&self) -> (res: Result<Vec<u8>, ChainError>)
        ensures
            match res {
                Ok(bytes) => encoded_block_content(
                    self@.prev_block_hash,
                    self@.transactions,
                    self@.timestamp,
                    TARGET_HEXT,
                    self@.nonce,
                ) == Some(bytes@),
                Err(e) => e == ChainError::Serialization && encoded_block_content(
                    self@.prev_block_hash,
                    self@.transactions,
                    self@.timestamp,
                    TARGET_HEXT,
                    self@.nonce,
                ) is None,
            },
    {
        let plain = crate::transaction::transactions_to_plain(&self.transactions);
        match encode_block_content(
            &self.prev_block_hash,
            &plain,
            self.timestamp,
            TARGET_HEXT,
            self.nonce,
        ) {
            Err(_) => Err(ChainError::Serialization),
            Ok(bytes) => Ok(bytes),
        }
    }

    /// Validate recomputes the digest from the stored fields and says
    /// whether it meets the difficulty
    pub fn validate(&self) -> (res: Result<bool, ChainError>)
        ensures
            match res {
                Ok(valid) => self@.digest() matches Ok(digest) && valid == meets_target(digest),
                Err(e) => self@.digest() == Err::<Seq<char>, ChainError>(e),
            },
    {
        let plain = crate::transaction::transactions_to_plain(&self.transactions);
        match compute_digest(&self.prev_block_hash, &plain, self.timestamp, self.nonce) {
            Err(e) => Err(e),
            Ok(digest) => Ok(digest_meets_target(digest.as_str())),
        }
    }

    /// Run performs a proof-of-work: from the stored nonce on, it takes the
    /// first nonce whose digest meets the difficulty and stores nonce and
    /// digest. On a fault the block is left as it was.
    pub fn run_proof_of_work(&mut self) -> (res: Result<(), ChainError>)
        ensures
            forall|f: ChainError| #[trigger]
                old(self)@.seal_fault(f) ==> res == Err::<(), ChainError>(f),
            match res {
                Ok(()) => final(self)@.seals(old(self)@) && final(self)@.hash.len() == 64,
                Err(e) => final(self)@ == old(self)@ && old(self)@.seal_fault(e),
            },
    {
        let plain = crate::transaction::transactions_to_plain(&self.transactions);
        let ghost open = self@;
        match search_nonce(&self.prev_block_hash, &plain, self.timestamp, self.nonce) {
            Err(e) => {
                proof {
                    lemma_search_ignores_hash_and_height(open, e);
                    assert forall|f: ChainError| #[trigger] open.seal_fault(f) implies e == f by {
                        lemma_seal_fault_is_one(open, e, f);
                    }
                }
                Err(e)
            },
            Ok((nonce, digest)) => {
                self.nonce = nonce;
                self.hash = digest;
                proof {
                    lemma_unsealed_ignores_hash_and_height(open, nonce as int);
                    assert forall|f: ChainError| !#[trigger] open.seal_fault(f) by {
                        lemma_sealed_has_no_fault(open, self@, f);
                    }
                }
                Ok(())
            },
        }
    }

    /// Creates and returns a sealed Block with the given time stamp
    pub fn new_block_at(
        data: Vec<Transaction>,
        prev_block_hash: String,
        height: usize,
        timestamp: u128,
    ) -> (res: Result<Block, ChainError>)
        ensures
            forall|f: ChainError| #[trigger]
                unsealed_block(
                    transactions_view(data@),
                    prev_block_hash@,
                    height,
                    timestamp,
                ).seal_fault(f) ==> (res matches Err(e) && e == f),
            match res {
                Ok(block) => block@.seals(
                    unsealed_block(
                        transactions_view(data@),
                        prev_block_hash@,
                        height,
                        timestamp,
                    ),
                ) && block@.hash.len() == 64,
                Err(e) => unsealed_block(
                    transactions_view(data@),
                    prev_block_hash@,
                    height,
                    timestamp,
                ).seal_fault(e),
            },
    {
        let mut block = Block {
            timestamp,
            transactions: data,
            prev_block_hash,
            hash: String::new(),
            height,
            nonce: 0,
        };
        match block.run_proof_of_work() {
            Err(e) => Err(e),
            Ok(()) => Ok(block),
        }
    }

    /// Creates and returns a sealed Block, stamped with the time of
    /// the wall clock
    pub fn new_block(data: Vec<Transaction>, prev_block_hash: String, height: usize) -> (res:
        Result<Block, ChainError>)
        ensures
            match res {
                Ok(block) => block@.seals(
                    unsealed_block(
                        transactions_view(data@),
                        prev_block_hash@,
                        height,
                        block@.timestamp,
                    ),
                ) && block@.hash.len() == 64,
                Err(e) => e == ChainError::Clock || exists|timestamp: u128|
                    (#[trigger] unsealed_block(
                        transactions_view(data@),
                        prev_block_hash@,
                        height,
                        timestamp,
                    )).seal_fault(e),
            },
    {
        match unix_millis() {
            None => Err(ChainError::Clock),
            Some(timestamp) => Block::new_block_at(data, prev_block_hash, height, timestamp),
        }
    }

    /// Creates and returns the genesis Block: it holds the
    /// coinbase transaction alone, has no predecessor and height 0
    pub fn new_genesis_block_at(coinbase: Transaction, timestamp: u128) -> (res: Result<
        Block,
        ChainError,
    >)
        ensures
            forall|f: ChainError| #[trigger]
                genesis_unsealed(coinbase@, timestamp).seal_fault(f) ==> (res matches Err(e) && e
                    == f),
            match res {
                Ok(block) => block@.seals(genesis_unsealed(coinbase@, timestamp))
                    && block@.prev_block_hash.len() == 0 && block@.height == 0
                    && block@.hash.len() == 64,
                Err(e) => genesis_unsealed(coinbase@, timestamp).seal_fault(e),
            },
    {
        let mut data: Vec<Transaction> = Vec::new();
        data.push(coinbase);
        assert(transactions_view(data@) =~= seq![coinbase@]);
        Block::new_block_at(data, String::new(), 0, timestamp)
    }

    /// Creates and returns the genesis Block, stamped with
    /// the time of the wall clock
    pub fn new_genesis_block(coinbase: Transaction) -> (res: Result<Block, ChainError>)
        ensures
            match res {
                Ok(block) => block@.seals(genesis_unsealed(coinbase@, block@.timestamp))
                    && block@.prev_block_hash.len() == 0 && block@.height == 0
                    && block@.hash.len() == 64,
                Err(e) => e == ChainError::Clock || exists|timestamp: u128|
                    (#[trigger] genesis_unsealed(coinbase@, timestamp)).seal_fault(e),
            },
    {
        match unix_millis() {
            None => Err(ChainError::Clock),
            Some(timestamp) => Block::new_genesis_block_at(coinbase, timestamp),
        }
    }
}

/// Which nonces fail to seal a block depends neither on its hash nor on its
/// height.
proof fn lemma_unsealed_ignores_hash_and_height(b: BlockView, to: int)
    ensures
        (BlockView { hash: Seq::empty(), height: 0, ..b }).unsealed_between(b.nonce as int, to)
            ==> b.unsealed_between(b.nonce as int, to),
{
    let c = BlockView { hash: Seq::empty(), height: 0, ..b };
    if c.unsealed_between(b.nonce as int, to) {
        assert forall|m: u32| b.nonce as int <= m < to implies #[trigger] b.unsealed_at(m) by {
            assert(c.unsealed_at(m));
        }
    }
}

/// Why a search fails depends neither on the block's hash nor on its height.
proof fn lemma_search_ignores_hash_and_height(b: BlockView, e: ChainError)
    requires
        (BlockView { hash: Seq::empty(), height: 0, ..b }).seal_fault(e),
    ensures
        b.seal_fault(e),
{
    let c = BlockView { hash: Seq::empty(), height: 0, ..b };
    if e == ChainError::NonceExhausted {
        lemma_unsealed_ignores_hash_and_height(b, u32::MAX + 1);
    } else {
        let n = choose|n: u32|
            c.nonce <= n && c.digest_at(n) == Err::<Seq<char>, ChainError>(e)
                && c.unsealed_between(c.nonce as int, n as int);
        lemma_unsealed_ignores_hash_and_height(b, n as int);
        assert(b.digest_at(n) == Err::<Seq<char>, ChainError>(e));
    }
}

/// A valid block validates, and the first `TARGET_HEXT` characters of its
/// stored hash are `'0'`.
pub proof fn lemma_sealed_block_validates(block: BlockView)
    requires
        block.is_sealed(),
    ensures
        block.digest() matches Ok(digest) && meets_target(digest),
        block.hash.len() >= TARGET_HEXT,
        forall|i: int| 0 <= i < TARGET_HEXT ==> block.hash[i] == '0',
{
}

/// A block that can be sealed has no fault of sealing.
pub proof fn lemma_sealed_has_no_fault(open: BlockView, sealed: BlockView, f: ChainError)
    requires
        sealed.seals(open),
    ensures
        !open.seal_fault(f),
{
    assert(open.digest_at(sealed.nonce) == sealed.digest());
    if !open.seal_fault(f) {
    } else if f == ChainError::NonceExhausted {
        assert(open.unsealed_at(sealed.nonce));
    } else {
        let n = choose|n: u32|
            open.nonce <= n && open.digest_at(n) == Err::<Seq<char>, ChainError>(f)
                && open.unsealed_between(open.nonce as int, n as int);
        if n < sealed.nonce {
            assert(open.unsealed_at(n));
        } else if n > sealed.nonce {
            assert(open.unsealed_at(sealed.nonce));
        }
    }
}

/// The search for a nonce has one fault at most.
pub proof fn lemma_seal_fault_is_one(open: BlockView, e: ChainError, f: ChainError)
    requires
        open.seal_fault(e),
        open.seal_fault(f),
    ensures
        e == f,
{
    if e != f {
        if e == ChainError::NonceExhausted {
            let n = choose|n: u32|
                open.nonce <= n && open.digest_at(n) == Err::<Seq<char>, ChainError>(f)
                    && open.unsealed_between(open.nonce as int, n as int);
            assert(open.unsealed_at(n));
        } else if f == ChainError::NonceExhausted {
            let n = choose|n: u32|
                open.nonce <= n && open.digest_at(n) == Err::<Seq<char>, ChainError>(e)
                    && open.unsealed_between(open.nonce as int, n as int);
            assert(open.unsealed_at(n));
        } else {
            let n = choose|n: u32|
                open.nonce <= n && open.digest_at(n) == Err::<Seq<char>, ChainError>(e)
                    && open.unsealed_between(open.nonce as int, n as int);
            let m = choose|m: u32|
                open.nonce <= m && open.digest_at(m) == Err::<Seq<char>, ChainError>(f)
                    && open.unsealed_between(open.nonce as int, m as int);
            if n < m {
                assert(open.unsealed_at(n));
            } else if m < n {
                assert(open.unsealed_at(m));
            }
        }
    }
}

} // verus!
