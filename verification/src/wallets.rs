use crate::address::{base58_script_address, encode_base58_script_address};
use crate::codec::{
    decode_wallet, decoded_wallet, encode_wallet, encoded_wallet, same_text, text_from_utf8,
};
use crate::errors::ChainError;
use crate::hashing::{
    ripemd160_bytes, ripemd160_digest, sha256_bytes, sha256_digest, MAX_MESSAGE_LEN,
};
use crate::signing::{ed25519_keypair, keypair_from_seed};
use crate::store::{db_entries, db_flush, db_insert, db_scan, is_scan_of, items_view};
use crate::tx::copy_bytes;
use rand::RngCore;
use rand::rngs::OsRng;
use vstd::prelude::*;
use vstd::utf8::{decode_utf8, encode_utf8, valid_utf8};

verus! {

/// Why the system gave no random bytes.
#[verifier::external_type_specification]
#[verifier::external_body]
pub struct ExRandError(rand::Error);

/// What a wallet is, as mathematical values.
pub struct WalletView {
    pub secret_key: Seq<u8>,
    pub public_key: Seq<u8>,
}

/// Wallet stores private and public keys
#[derive(Debug)]
pub struct Wallet {
    pub secret_key: Vec<u8>,
    pub public_key: Vec<u8>,
}

/// Wallets stores a collection of wallets
pub struct Wallets {
    wallets: Vec<(String, Wallet)>,
}

impl View for Wallet {
    type V = WalletView;

    open spec fn view(&self) -> WalletView {
        WalletView { secret_key: self.secret_key@, public_key: self.public_key@ }
    }
}

impl Clone for Wallet {
    fn clone(&self) -> (copy: Wallet)
        ensures
            copy@ == self@,
    {
        Wallet {
            secret_key: copy_bytes(&self.secret_key),
            public_key: copy_bytes(&self.public_key),
        }
    }
}

/// The recipient hash of a public key: the RIPEMD-160 digest of its SHA-256
/// digest.
pub open spec fn spec_hash_pub_key(pub_key: Seq<u8>) -> Seq<u8> {
    ripemd160_bytes(sha256_bytes(pub_key))
}

/// The address of a public key: the text of its recipient hash.
pub open spec fn spec_address(public_key: Seq<u8>) -> Seq<char> {
    base58_script_address(spec_hash_pub_key(public_key))
}

/// Whether no address stands twice in a list of wallets.
pub open spec fn distinct_addresses(list: Seq<(String, Wallet)>) -> bool {
    forall|i: int, j: int|
        0 <= i < j < list.len() ==> (#[trigger] list[i]).0@ != (#[trigger] list[j]).0@
}

/// The map that a list of wallets stands for.
pub open spec fn list_map(list: Seq<(String, Wallet)>) -> Map<Seq<char>, WalletView> {
    Map::new(
        |address: Seq<char>|
            exists|k: int| 0 <= k < list.len() && (#[trigger] list[k]).0@ == address,
        |address: Seq<char>|
            list[choose|k: int| 0 <= k < list.len() && (#[trigger] list[k]).0@ == address].1@,
    )
}

/// Whether every entry of a store reads as a wallet: its key is a text and
/// its value decodes as a pair of keys.
pub open spec fn wallets_readable(entries: Map<Seq<u8>, Seq<u8>>) -> bool {
    forall|key: Seq<u8>| #[trigger]
        entries.contains_key(key) ==> valid_utf8(key) && decoded_wallet(entries[key]) is Some
}

/// The wallets that a store holds, by address.
pub open spec fn wallets_of(entries: Map<Seq<u8>, Seq<u8>>) -> Map<Seq<char>, WalletView> {
    Map::new(
        |address: Seq<char>| entries.contains_key(encode_utf8(address)),
        |address: Seq<char>|
            WalletView {
                secret_key: decoded_wallet(entries[encode_utf8(address)]).unwrap().0,
                public_key: decoded_wallet(entries[encode_utf8(address)]).unwrap().1,
            },
    )
}

/// Whether a store holds under a key what it held before.
pub open spec fn untouched(
    before: Map<Seq<u8>, Seq<u8>>,
    after: Map<Seq<u8>, Seq<u8>>,
    key: Seq<u8>,
) -> bool {
    (after.contains_key(key) <==> before.contains_key(key)) && (before.contains_key(key)
        ==> after[key] == before[key])
}

/// Whether a key is that of one of the first `n` wallets of a list.
pub open spec fn written(list: Seq<(String, Wallet)>, n: int, key: Seq<u8>) -> bool {
    exists|k: int| 0 <= k < n && key == encode_utf8((#[trigger] list[k]).0@)
}

/// Whether `after` is the store `before` with the wallets written to it:
/// under the key of each address the encoding of its wallet, the rest as it
/// was.
pub open spec fn wallets_saved(
    before: Map<Seq<u8>, Seq<u8>>,
    wallets: Map<Seq<char>, WalletView>,
    after: Map<Seq<u8>, Seq<u8>>,
) -> bool {
    &&& forall|address: Seq<char>| #[trigger]
        wallets.contains_key(address) ==> after.contains_key(encode_utf8(address))
            && encoded_wallet(wallets[address].secret_key, wallets[address].public_key) == Some(
            after[encode_utf8(address)],
        )
    &&& forall|key: Seq<u8>|
        !(exists|address: Seq<char>| #[trigger]
            wallets.contains_key(address) && key == encode_utf8(address)) ==> #[trigger] untouched(
            before,
            after,
            key,
        )
}

/// Calls `OsRng.try_fill_bytes` of `rand` on a buffer of 32 bytes. Of the
/// bytes nothing is claimed but their number.
#[verifier::external_body]
pub(crate) fn random_seed() -> (res: Result<Vec<u8>, rand::Error>)
    ensures
        res matches Ok(seed) ==> seed@.len() == 32,
{
    let mut seed = [0u8; 32];
    OsRng.try_fill_bytes(&mut seed).map(|_| seed.to_vec())
}

/// Hashes public key: it replaces the key by its recipient hash,
/// which has 20 bytes
pub fn hash_pub_key(pub_key: &mut Vec<u8>)
    requires
        old(pub_key)@.len() <= MAX_MESSAGE_LEN,
    ensures
        final(pub_key)@ == spec_hash_pub_key(old(pub_key)@),
        final(pub_key)@.len() == 20,
{
    let first = sha256_digest(pub_key.as_slice());
    let second = ripemd160_digest(first.as_slice());
    *pub_key = second;
}

impl Wallet {
    /// The wallet whose keys are derived from a seed.
    pub fn from_seed(seed: &[u8]) -> (wallet: Wallet)
        ensures
            wallet@.secret_key == ed25519_keypair(seed@).0,
            wallet@.public_key == ed25519_keypair(seed@).1,
            wallet@.secret_key.len() == 64,
            wallet@.public_key.len() == 32,
    {
        let (secret_key, public_key) = keypair_from_seed(seed);
        Wallet { secret_key, public_key }
    }

    /// Creates and returns a Wallet, its keys derived from 32
    /// random bytes
    pub fn new() -> (res: Result<Wallet, ChainError>)
        ensures
            match res {
                Ok(wallet) => exists|seed: Seq<u8>|
                    seed.len() == 32 && wallet@.secret_key == (#[trigger] ed25519_keypair(seed)).0
                        && wallet@.public_key == ed25519_keypair(seed).1,
                Err(e) => e == ChainError::Entropy,
            },
    {
        match random_seed() {
            Err(_) => Err(ChainError::Entropy),
            Ok(seed) => Ok(Wallet::from_seed(seed.as_slice())),
        }
    }

    /// Returns wallet address
    pub fn get_address(&self) -> (address: String)
        requires
            self@.public_key.len() <= MAX_MESSAGE_LEN,
        ensures
            address@ == spec_address(self@.public_key),
    {
        let mut pub_hash = copy_bytes(&self.public_key);
        hash_pub_key(&mut pub_hash);
        encode_base58_script_address(pub_hash.as_slice())
    }
}

impl Wallets {
    /// Whether the collection is well formed: it holds no address twice.
    /// Every collection that this module hands out is.
    pub closed spec fn wf(&self) -> bool {
        distinct_addresses(self.wallets@)
    }

    /// The wallets by address.
    pub closed spec fn view(&self) -> Map<Seq<char>, WalletView> {
        list_map(self.wallets@)
    }

    /// A collection without a wallet.
    pub fn empty() -> (wallets: Wallets)
        ensures
            wallets.wf(),
            wallets@ == Map::<Seq<char>, WalletView>::empty(),
    {
        let wallets = Wallets { wallets: Vec::new() };
        wallets
    }

    /// Creates Wallets and fills it with the wallets that a store
    /// holds
    pub fn new(db: &sled::Db) -> (res: Result<Wallets, ChainError>)
        ensures
            match res {
                Ok(wallets) => wallets.wf() && wallets_readable(db_entries(*db)) && wallets@
                    == wallets_of(db_entries(*db)),
                Err(e) => e == ChainError::Storage || (e == ChainError::Serialization
                    && !wallets_readable(db_entries(*db))),
            },
    {
        let items = match db_scan(db) {
            Err(_) => {
                return Err(ChainError::Storage);
            },
            Ok(items) => items,
        };
        let ghost entries = db_entries(*db);
        let ghost view = items_view(items@);
        let mut wallets = Wallets::empty();
        let mut i: usize = 0;
        while i < items.len()
            invariant
                i <= items.len(),
                view == items_view(items@),
                entries == db_entries(*db),
                is_scan_of(view, entries),
                wallets.wf(),
                forall|k: int|
                    0 <= k < i ==> valid_utf8((#[trigger] view[k]).0) && decoded_wallet(
                        view[k].1,
                    ) is Some && wallets@.contains_key(decode_utf8(view[k].0))
                        && wallets@[decode_utf8(view[k].0)] == (WalletView {
                        secret_key: decoded_wallet(view[k].1).unwrap().0,
                        public_key: decoded_wallet(view[k].1).unwrap().1,
                    }),
                forall|a: Seq<char>| #[trigger]
                    wallets@.contains_key(a) ==> exists|k: int|
                        0 <= k < i && decode_utf8((#[trigger] view[k]).0) == a,
            decreases items.len() - i,
        {
            let address = match text_from_utf8(copy_bytes(&items[i].0)) {
                None => {
                    assert(entries.contains_key(view[i as int].0));
                    return Err(ChainError::Serialization);
                },
                Some(address) => address,
            };
            let wallet = match decode_wallet(items[i].1.as_slice()) {
                Err(_) => {
                    assert(entries.contains_key(view[i as int].0));
                    return Err(ChainError::Serialization);
                },
                Ok((secret_key, public_key)) => Wallet { secret_key, public_key },
            };
            wallets.insert(address, wallet);
            proof {
                assert forall|k: int| 0 <= k < i + 1 implies valid_utf8((#[trigger] view[k]).0)
                    && decoded_wallet(view[k].1) is Some && wallets@.contains_key(
                    decode_utf8(view[k].0),
                ) && wallets@[decode_utf8(view[k].0)] == (WalletView {
                    secret_key: decoded_wallet(view[k].1).unwrap().0,
                    public_key: decoded_wallet(view[k].1).unwrap().1,
                }) by {
                    if k < i {
                        vstd::utf8::decode_utf8_encode_utf8(view[k].0);
                        vstd::utf8::decode_utf8_encode_utf8(view[i as int].0);
                    }
                }
                assert forall|a: Seq<char>| #[trigger] wallets@.contains_key(a) implies exists|
                    k: int,
                | 0 <= k < i + 1 && decode_utf8((#[trigger] view[k]).0) == a by {
                    if a == address@ {
                        assert(decode_utf8(view[i as int].0) == a);
                    }
                }
            }
            i = i + 1;
        }
        proof {
            let target = wallets_of(entries);
            assert forall|a: Seq<char>| wallets@.contains_key(a) == target.contains_key(a) by {
                if wallets@.contains_key(a) {
                    let k = choose|k: int|
                        0 <= k < view.len() && decode_utf8((#[trigger] view[k]).0) == a;
                    vstd::utf8::decode_utf8_encode_utf8(view[k].0);
                }
                if target.contains_key(a) {
                    vstd::utf8::encode_utf8_decode_utf8(a);
                }
            }
            assert forall|a: Seq<char>| wallets@.contains_key(a) implies wallets@[a]
                == target[a] by {
                let k = choose|k: int|
                    0 <= k < view.len() && decode_utf8((#[trigger] view[k]).0) == a;
                vstd::utf8::decode_utf8_encode_utf8(view[k].0);
            }
        }
        Ok(wallets)
    }

    /// The position of the wallet with the given address.
    fn position_of(&self, address: &str) -> (found: Option<usize>)
        ensures
            match found {
                Some(k) => k < self.wallets@.len() && self.wallets@[k as int].0@ == address@,
                None => !self@.contains_key(address@),
            },
    {
        let mut k: usize = 0;
        while k < self.wallets.len()
            invariant
                k <= self.wallets.len(),
                forall|j: int| 0 <= j < k ==> (#[trigger] self.wallets@[j]).0@ != address@,
            decreases self.wallets.len() - k,
        {
            if same_text(self.wallets[k].0.as_str(), address) {
                return Some(k);
            }
            k = k + 1;
        }
        None
    }

    /// Puts a wallet under an address, in place of the one that was there.
    pub fn insert(&mut self, address: String, wallet: Wallet)
        requires
            old(self).wf(),
        ensures
            final(self).wf(),
            final(self)@ == old(self)@.insert(address@, wallet@),
    {
        match self.position_of(address.as_str()) {
            Some(k) => {
                proof {
                    lemma_list_map_set(self.wallets@, k as int, (address, wallet));
                }
                self.wallets.set(k, (address, wallet));
            },
            None => {
                proof {
                    lemma_list_map_push(self.wallets@, (address, wallet));
                }
                self.wallets.push((address, wallet));
            },
        }
    }

    /// Adds a Wallet to Wallets, its keys derived from 32 random
    /// bytes, and returns its address
    pub fn create_wallet(&mut self) -> (res: Result<String, ChainError>)
        requires
            old(self).wf(),
        ensures
            final(self).wf(),
            match res {
                Ok(address) => exists|seed: Seq<u8>|
                    seed.len() == 32 && address@ == spec_address(
                        (#[trigger] ed25519_keypair(seed)).1,
                    ) && final(self)@ == old(self)@.insert(
                        address@,
                        WalletView {
                            secret_key: ed25519_keypair(seed).0,
                            public_key: ed25519_keypair(seed).1,
                        },
                    ),
                Err(e) => e == ChainError::Entropy && final(self)@ == old(self)@,
            },
    {
        let seed = match random_seed() {
            Err(_) => {
                return Err(ChainError::Entropy);
            },
            Ok(seed) => seed,
        };
        let address = self.create_wallet_from(seed.as_slice());
        Ok(address)
    }

    /// Adds the wallet whose keys are derived from a seed, and returns its
    /// address.
    pub fn create_wallet_from(&mut self, seed: &[u8]) -> (address: String)
        requires
            old(self).wf(),
        ensures
            final(self).wf(),
            address@ == spec_address(ed25519_keypair(seed@).1),
            final(self)@ == old(self)@.insert(
                address@,
                WalletView {
                    secret_key: ed25519_keypair(seed@).0,
                    public_key: ed25519_keypair(seed@).1,
                },
            ),
    {
        let wallet = Wallet::from_seed(seed);
        let address = wallet.get_address();
        self.insert(address.clone(), wallet);
        address
    }

    /// Returns an array of addresses stored in the wallet file:
    /// each address once
    pub fn get_all_addresses(&self) -> (addresses: Vec<String>)
        requires
            self.wf(),
        ensures
            forall|a: Seq<char>|
                self@.contains_key(a) <==> exists|k: int|
                    0 <= k < addresses@.len() && (#[trigger] addresses@[k])@ == a,
            forall|i: int, j: int|
                0 <= i < j < addresses@.len() ==> (#[trigger] addresses@[i])@ != (
                #[trigger] addresses@[j])@,
    {
        let mut addresses: Vec<String> = Vec::new();
        let mut k: usize = 0;
        while k < self.wallets.len()
            invariant
                k <= self.wallets.len(),
                addresses@.len() == k,
                forall|j: int| 0 <= j < k ==> (#[trigger] addresses@[j])@ == self.wallets@[j].0@,
            decreases self.wallets.len() - k,
        {
            addresses.push(self.wallets[k].0.clone());
            k = k + 1;
        }
        proof {
            assert forall|a: Seq<char>|
                self@.contains_key(a) <==> exists|k: int|
                    0 <= k < addresses@.len() && (#[trigger] addresses@[k])@ == a by {
                if self@.contains_key(a) {
                    let j = choose|j: int|
                        0 <= j < self.wallets@.len() && (#[trigger] self.wallets@[j]).0@ == a;
                    assert(addresses@[j]@ == a);
                }
                if exists|k: int| 0 <= k < addresses@.len() && (#[trigger] addresses@[k])@ == a {
                    let j = choose|j: int|
                        0 <= j < addresses@.len() && (#[trigger] addresses@[j])@ == a;
                    assert(self.wallets@[j].0@ == a);
                }
            }
            assert forall|i: int, j: int| 0 <= i < j < addresses@.len() implies (
            #[trigger] addresses@[i])@ != (#[trigger] addresses@[j])@ by {
            }
        }
        addresses
    }

    /// Returns a Wallet by its address
    pub fn get_wallet(&self, address: &str) -> (found: Option<&Wallet>)
        requires
            self.wf(),
        ensures
            match found {
                Some(wallet) => self@.contains_key(address@) && self@[address@] == wallet@,
                None => !self@.contains_key(address@),
            },
    {
        match self.position_of(address) {
            Some(k) => {
                Some(&self.wallets[k].1)
            },
            None => None,
        }
    }

    /// Saves wallets to a store: each wallet is written under its
    /// address, and the store is flushed
    pub fn save_all(&self, db: &mut sled::Db) -> (res: Result<(), ChainError>)
        requires
            self.wf(),
        ensures
            match res {
                Ok(()) => wallets_saved(db_entries(*old(db)), self@, db_entries(*final(db))),
                Err(e) => e == ChainError::Storage || (e == ChainError::Serialization && exists|
                    a: Seq<char>,
                | #[trigger]
                    self@.contains_key(a) && encoded_wallet(
                        self@[a].secret_key,
                        self@[a].public_key,
                    ) is None),
            },
    {
        let ghost before = db_entries(*db);
        let ghost list = self.wallets@;
        let mut i: usize = 0;
        while i < self.wallets.len()
            invariant
                i <= self.wallets.len(),
                list == self.wallets@,
                distinct_addresses(list),
                before == db_entries(*old(db)),
                forall|k: int|
                    0 <= k < i ==> db_entries(*db).contains_key(
                        encode_utf8((#[trigger] list[k]).0@),
                    ) && encoded_wallet(list[k].1@.secret_key, list[k].1@.public_key) == Some(
                        db_entries(*db)[encode_utf8(list[k].0@)],
                    ),
                forall|key: Seq<u8>|
                    !written(list, i as int, key) ==> #[trigger] untouched(
                        before,
                        db_entries(*db),
                        key,
                    ),
            decreases self.wallets.len() - i,
        {
            let entry = &self.wallets[i];
            let data = match encode_wallet(&entry.1.secret_key, &entry.1.public_key) {
                Err(_) => {
                    proof {
                        let a = list[i as int].0@;
                        assert(self@.contains_key(a) && encoded_wallet(
                            self@[a].secret_key,
                            self@[a].public_key,
                        ) is None);
                    }
                    return Err(ChainError::Serialization);
                },
                Ok(data) => data,
            };
            let ghost earlier = db_entries(*db);
            if db_insert(db, entry.0.as_str().as_bytes(), data.as_slice()).is_err() {
                return Err(ChainError::Storage);
            }
            proof {
                assert(db_entries(*db).contains_key(encode_utf8(list[i as int].0@)));
                assert forall|k: int| 0 <= k < i + 1 implies db_entries(*db).contains_key(
                    encode_utf8((#[trigger] list[k]).0@),
                ) && encoded_wallet(list[k].1@.secret_key, list[k].1@.public_key) == Some(
                    db_entries(*db)[encode_utf8(list[k].0@)],
                ) by {
                    if k < i {
                        vstd::utf8::encode_utf8_decode_utf8(list[k].0@);
                        vstd::utf8::encode_utf8_decode_utf8(list[i as int].0@);
                    }
                }
                assert forall|key: Seq<u8>| !written(list, i + 1, key) implies #[trigger] untouched(
                    before,
                    db_entries(*db),
                    key,
                ) by {
                    assert(untouched(before, earlier, key));
                }
            }
            i = i + 1;
        }
        if db_flush(db).is_err() {
            return Err(ChainError::Storage);
        }
        proof {
            let after = db_entries(*db);
            assert forall|a: Seq<char>| #[trigger] self@.contains_key(a) implies after.contains_key(
                encode_utf8(a),
            ) && encoded_wallet(self@[a].secret_key, self@[a].public_key) == Some(
                after[encode_utf8(a)],
            ) by {
                let k = choose|k: int| 0 <= k < list.len() && (#[trigger] list[k]).0@ == a;
            }
            assert forall|key: Seq<u8>|
                !(exists|a: Seq<char>| #[trigger]
                    self@.contains_key(a) && key == encode_utf8(a)) implies #[trigger] untouched(
                before,
                after,
                key,
            ) by {
                if written(list, list.len() as int, key) {
                    let k = choose|k: int|
                        0 <= k < list.len() && key == encode_utf8((#[trigger] list[k]).0@);
                    lemma_list_map_value(list, k);
                }
            }
        }
        Ok(())
    }
}

/// In a list without a repeated address, the map holds under each address
/// the wallet of its entry.
pub proof fn lemma_list_map_value(list: Seq<(String, Wallet)>, j: int)
    requires
        distinct_addresses(list),
        0 <= j < list.len(),
    ensures
        list_map(list).contains_key(list[j].0@),
        list_map(list)[list[j].0@] == list[j].1@,
{
    let a = list[j].0@;
    let k = choose|k: int| 0 <= k < list.len() && (#[trigger] list[k]).0@ == a;
}

/// Putting a wallet in place of entry `k`, under the same address, puts it
/// into the map.
proof fn lemma_list_map_set(list: Seq<(String, Wallet)>, k: int, entry: (String, Wallet))
    requires
        distinct_addresses(list),
        0 <= k < list.len(),
        entry.0@ == list[k].0@,
    ensures
        distinct_addresses(list.update(k, entry)),
        list_map(list.update(k, entry)) == list_map(list).insert(entry.0@, entry.1@),
{
    let after = list.update(k, entry);
    assert forall|i: int, j: int| 0 <= i < j < after.len() implies (#[trigger] after[i]).0@ != (
    #[trigger] after[j]).0@ by {
    }
    let target = list_map(list).insert(entry.0@, entry.1@);
    assert forall|a: Seq<char>| list_map(after).contains_key(a) == target.contains_key(a) by {
        if list_map(list).contains_key(a) {
            let j = choose|j: int| 0 <= j < list.len() && (#[trigger] list[j]).0@ == a;
            assert(after[j].0@ == a);
        }
    }
}

/// Adding a wallet under an address that the list does not hold puts it into
/// the map.
proof fn lemma_list_map_push(list: Seq<(String, Wallet)>, entry: (String, Wallet))
    requires
        distinct_addresses(list),
        !list_map(list).contains_key(entry.0@),
    ensures
        distinct_addresses(list.push(entry)),
        list_map(list.push(entry)) == list_map(list).insert(entry.0@, entry.1@),
{
    let after = list.push(entry);
    assert forall|i: int, j: int| 0 <= i < j < after.len() implies (#[trigger] after[i]).0@ != (
    #[trigger] after[j]).0@ by {
    }
    let target = list_map(list).insert(entry.0@, entry.1@);
    assert forall|a: Seq<char>| list_map(after).contains_key(a) == target.contains_key(a) by {
        if list_map(list).contains_key(a) {
            let j = choose|j: int| 0 <= j < list.len() && (#[trigger] list[j]).0@ == a;
            assert(after[j].0@ == a);
        }
        if a == entry.0@ {
            assert(after[list.len() as int].0@ == a);
        }
    }
}

} // verus!
