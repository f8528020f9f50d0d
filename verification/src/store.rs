use vstd::prelude::*;

verus! {

/// The key-value store: an ordered map from byte strings to byte strings.
#[verifier::external_type_specification]
#[verifier::external_body]
pub struct ExDb(sled::Db);

/// A fault that the key-value store reports.
#[verifier::external_type_specification]
#[verifier::external_body]
pub struct ExStoreError(sled::Error);

/// What a store holds: the value under each key. A handle stands for its
/// store alone: the ledger never clones one, and takes it by mutable
/// reference wherever it writes.
pub uninterp spec fn db_entries(db: sled::Db) -> Map<Seq<u8>, Seq<u8>>;

/// The store that holds nothing.
pub open spec fn no_entries() -> Map<Seq<u8>, Seq<u8>> {
    Map::empty()
}

/// Whether `a` comes before `b` in the order of the store's keys: byte by
/// byte, a proper prefix first.
pub open spec fn key_less(a: Seq<u8>, b: Seq<u8>) -> bool
    decreases a.len(),
{
    if b.len() == 0 {
        false
    } else if a.len() == 0 {
        true
    } else if a[0] != b[0] {
        a[0] < b[0]
    } else {
        key_less(a.drop_first(), b.drop_first())
    }
}

/// The keys and values of scanned items, as byte sequences.
pub open spec fn items_view(items: Seq<(Vec<u8>, Vec<u8>)>) -> Seq<(Seq<u8>, Seq<u8>)> {
    items.map_values(|item: (Vec<u8>, Vec<u8>)| (item.0@, item.1@))
}

/// Whether `items` is the full scan of `entries`: every entry once, and no
/// other pair, in the order of the keys.
pub open spec fn is_scan_of(
    items: Seq<(Seq<u8>, Seq<u8>)>,
    entries: Map<Seq<u8>, Seq<u8>>,
) -> bool {
    &&& forall|i: int|
        0 <= i < items.len() ==> entries.contains_key((#[trigger] items[i]).0)
            && entries[items[i].0] == items[i].1
    &&& forall|key: Seq<u8>| #[trigger]
        entries.contains_key(key) ==> exists|i: int| 0 <= i < items.len() && items[i].0 == key
    &&& forall|i: int, j: int|
        0 <= i < j < items.len() ==> key_less((#[trigger] items[i]).0, (#[trigger] items[j]).0)
}

/// Calls `Tree::get` of `sled` on the store's default tree. Trusted: without
/// a fault, the answer is the value that the store holds under the key, or
/// `None` where it holds none.
#[verifier::external_body]
pub(crate) fn db_get(db: &sled::Db, key: &[u8]) -> (res: Result<Option<Vec<u8>>, sled::Error>)
    ensures
        res matches Ok(found) ==> match found {
            Some(value) => db_entries(*db).contains_key(key@) && db_entries(*db)[key@] == value@,
            None => !db_entries(*db).contains_key(key@),
        },
{
    db.get(key).map(|found| found.map(|value| value.to_vec()))
}

/// Calls `Tree::insert` of `sled`. Trusted: without a fault, the store then
/// holds the value under the key and is unchanged elsewhere.
#[verifier::external_body]
pub(crate) fn db_insert(db: &mut sled::Db, key: &[u8], value: &[u8]) -> (res: Result<
    (),
    sled::Error,
>)
    ensures
        res is Ok ==> db_entries(*final(db)) == db_entries(*old(db)).insert(key@, value@),
{
    db.insert(key, value).map(|_| ())
}

/// Calls `Tree::remove` of `sled`. Trusted: without a fault, the store then
/// holds nothing under the key and is unchanged elsewhere.
#[verifier::external_body]
pub(crate) fn db_remove(db: &mut sled::Db, key: &[u8]) -> (res: Result<(), sled::Error>)
    ensures
        res is Ok ==> db_entries(*final(db)) == db_entries(*old(db)).remove(key@),
{
    db.remove(key).map(|_| ())
}

/// Calls `Tree::clear` of `sled`. Trusted: without a fault, the store then
/// holds nothing.
#[verifier::external_body]
pub(crate) fn db_clear(db: &mut sled::Db) -> (res: Result<(), sled::Error>)
    ensures
        res is Ok ==> db_entries(*final(db)) == no_entries(),
{
    db.clear()
}

/// Calls `Tree::flush` of `sled`, which makes what was written durable and
/// changes nothing of what the store holds.
#[verifier::external_body]
pub(crate) fn db_flush(db: &sled::Db) -> (res: Result<(), sled::Error>) {
    db.flush().map(|_| ())
}

/// Calls `Tree::iter` of `sled` and collects what it yields. Trusted:
/// without a fault, the items are the full scan of the store, in the order of
/// the keys.
#[verifier::external_body]
pub(crate) fn db_scan(db: &sled::Db) -> (res: Result<Vec<(Vec<u8>, Vec<u8>)>, sled::Error>)
    ensures
        res matches Ok(items) ==> is_scan_of(items_view(items@), db_entries(*db)),
{
    db.iter().map(|item| item.map(|(key, value)| (key.to_vec(), value.to_vec()))).collect()
}

/// No key comes before itself.
pub proof fn lemma_key_less_irreflexive(a: Seq<u8>)
    ensures
        !key_less(a, a),
    decreases a.len(),
{
    if a.len() > 0 {
        lemma_key_less_irreflexive(a.drop_first());
    }
}

/// The keys of the first `n` scanned items.
pub open spec fn scanned_keys(items: Seq<(Seq<u8>, Seq<u8>)>, n: int) -> Set<Seq<u8>> {
    Set::new(|key: Seq<u8>| exists|i: int| 0 <= i < n && (#[trigger] items[i]).0 == key)
}

/// The first `n` items of a scan have `n` keys.
proof fn lemma_scanned_keys(
    items: Seq<(Seq<u8>, Seq<u8>)>,
    entries: Map<Seq<u8>, Seq<u8>>,
    n: int,
)
    requires
        is_scan_of(items, entries),
        0 <= n <= items.len(),
    ensures
        scanned_keys(items, n).finite(),
        scanned_keys(items, n).len() == n,
    decreases n,
{
    if n == 0 {
        assert(scanned_keys(items, 0) =~= Set::<Seq<u8>>::empty());
    } else {
        lemma_scanned_keys(items, entries, n - 1);
        let key = items[n - 1].0;
        assert(!scanned_keys(items, n - 1).contains(key)) by {
            if scanned_keys(items, n - 1).contains(key) {
                let i = choose|i: int| 0 <= i < n - 1 && (#[trigger] items[i]).0 == key;
                assert(key_less(items[i].0, items[n - 1].0));
                lemma_key_less_irreflexive(key);
            }
        }
        assert(scanned_keys(items, n) =~= scanned_keys(items, n - 1).insert(key)) by {
            assert forall|other: Seq<u8>|
                scanned_keys(items, n).contains(other) implies scanned_keys(
                items,
                n - 1,
            ).insert(key).contains(other) by {
                let i = choose|i: int| 0 <= i < n && (#[trigger] items[i]).0 == other;
                if i < n - 1 {
                    assert(scanned_keys(items, n - 1).contains(other));
                }
            }
            assert forall|other: Seq<u8>| scanned_keys(items, n - 1).insert(key).contains(
                other,
            ) implies scanned_keys(items, n).contains(other) by {
                if other == key {
                    assert(items[n - 1].0 == other);
                } else {
                    let i = choose|i: int| 0 <= i < n - 1 && (#[trigger] items[i]).0 == other;
                    assert(0 <= i < n && items[i].0 == other);
                }
            }
        }
    }
}

/// A store has as many entries as its full scan has items.
pub proof fn lemma_scan_counts_entries(
    items: Seq<(Seq<u8>, Seq<u8>)>,
    entries: Map<Seq<u8>, Seq<u8>>,
)
    requires
        is_scan_of(items, entries),
    ensures
        entries.dom().finite(),
        entries.dom().len() == items.len(),
{
    lemma_scanned_keys(items, entries, items.len() as int);
    assert(entries.dom() =~= scanned_keys(items, items.len() as int)) by {
        assert forall|key: Seq<u8>| entries.dom().contains(key) implies scanned_keys(
            items,
            items.len() as int,
        ).contains(key) by {
            assert(entries.contains_key(key));
        }
        assert forall|key: Seq<u8>| scanned_keys(items, items.len() as int).contains(
            key,
        ) implies entries.dom().contains(key) by {
            let i = choose|i: int| 0 <= i < items.len() && (#[trigger] items[i]).0 == key;
            assert(entries.contains_key(items[i].0));
        }
    }
}

} // verus!
