//! The keyed multimap that one side of a join is hashed into.
//!
//! The map itself is `hashbrown::HashMap` seeded by `ahash::RandomState`.
//! Nothing in this file is proved about that code: each function below
//! states what the map does, and the join kernel is verified against these
//! statements.

use vstd::prelude::*;

verus! {

#[verifier::external_type_specification]
#[verifier::external_body]
#[verifier::reject_recursive_types(K)]
#[verifier::reject_recursive_types(V)]
#[verifier::reject_recursive_types(S)]
pub struct ExHashMap<K, V, S>(hashbrown::HashMap<K, V, S>);

#[verifier::external_type_specification]
#[verifier::external_body]
pub struct ExRandomState(ahash::RandomState);

/// A table from encoded key to the row indices that carry it.
pub type KeyTable = hashbrown::HashMap<Vec<u8>, Vec<u32>, ahash::RandomState>;

/// What a table holds: for each key, the row indices filed under it, in the
/// order in which they were filed.
pub uninterp spec fn table_contents(t: KeyTable) -> Map<Seq<u8>, Seq<u32>>;

/// The hash that a table's hasher gives a key. Two tables made with the same
/// seeds agree on it; two tables seeded apart need not.
pub uninterp spec fn table_hash(t: KeyTable, key: Seq<u8>) -> u64;

/// The map that holds nothing.
pub open spec fn no_buckets() -> Map<Seq<u8>, Seq<u32>> {
    Map::empty()
}

/// The bucket of `key` once `idx` has been filed under it.
pub open spec fn bucket_with(m: Map<Seq<u8>, Seq<u32>>, key: Seq<u8>, idx: u32) -> Seq<u32> {
    if m.dom().contains(key) {
        m[key].push(idx)
    } else {
        seq![idx]
    }
}

/// `buckets` lists, in the order of `keys`, the bucket that `m` holds for
/// each key, and `keys` names every key of `m` once.
pub open spec fn buckets_in_order(
    m: Map<Seq<u8>, Seq<u32>>,
    keys: Seq<Seq<u8>>,
    buckets: Seq<Seq<u32>>,
) -> bool {
    &&& keys.len() == buckets.len()
    &&& keys.no_duplicates()
    &&& forall|k: Seq<u8>| m.dom().contains(k) <==> keys.contains(k)
    &&& forall|i: int| 0 <= i < keys.len() ==> buckets[i] == m[#[trigger] keys[i]]
}

/// The row indices of a vector of buckets.
pub open spec fn bucket_rows(v: Seq<Vec<u32>>) -> Seq<Seq<u32>> {
    Seq::new(v.len(), |i: int| v[i]@)
}

/// `HashMap::with_hasher` on `ahash::RandomState::new()`: an empty table
/// under a freshly seeded hasher.
#[verifier::external_body]
pub(crate) fn table_new() -> (table: KeyTable)
    ensures
        table_contents(table) == no_buckets(),
{
    hashbrown::HashMap::with_hasher(ahash::RandomState::new())
}

/// `HashMap::with_hasher` on a clone of the hasher of `like`: an empty table
/// that hashes every key as `like` does.
#[verifier::external_body]
pub(crate) fn table_new_like(like: &KeyTable) -> (table: KeyTable)
    ensures
        table_contents(table) == no_buckets(),
        forall|k: Seq<u8>| table_hash(table, k) == table_hash(*like, k),
{
    hashbrown::HashMap::with_hasher(like.hasher().clone())
}

/// `BuildHasher::hash_one` on the hasher that `HashMap::hasher` hands out:
/// the hash of `key` under the table's own seeds, which is the hash that
/// the table itself computes on a lookup by key. Hashers made from one
/// seeded state give the same hash for the same bytes.
#[verifier::external_body]
pub(crate) fn table_hash_key(t: &KeyTable, key: &Vec<u8>) -> (h: u64)
    ensures
        h == table_hash(*t, key@),
{
    std::hash::BuildHasher::hash_one(t.hasher(), key)
}

/// `RawEntryBuilder::from_key_hashed_nocheck`: the bucket of `key`, found
/// under the hash that the caller computed. The table does not check the
/// hash, so the caller has to hand in the one that the table's hasher gives.
#[verifier::external_body]
pub(crate) fn table_get_hashed<'a>(t: &'a KeyTable, h: u64, key: &Vec<u8>) -> (r: Option<&'a Vec<u32>>)
    requires
        h == table_hash(*t, key@),
    ensures
        r is Some == table_contents(*t).dom().contains(key@),
        r is Some ==> r->0@ == table_contents(*t)[key@],
{
    match t.raw_entry().from_key_hashed_nocheck(h, key) {
        Some((_, bucket)) => Some(bucket),
        None => None,
    }
}

/// `RawEntryBuilderMut::from_key_hashed_nocheck` and, on the vacant entry
/// that it finds, `RawVacantEntryMut::insert_hashed_nocheck`: puts `bucket`
/// under `key`, which the table does not hold yet. The table does not check
/// the hash, so the caller has to hand in the one that the table's hasher
/// gives. The hasher stays as it was.
#[verifier::external_body]
pub(crate) fn table_insert_hashed(t: &mut KeyTable, h: u64, key: Vec<u8>, bucket: Vec<u32>)
    requires
        h == table_hash(*old(t), key@),
        !table_contents(*old(t)).dom().contains(key@),
    ensures
        table_contents(*final(t)) == table_contents(*old(t)).insert(key@, bucket@),
        forall|k: Seq<u8>| table_hash(*final(t), k) == table_hash(*old(t), k),
{
    match t.raw_entry_mut().from_key_hashed_nocheck(h, &key) {
        hashbrown::hash_map::RawEntryMut::Vacant(entry) => {
            entry.insert_hashed_nocheck(h, key, bucket);
        },
        hashbrown::hash_map::RawEntryMut::Occupied(_) => {},
    }
}

/// `HashMap::remove`: takes the bucket of `key` out of the table and hands
/// it back; without one the table stays as it was.
#[verifier::external_body]
pub(crate) fn table_remove(t: &mut KeyTable, key: &Vec<u8>) -> (r: Option<Vec<u32>>)
    ensures
        r is Some == table_contents(*old(t)).dom().contains(key@),
        r is Some ==> r->0@ == table_contents(*old(t))[key@],
        table_contents(*final(t)) == table_contents(*old(t)).remove(key@),
        forall|k: Seq<u8>| table_hash(*final(t), k) == table_hash(*old(t), k),
{
    t.remove(key)
}

/// `HashMap::into_iter`, keeping the value of each pair: every bucket of the
/// table once, in the order in which the table walks its entries, which is
/// no order that a caller can know.
#[verifier::external_body]
pub(crate) fn table_into_buckets(t: KeyTable) -> (r: Vec<Vec<u32>>)
    ensures
        exists|keys: Seq<Seq<u8>>| buckets_in_order(table_contents(t), keys, bucket_rows(r@)),
{
    t.into_iter().map(|pair| pair.1).collect()
}

} // verus!
