//! The two outside maps behind the store: a hashbrown map of raw values and a
//! DashMap of decoded entries. Each is reached only through the functions here,
//! whose contracts speak of what the map holds.

use vstd::prelude::*;
use dashmap::DashMap;
use crate::entry::CacheEntry;

verus! {

#[verifier::external_type_specification]
#[verifier::external_body]
#[verifier::reject_recursive_types(K)]
#[verifier::reject_recursive_types(V)]
#[verifier::reject_recursive_types(S)]
pub struct ExDashMap<K, V, S>(DashMap<K, V, S>);

/// The raw values, keyed by key, in a hashbrown map. hashbrown's `HashMap` has an
/// allocator parameter bounded by `allocator_api2`'s `Allocator` trait, so the map
/// cannot be declared as a type of its own; it is held here out of sight instead.
#[verifier::external_body]
pub struct RawMap {
    inner: hashbrown::HashMap<[u8; 63], [u8; 64]>,
}

/// What a raw-value map holds: key bytes to raw value bytes.
pub uninterp spec fn raw_contents(m: RawMap) -> Map<Seq<u8>, Seq<u8>>;

/// What an entry map holds: key bytes to decoded entry.
pub uninterp spec fn entry_contents(m: DashMap<[u8; 63], CacheEntry>) -> Map<Seq<u8>, CacheEntry>;

/// Relies on hashbrown's `HashMap::with_capacity`: the new map is empty.
#[verifier::external_body]
pub(crate) fn raw_with_capacity(capacity: usize) -> (r: RawMap)
    ensures
        raw_contents(r).is_empty(),
{
    RawMap { inner: hashbrown::HashMap::with_capacity(capacity) }
}

/// Relies on hashbrown's `HashMap::insert`: the key then maps to the value, and no
/// other key changes.
#[verifier::external_body]
pub(crate) fn raw_insert(m: &mut RawMap, key: [u8; 63], value: [u8; 64])
    ensures
        raw_contents(*final(m)) == raw_contents(*old(m)).insert(key@, value@),
{
    m.inner.insert(key, value);
}

/// Relies on hashbrown's `HashMap::remove`: the key is gone afterwards, no other key
/// changes, and the result says whether it was there.
#[verifier::external_body]
pub(crate) fn raw_remove(m: &mut RawMap, key: &[u8; 63]) -> (r: bool)
    ensures
        r == raw_contents(*old(m)).contains_key(key@),
        raw_contents(*final(m)) == raw_contents(*old(m)).remove(key@),
{
    m.inner.remove(key).is_some()
}

/// Relies on hashbrown's `HashMap::get`: the value the key maps to, if any.
#[verifier::external_body]
pub(crate) fn raw_get(m: &RawMap, key: &[u8; 63]) -> (r: Option<[u8; 64]>)
    ensures
        r is Some <==> raw_contents(*m).contains_key(key@),
        r matches Some(v) ==> v@ == raw_contents(*m)[key@],
{
    m.inner.get(key).copied()
}

/// Relies on hashbrown's `HashMap::len`: the number of keys held.
#[verifier::external_body]
pub(crate) fn raw_len(m: &RawMap) -> (r: usize)
    ensures
        r == raw_contents(*m).len(),
{
    m.inner.len()
}

/// Relies on hashbrown's `HashMap::iter`: every key-value pair exactly once, in an
/// unspecified order.
#[verifier::external_body]
pub(crate) fn raw_pairs(m: &RawMap) -> (r: Vec<([u8; 63], [u8; 64])>)
    ensures
        forall|i: int|
            0 <= i < r@.len() ==> #[trigger] raw_contents(*m).contains_key(r@[i].0@)
                && raw_contents(*m)[r@[i].0@] == r@[i].1@,
        forall|k: Seq<u8>|
            #[trigger] raw_contents(*m).contains_key(k) ==> exists|i: int|
                0 <= i < r@.len() && r@[i].0@ == k,
        forall|i: int, j: int| 0 <= i < j < r@.len() ==> r@[i].0@ != r@[j].0@,
{
    m.inner.iter().map(|(k, v)| (*k, *v)).collect()
}

/// Relies on `DashMap::with_capacity`: the new map is empty.
#[verifier::external_body]
pub(crate) fn entries_with_capacity(capacity: usize) -> (r: DashMap<[u8; 63], CacheEntry>)
    ensures
        entry_contents(r).is_empty(),
{
    DashMap::with_capacity(capacity)
}

/// Relies on `DashMap::insert`: the key then maps to the entry, and no other key changes.
#[verifier::external_body]
pub(crate) fn entries_insert(m: &mut DashMap<[u8; 63], CacheEntry>, key: [u8; 63], e: CacheEntry)
    ensures
        entry_contents(*final(m)) == entry_contents(*old(m)).insert(key@, e),
{
    m.insert(key, e);
}

/// Relies on `DashMap::remove`: the key is gone afterwards and no other key changes.
#[verifier::external_body]
pub(crate) fn entries_remove(m: &mut DashMap<[u8; 63], CacheEntry>, key: &[u8; 63])
    ensures
        entry_contents(*final(m)) == entry_contents(*old(m)).remove(key@),
{
    m.remove(key);
}

/// Relies on `DashMap::get`: a copy of the entry the key maps to, if any.
#[verifier::external_body]
pub(crate) fn entries_get(m: &DashMap<[u8; 63], CacheEntry>, key: &[u8; 63]) -> (r: Option<
    CacheEntry,
>)
    ensures
        r == (if entry_contents(*m).contains_key(key@) {
            Some(entry_contents(*m)[key@])
        } else {
            None
        }),
{
    m.get(key).map(|r| *r.value())
}

/// Relies on `DashMap::iter`: the key of every entry, in an unspecified order.
#[verifier::external_body]
pub(crate) fn entries_keys(m: &DashMap<[u8; 63], CacheEntry>) -> (r: Vec<[u8; 63]>)
    ensures
        forall|i: int| 0 <= i < r@.len() ==> #[trigger] entry_contents(*m).contains_key(r@[i]@),
        forall|k: Seq<u8>|
            #[trigger] entry_contents(*m).contains_key(k) ==> exists|i: int|
                0 <= i < r@.len() && r@[i]@ == k,
{
    m.iter().map(|e| *e.key()).collect()
}

} // verus!
