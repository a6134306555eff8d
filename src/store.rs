//! The store: raw values and their decoded entries, kept in two maps that are
//! always changed together.

use vstd::prelude::*;
use dashmap::DashMap;
use crate::codec::{is_empty_key, is_empty_key_bytes, offset_field};
use crate::entry::{entry_expired, entry_for, expiry_of, is_expired, projects, CacheEntry};
use crate::maps::{
    entries_get, entries_insert, entries_keys, entries_remove, entries_with_capacity,
    entry_contents, raw_contents, raw_get, raw_insert, raw_len, raw_pairs, raw_remove,
    raw_with_capacity, RawMap,
};

verus! {

/// How many keys a new store makes room for up front.
pub const INITIAL_CAPACITY: usize = 10000;

/// Whether a value `raw` created at `created` has expired by `now`.
pub open spec fn expired_at(raw: Seq<u8>, created: i64, now: i64) -> bool {
    match expiry_of(created, offset_field(raw)) {
        Some(t) => t <= now,
        None => false,
    }
}

/// The keys whose values have expired by `now`.
pub open spec fn expired_keys(
    raw: Map<Seq<u8>, Seq<u8>>,
    created: Map<Seq<u8>, i64>,
    now: i64,
) -> Set<Seq<u8>> {
    raw.dom().filter(|k: Seq<u8>| expired_at(raw[k], created[k], now))
}

/// Finitely many keys, each with a creation time, each 63 bytes and not all zero,
/// each mapped to a 64-byte value.
pub open spec fn well_formed_contents(
    raw: Map<Seq<u8>, Seq<u8>>,
    created: Map<Seq<u8>, i64>,
) -> bool {
    &&& raw.dom().finite()
    &&& raw.dom() == created.dom()
    &&& forall|k: Seq<u8>| #[trigger]
        raw.contains_key(k) ==> k.len() == 63 && raw[k].len() == 64 && !is_empty_key(k)
}

/// Raw values and decoded entries under the same keys.
pub struct Store {
    vals: RawMap,
    entries: DashMap<[u8; 63], CacheEntry>,
}

impl Store {
    /// The raw value stored under each key.
    pub closed spec fn raw_view(&self) -> Map<Seq<u8>, Seq<u8>> {
        raw_contents(self.vals)
    }

    /// The creation time of each stored key.
    pub closed spec fn created_view(&self) -> Map<Seq<u8>, i64> {
        entry_contents(self.entries).map_values(|e: CacheEntry| e.created_at)
    }

    /// Every key of the raw map has an entry and vice versa, and each entry is the
    /// projection of the raw value under its key.
    pub closed spec fn entries_match(&self) -> bool {
        &&& entry_contents(self.entries).dom() == raw_contents(self.vals).dom()
        &&& forall|k: Seq<u8>| #[trigger]
            entry_contents(self.entries).contains_key(k) ==> projects(
                entry_contents(self.entries)[k],
                raw_contents(self.vals)[k],
            )
    }

    pub open spec fn inv(&self) -> bool {
        &&& well_formed_contents(self.raw_view(), self.created_view())
        &&& self.entries_match()
    }

    /// An empty store.
    pub fn new() -> (r: Store)
        ensures
            r.inv(),
            r.raw_view().is_empty(),
            r.created_view().is_empty(),
    {
        let r = Store {
            vals: raw_with_capacity(INITIAL_CAPACITY),
            entries: entries_with_capacity(INITIAL_CAPACITY),
        };
        assert(r.created_view() =~= Map::empty());
        r
    }

    /// The number of stored keys.
    pub fn len(&self) -> (r: usize)
        ensures
            r == self.raw_view().len(),
    {
        raw_len(&self.vals)
    }

    /// The raw value stored under `key`, if any.
    pub fn get(&self, key: &[u8; 63]) -> (r: Option<[u8; 64]>)
        ensures
            r is Some <==> self.raw_view().contains_key(key@),
            r matches Some(v) ==> v@ == self.raw_view()[key@],
    {
        raw_get(&self.vals, key)
    }

    /// The decoded entry stored under `key`, if any.
    pub fn entry(&self, key: &[u8; 63]) -> (r: Option<CacheEntry>)
        requires
            self.inv(),
        ensures
            r is Some <==> self.raw_view().contains_key(key@),
            r matches Some(e) ==> projects(e, self.raw_view()[key@]) && e.created_at
                == self.created_view()[key@],
    {
        entries_get(&self.entries, key)
    }

    /// Stores `value` under `key` in both maps, with the entry created at `created_at`;
    /// the all-zero key is refused and nothing changes. Returns whether it stored.
    pub fn insert(&mut self, key: [u8; 63], value: [u8; 64], created_at: i64) -> (r: bool)
        requires
            old(self).inv(),
        ensures
            final(self).inv(),
            r == !is_empty_key(key@),
            r ==> final(self).raw_view() == old(self).raw_view().insert(key@, value@),
            r ==> final(self).created_view() == old(self).created_view().insert(key@, created_at),
            !r ==> final(self).raw_view() == old(self).raw_view(),
            !r ==> final(self).created_view() == old(self).created_view(),
    {
        if is_empty_key_bytes(&key) {
            return false;
        }
        let e = entry_for(&value, created_at);
        entries_insert(&mut self.entries, key, e);
        raw_insert(&mut self.vals, key, value);
        assert(self.created_view() =~= old(self).created_view().insert(key@, created_at));
        true
    }

    /// Removes `key` from both maps; tells whether it was stored.
    pub fn remove(&mut self, key: &[u8; 63]) -> (r: bool)
        requires
            old(self).inv(),
        ensures
            final(self).inv(),
            r == old(self).raw_view().contains_key(key@),
            final(self).raw_view() == old(self).raw_view().remove(key@),
            final(self).created_view() == old(self).created_view().remove(key@),
    {
        entries_remove(&mut self.entries, key);
        let r = raw_remove(&mut self.vals, key);
        assert(self.created_view() =~= old(self).created_view().remove(key@));
        r
    }

    /// Every stored key with its raw value, each once, in no particular order.
    pub fn snapshot_for_save(&self) -> (r: Vec<([u8; 63], [u8; 64])>)
        ensures
            forall|i: int|
                0 <= i < r@.len() ==> #[trigger] self.raw_view().contains_key(r@[i].0@)
                    && self.raw_view()[r@[i].0@] == r@[i].1@,
            forall|k: Seq<u8>|
                #[trigger] self.raw_view().contains_key(k) ==> exists|i: int|
                    0 <= i < r@.len() && r@[i].0@ == k,
            forall|i: int, j: int| 0 <= i < j < r@.len() ==> r@[i].0@ != r@[j].0@,
    {
        raw_pairs(&self.vals)
    }

    /// Removes from both maps every key whose entry has expired by `now`: first scans
    /// the entries for expired keys, then removes those. Returns how many were removed.
    pub fn sweep(&mut self, now: i64) -> (removed: usize)
        requires
            old(self).inv(),
        ensures
            final(self).inv(),
            final(self).raw_view() == old(self).raw_view().remove_keys(
                expired_keys(old(self).raw_view(), old(self).created_view(), now),
            ),
            final(self).created_view() == old(self).created_view().remove_keys(
                expired_keys(old(self).raw_view(), old(self).created_view(), now),
            ),
            removed == old(self).raw_view().len() - final(self).raw_view().len(),
    {
        let ghost raw0 = self.raw_view();
        let ghost created0 = self.created_view();
        let ghost doomed_set = expired_keys(raw0, created0, now);
        let total = self.len();
        let keys = entries_keys(&self.entries);
        let mut doomed: Vec<[u8; 63]> = Vec::new();
        let mut i: usize = 0;
        while i < keys.len()
            invariant
                self.inv(),
                self.raw_view() == raw0,
                self.created_view() == created0,
                doomed_set == expired_keys(raw0, created0, now),
                0 <= i <= keys.len(),
                forall|n: int| 0 <= n < keys@.len() ==> #[trigger]
                    entry_contents(self.entries).contains_key(keys@[n]@),
                forall|m: int| 0 <= m < doomed@.len() ==> #[trigger]
                    doomed_set.contains(doomed@[m]@),
                forall|n: int|
                    0 <= n < i && #[trigger] doomed_set.contains(keys@[n]@) ==> exists|m: int|
                        0 <= m < doomed@.len() && doomed@[m]@ == keys@[n]@,
            decreases keys.len() - i,
        {
            let key = keys[i];
            let ghost prev = doomed@;
            match entries_get(&self.entries, &key) {
                Some(e) => {
                    assert(e.created_at == created0[key@]);
                    assert(projects(e, raw0[key@]));
                    assert(doomed_set.contains(key@) == is_expired(e, now));
                    if entry_expired(&e, now) {
                        doomed.push(key);
                        assert(doomed@[doomed@.len() - 1]@ == key@);
                    }
                },
                None => {},
            }
            proof {
                assert forall|n: int|
                    0 <= n < i + 1 && #[trigger] doomed_set.contains(keys@[n]@) implies exists|m: int|
                    0 <= m < doomed@.len() && doomed@[m]@ == keys@[n]@ by {
                    if n < i {
                        let m = choose|m: int| 0 <= m < prev.len() && prev[m]@ == keys@[n]@;
                        assert(doomed@[m] == prev[m]);
                    } else {
                        assert(doomed@[doomed@.len() - 1]@ == key@);
                    }
                }
            }
            i = i + 1;
        }
        proof {
            assert forall|k: Seq<u8>| #[trigger] doomed_set.contains(k) implies exists|m: int|
                0 <= m < doomed@.len() && doomed@[m]@ == k by {
                assert(entry_contents(self.entries).contains_key(k));
                let n = choose|n: int| 0 <= n < keys@.len() && keys@[n]@ == k;
                assert(doomed_set.contains(keys@[n]@));
            }
        }
        let mut removed: usize = 0;
        let mut j: usize = 0;
        while j < doomed.len()
            invariant
                self.inv(),
                raw0.dom().finite(),
                raw0.len() == total,
                0 <= j <= doomed.len(),
                self.raw_view() == raw0.remove_keys(
                    Set::new(|k: Seq<u8>| exists|m: int| 0 <= m < j && doomed@[m]@ == k),
                ),
                self.created_view() == created0.remove_keys(
                    Set::new(|k: Seq<u8>| exists|m: int| 0 <= m < j && doomed@[m]@ == k),
                ),
                removed == raw0.len() - self.raw_view().len(),
            decreases doomed.len() - j,
        {
            let ghost before = Set::new(
                |k: Seq<u8>| exists|m: int| 0 <= m < j && doomed@[m]@ == k,
            );
            let ghost after = Set::new(
                |k: Seq<u8>| exists|m: int| 0 <= m < j + 1 && doomed@[m]@ == k,
            );
            let ghost cur = self.raw_view();
            let key = doomed[j];
            let was = self.remove(&key);
            proof {
                assert(after =~= before.insert(key@)) by {
                    assert forall|k: Seq<u8>| after.contains(k) implies #[trigger] before.insert(
                        key@,
                    ).contains(k) by {
                        let m = choose|m: int| 0 <= m < j + 1 && doomed@[m]@ == k;
                        if m < j {
                            assert(before.contains(k));
                        }
                    }
                    assert forall|k: Seq<u8>| before.insert(key@).contains(k) implies #[trigger] after.contains(
                        k,
                    ) by {
                        if k != key@ {
                            let m = choose|m: int| 0 <= m < j && doomed@[m]@ == k;
                            assert(0 <= m < j + 1 && doomed@[m]@ == k);
                        } else {
                            assert(doomed@[j as int]@ == k);
                        }
                    }
                }
                assert(self.raw_view() =~= raw0.remove_keys(after));
                assert(self.created_view() =~= created0.remove_keys(after));
                if was {
                    cur.lemma_remove_key_len(key@);
                } else {
                    assert(self.raw_view() =~= cur);
                }
            }
            if was {
                removed = removed + 1;
            }
            j = j + 1;
        }
        proof {
            let done = Set::new(|k: Seq<u8>| exists|m: int| 0 <= m < j && doomed@[m]@ == k);
            assert(done =~= doomed_set);
            assert(self.raw_view() =~= raw0.remove_keys(doomed_set));
            assert(self.created_view() =~= created0.remove_keys(doomed_set));
        }
        removed
    }
}

} // verus!
