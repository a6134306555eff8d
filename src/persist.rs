//! The persistence format: a flat run of 127-byte records, each a 63-byte key
//! followed by its 64-byte raw value, with no header and no separators.

use vstd::prelude::*;
use crate::codec::is_empty_key;
use crate::entry::raw_expired;

verus! {

/// Length of one persisted record.
pub const RECORD_LEN: usize = 127;

/// The number of whole records in `b`; a trailing partial record does not count.
pub open spec fn record_count(b: Seq<u8>) -> int {
    b.len() as int / 127
}

/// The key of record `i` of `b`.
pub open spec fn record_key(b: Seq<u8>, i: int) -> Seq<u8> {
    b.subrange(127 * i, 127 * i + 63)
}

/// The raw value of record `i` of `b`.
pub open spec fn record_value(b: Seq<u8>, i: int) -> Seq<u8> {
    b.subrange(127 * i + 63, 127 * i + 127)
}

/// Whether a save at `now` keeps the pair: its key is not all zero and its value,
/// decoded at `now`, has not expired.
pub open spec fn kept_at(k: Seq<u8>, v: Seq<u8>, now: i64) -> bool {
    !is_empty_key(k) && !raw_expired(v, now)
}

/// The pairs of `raw` that a save at `now` writes out.
pub open spec fn saved_map(raw: Map<Seq<u8>, Seq<u8>>, now: i64) -> Map<Seq<u8>, Seq<u8>> {
    raw.restrict(raw.dom().filter(|k: Seq<u8>| kept_at(k, raw[k], now)))
}

/// A save keeps a pair of `raw` exactly when `kept_at` says so, with its value unchanged.
pub proof fn lemma_saved_map_contains(raw: Map<Seq<u8>, Seq<u8>>, now: i64, k: Seq<u8>)
    ensures
        saved_map(raw, now).contains_key(k) <==> raw.contains_key(k) && kept_at(k, raw[k], now),
        saved_map(raw, now).contains_key(k) ==> saved_map(raw, now)[k] == raw[k],
{
}

/// `b` is whole records holding exactly the pairs of `m`, each once, in some order.
pub open spec fn holds_records(b: Seq<u8>, m: Map<Seq<u8>, Seq<u8>>) -> bool {
    &&& b.len() % 127 == 0
    &&& forall|i: int|
        0 <= i < record_count(b) ==> #[trigger] m.contains_key(record_key(b, i)) && m[record_key(
            b,
            i,
        )] == record_value(b, i)
    &&& forall|k: Seq<u8>| #[trigger]
        m.contains_key(k) ==> exists|i: int| 0 <= i < record_count(b) && record_key(b, i) == k
    &&& forall|i: int, j: int|
        0 <= i < j < record_count(b) ==> record_key(b, i) != record_key(b, j)
}

/// The pairs that loading the first `n` records of `b` at `now` gives: records in
/// order, a later one replacing an earlier one with the same key, skipping records
/// whose key is all zero or whose value has expired by `now`.
pub open spec fn loaded_map(b: Seq<u8>, n: int, now: i64) -> Map<Seq<u8>, Seq<u8>>
    decreases n,
{
    if n <= 0 {
        Map::empty()
    } else {
        let prev = loaded_map(b, n - 1, now);
        if kept_at(record_key(b, n - 1), record_value(b, n - 1), now) {
            prev.insert(record_key(b, n - 1), record_value(b, n - 1))
        } else {
            prev
        }
    }
}

/// The pairs that loading all of `b` at `now` gives.
pub open spec fn load_result(b: Seq<u8>, now: i64) -> Map<Seq<u8>, Seq<u8>> {
    loaded_map(b, record_count(b), now)
}

/// Appends `src` to `out`.
pub fn append_bytes(out: &mut Vec<u8>, src: &[u8])
    ensures
        final(out)@ == old(out)@ + src@,
{
    let mut i: usize = 0;
    while i < src.len()
        invariant
            0 <= i <= src@.len(),
            out@ == old(out)@ + src@.subrange(0, i as int),
        decreases src@.len() - i,
    {
        out.push(src[i]);
        i = i + 1;
        assert(out@ =~= old(out)@ + src@.subrange(0, i as int));
    }
    assert(src@.subrange(0, i as int) =~= src@);
}

/// Appending a key and a value to whole records adds one record and keeps the others.
pub proof fn lemma_append_record(prev: Seq<u8>, k: Seq<u8>, v: Seq<u8>, cnt: int)
    requires
        0 <= cnt,
        prev.len() == 127 * cnt,
        k.len() == 63,
        v.len() == 64,
    ensures
        (prev + k + v).len() == 127 * (cnt + 1),
        record_key(prev + k + v, cnt) == k,
        record_value(prev + k + v, cnt) == v,
        forall|q: int|
            0 <= q < cnt ==> #[trigger] record_key(prev + k + v, q) == record_key(prev, q)
                && record_value(prev + k + v, q) == record_value(prev, q),
{
    let out = prev + k + v;
    assert(record_key(out, cnt) =~= k);
    assert(record_value(out, cnt) =~= v);
    assert forall|q: int| 0 <= q < cnt implies #[trigger] record_key(out, q) == record_key(prev, q)
        && record_value(out, q) == record_value(prev, q) by {
        assert(record_key(out, q) =~= record_key(prev, q));
        assert(record_value(out, q) =~= record_value(prev, q));
    }
}

proof fn lemma_loaded_prefix(b: Seq<u8>, m: Map<Seq<u8>, Seq<u8>>, now: i64, n: int)
    requires
        holds_records(b, m),
        forall|k: Seq<u8>| #[trigger] m.contains_key(k) ==> kept_at(k, m[k], now),
        0 <= n <= record_count(b),
    ensures
        loaded_map(b, n, now) == m.restrict(
            Set::new(|k: Seq<u8>| exists|i: int| 0 <= i < n && record_key(b, i) == k),
        ),
    decreases n,
{
    let s = Set::new(|k: Seq<u8>| exists|i: int| 0 <= i < n && record_key(b, i) == k);
    if n == 0 {
        assert(m.restrict(s) =~= Map::empty());
    } else {
        lemma_loaded_prefix(b, m, now, n - 1);
        let s0 = Set::new(|k: Seq<u8>| exists|i: int| 0 <= i < n - 1 && record_key(b, i) == k);
        let k = record_key(b, n - 1);
        assert(m.contains_key(k));
        assert(kept_at(k, record_value(b, n - 1), now));
        assert(s =~= s0.insert(k)) by {
            assert forall|x: Seq<u8>| s.contains(x) implies #[trigger] s0.insert(k).contains(x) by {
                let i = choose|i: int| 0 <= i < n && record_key(b, i) == x;
                if i < n - 1 {
                    assert(s0.contains(x));
                }
            }
            assert forall|x: Seq<u8>| s0.insert(k).contains(x) implies #[trigger] s.contains(x) by {
                if x != k {
                    let i = choose|i: int| 0 <= i < n - 1 && record_key(b, i) == x;
                    assert(0 <= i < n && record_key(b, i) == x);
                } else {
                    assert(record_key(b, n - 1) == x);
                }
            }
        }
        assert(m.restrict(s) =~= m.restrict(s0).insert(k, record_value(b, n - 1)));
    }
}

/// Saving then loading at the same time gives back exactly the pairs that the save
/// kept: those whose key is not all zero and whose value has not expired.
pub proof fn lemma_save_load_roundtrip(raw: Map<Seq<u8>, Seq<u8>>, now: i64, b: Seq<u8>)
    requires
        holds_records(b, saved_map(raw, now)),
    ensures
        load_result(b, now) == saved_map(raw, now),
{
    let m = saved_map(raw, now);
    lemma_loaded_prefix(b, m, now, record_count(b));
    let s = Set::new(
        |k: Seq<u8>| exists|i: int| 0 <= i < record_count(b) && record_key(b, i) == k,
    );
    assert(m.restrict(s) =~= m);
}

} // verus!
