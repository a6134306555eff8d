//! The decoded projection of a raw value, used for expiration checks.

use vstd::prelude::*;
use crate::clock::{datetime_representable, is_representable};
use crate::codec::{
    offset_field, payload_of, read_offset, read_timestamp, timestamp_field, MAX_TIMESTAMP,
    PAYLOAD_LEN,
};

verus! {

/// A raw value's payload with its creation time and, unless it never expires,
/// the moment it expires (seconds since the epoch).
#[derive(Clone, Copy, Debug)]
pub struct CacheEntry {
    pub value: [u8; 56],
    pub created_at: i64,
    pub expires_at: Option<i64>,
}

/// The expiry of an entry created at `created` with expiration offset `offset`:
/// none for a zero offset, else `created + offset` (held at `i64::MAX` past it).
pub open spec fn expiry_of(created: i64, offset: int) -> Option<i64> {
    if offset == 0 {
        None
    } else if created + offset > i64::MAX {
        Some(i64::MAX)
    } else {
        Some((created + offset) as i64)
    }
}

/// The creation time a raw value decodes to at time `now`: its timestamp field when
/// chrono can represent it, else `now`.
pub open spec fn creation_time(raw: Seq<u8>, now: i64) -> i64 {
    if datetime_representable(timestamp_field(raw)) {
        timestamp_field(raw) as i64
    } else {
        now
    }
}

/// What a raw value decodes to at time `now`: payload, creation time and expiry.
pub open spec fn decode_spec(raw: Seq<u8>, now: i64) -> (Seq<u8>, i64, Option<i64>) {
    (payload_of(raw), creation_time(raw, now), expiry_of(creation_time(raw, now), offset_field(raw)))
}

/// `e` is the projection of `raw`: same payload, and an expiry that follows from its
/// creation time and the raw value's offset.
pub open spec fn projects(e: CacheEntry, raw: Seq<u8>) -> bool {
    &&& e.value@ == payload_of(raw)
    &&& e.expires_at == expiry_of(e.created_at, offset_field(raw))
}

/// `e` has an expiry and it is not later than `now`.
pub open spec fn is_expired(e: CacheEntry, now: i64) -> bool {
    match e.expires_at {
        Some(t) => t <= now,
        None => false,
    }
}

/// A raw value is expired at `now` when the entry it decodes to at `now` is.
pub open spec fn raw_expired(raw: Seq<u8>, now: i64) -> bool {
    match decode_spec(raw, now).2 {
        Some(t) => t <= now,
        None => false,
    }
}

/// The expiry of an entry created at `created` with the given offset.
pub fn expiry_after(created: i64, offset: u16) -> (r: Option<i64>)
    ensures
        r == expiry_of(created, offset as int),
{
    if offset == 0 {
        None
    } else if created > i64::MAX - offset as i64 {
        Some(i64::MAX)
    } else {
        Some(created + offset as i64)
    }
}

/// Builds the entry for `raw` created at `created_at`.
pub fn entry_for(raw: &[u8; 64], created_at: i64) -> (e: CacheEntry)
    ensures
        projects(e, raw@),
        e.created_at == created_at,
{
    let mut value = [0u8; 56];
    let mut i: usize = 0;
    while i < PAYLOAD_LEN
        invariant
            0 <= i <= PAYLOAD_LEN,
            forall|j: int| 0 <= j < i ==> value@[j] == raw@[j],
        decreases PAYLOAD_LEN - i,
    {
        value[i] = raw[i];
        i = i + 1;
    }
    assert(value@ =~= payload_of(raw@));
    CacheEntry { value, created_at, expires_at: expiry_after(created_at, read_offset(raw)) }
}

/// Decodes a raw value at time `now`. A timestamp that chrono cannot represent
/// falls back to `now`.
pub fn decode_value(raw: &[u8; 64], now: i64) -> (e: CacheEntry)
    ensures
        (e.value@, e.created_at, e.expires_at) == decode_spec(raw@, now),
        projects(e, raw@),
{
    let ts = read_timestamp(raw) as i64;
    let created_at = if is_representable(ts) {
        ts
    } else {
        now
    };
    entry_for(raw, created_at)
}

/// Whether `e` has expired by `now`.
pub fn entry_expired(e: &CacheEntry, now: i64) -> (r: bool)
    ensures
        r == is_expired(*e, now),
{
    match e.expires_at {
        Some(t) => t <= now,
        None => false,
    }
}

/// Whether `raw`, decoded at `now`, has expired by `now`.
pub fn value_expired(raw: &[u8; 64], now: i64) -> (r: bool)
    ensures
        r == raw_expired(raw@, now),
{
    let e = decode_value(raw, now);
    entry_expired(&e, now)
}

/// Decoding a value built from a payload, a creation timestamp and an offset gives the
/// payload back; when chrono can represent the timestamp it also gives the timestamp back
/// as the creation time, and as the expiry the timestamp plus the offset (none for a
/// zero offset).
pub proof fn lemma_value_roundtrip(
    payload: [u8; 56],
    created_at: u64,
    offset: u16,
    raw: [u8; 64],
    now: i64,
)
    requires
        created_at <= MAX_TIMESTAMP,
        payload_of(raw@) == payload@,
        timestamp_field(raw@) == created_at,
        offset_field(raw@) == offset,
    ensures
        decode_spec(raw@, now).0 == payload@,
        datetime_representable(created_at as int) ==> decode_spec(raw@, now) == (
            payload@,
            created_at as i64,
            if offset == 0 {
                None::<i64>
            } else {
                Some((created_at + offset) as i64)
            },
        ),
{
}

} // verus!
