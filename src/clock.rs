//! The wall clock and chrono's range of representable instants. Times inside the
//! library are whole seconds since the UNIX epoch.

use vstd::prelude::*;

verus! {

/// Whether chrono can represent the whole-second UNIX timestamp `secs` as a `DateTime<Utc>`.
pub uninterp spec fn datetime_representable(secs: int) -> bool;

/// Relies on chrono's `Utc::now` and `DateTime::timestamp`: the current time in whole
/// seconds since the epoch. It depends on the machine's clock, so nothing is promised
/// of it. `Utc::now` panics on a clock set before the epoch.
#[verifier::external_body]
pub(crate) fn now_secs() -> (r: i64) {
    chrono::Utc::now().timestamp()
}

/// Relies on chrono's `DateTime::<Utc>::from_timestamp`, which returns `None` exactly on an
/// out-of-range number of seconds (the nanosecond part given here is always valid).
#[verifier::external_body]
pub(crate) fn is_representable(secs: i64) -> (r: bool)
    ensures
        r == datetime_representable(secs as int),
{
    chrono::DateTime::<chrono::Utc>::from_timestamp(secs, 0).is_some()
}

} // verus!
