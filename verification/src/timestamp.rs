//! Conversion from the history store's native timestamps to calendar time.
//!
//! The store records instants as a signed 64-bit count of microseconds
//! since 1601-01-01T00:00:00Z. A [`Timestamp`] instead counts microseconds
//! since the Unix epoch (1970-01-01T00:00:00Z) and is restricted to the
//! range of calendar years that the formatting layer can render, so that a
//! valid `Timestamp` always has a textual form.

use vstd::prelude::*;

verus! {

/// Microseconds between 1601-01-01T00:00:00Z (the store's epoch) and
/// 1970-01-01T00:00:00Z (the Unix epoch): 134774 days.
pub const STORE_EPOCH_TO_UNIX_MICROS: i64 = 11644473600000000;

/// Smallest microsecond count since the Unix epoch that a `Timestamp` may
/// hold: 00:00:00 on January 1 of year -262143 (proleptic Gregorian).
pub const TIMESTAMP_MIN_MICROS: i64 = -8334601228800000000;

/// Largest microsecond count since the Unix epoch that a `Timestamp` may
/// hold: 23:59:59.999999 on December 31 of year 262142.
pub const TIMESTAMP_MAX_MICROS: i64 = 8210266876799999999;

/// An absolute UTC instant at microsecond resolution.
#[derive(Clone, Copy, Debug, PartialEq, Eq, Structural)]
pub struct Timestamp {
    /// Microseconds since 1970-01-01T00:00:00Z; negative for earlier
    /// instants.
    pub micros_since_unix_epoch: i64,
}

/// Whether `m` microseconds since the Unix epoch lies inside the range a
/// `Timestamp` may hold.
pub open spec fn timestamp_in_range(m: int) -> bool {
    TIMESTAMP_MIN_MICROS <= m <= TIMESTAMP_MAX_MICROS
}

impl Timestamp {
    /// A `Timestamp` is valid when its count lies inside the representable
    /// range; every `Timestamp` produced by [`convert_timestamp`] is.
    pub open spec fn is_valid(self) -> bool {
        timestamp_in_range(self.micros_since_unix_epoch as int)
    }
}

/// What `convert_timestamp` returns: the store offset re-based onto the
/// Unix epoch, or `None` when the instant falls outside the representable
/// range.
pub open spec fn spec_convert(ts: int) -> Option<Timestamp> {
    let m = ts - STORE_EPOCH_TO_UNIX_MICROS;
    if timestamp_in_range(m) {
        Some(Timestamp { micros_since_unix_epoch: m as i64 })
    } else {
        None
    }
}

/// What `store_micros` returns: the microsecond count of `t` measured from
/// the store's 1601 epoch instead of the Unix epoch.
pub open spec fn spec_store_micros(t: Timestamp) -> int {
    t.micros_since_unix_epoch + STORE_EPOCH_TO_UNIX_MICROS
}

/// Convert a store timestamp (microseconds since 1601-01-01T00:00:00Z)
/// to an absolute instant. Fails exactly when the instant lies outside
/// the representable range of `Timestamp`.
pub fn convert_timestamp(ts: i64) -> (r: Option<Timestamp>)
    ensures
        r == spec_convert(ts as int),
        r is Some ==> r.unwrap().is_valid(),
{
    if ts < TIMESTAMP_MIN_MICROS + STORE_EPOCH_TO_UNIX_MICROS {
        None
    } else if ts > TIMESTAMP_MAX_MICROS + STORE_EPOCH_TO_UNIX_MICROS {
        None
    } else {
        Some(Timestamp { micros_since_unix_epoch: ts - STORE_EPOCH_TO_UNIX_MICROS })
    }
}

/// Encode an instant back into the store's timestamp domain.
pub fn store_micros(t: &Timestamp) -> (r: i64)
    requires
        t.is_valid(),
    ensures
        r as int == spec_store_micros(*t),
{
    t.micros_since_unix_epoch + STORE_EPOCH_TO_UNIX_MICROS
}

/// The two fixed points of the conversion: offset zero is the store
/// epoch itself, 1601-01-01T00:00:00Z, which lies 11644473600000000
/// microseconds before the Unix epoch; and the offset of that many
/// microseconds is the Unix epoch, 1970-01-01T00:00:00Z.
pub proof fn lemma_convert_epochs()
    ensures
        spec_convert(0) == Some(
            Timestamp { micros_since_unix_epoch: (-STORE_EPOCH_TO_UNIX_MICROS) as i64 },
        ),
        spec_convert(STORE_EPOCH_TO_UNIX_MICROS as int) == Some(
            Timestamp { micros_since_unix_epoch: 0 },
        ),
{
}

/// Converting a store timestamp and encoding the result back yields the
/// original count, and re-converting that count yields the same instant.
pub proof fn lemma_convert_roundtrip(ts: i64)
    requires
        spec_convert(ts as int) is Some,
    ensures
        spec_store_micros(spec_convert(ts as int).unwrap()) == ts as int,
        spec_convert(spec_store_micros(spec_convert(ts as int).unwrap())) == spec_convert(
            ts as int,
        ),
{
}

} // verus!
