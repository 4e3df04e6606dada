//! Trusted declarations over the outside crates the buffer relies on:
//! chrono for calendar-date partition keys and uuid for fresh object-store
//! identifiers.

use chrono::TimeZone;
use vstd::prelude::*;

verus! {

/// The UTC calendar date (`YYYY-MM-DD`) of a nanosecond timestamp, as
/// chrono formats it: a function of the timestamp alone.
pub uninterp spec fn date_key_of(ts: i64) -> Seq<char>;

/// Relies on chrono's `TimeZone::timestamp_nanos` for `Utc` and its
/// `%Y-%m-%d` formatting, which depend on the timestamp alone: both are
/// total over `i64` nanosecond timestamps and use no locale or time zone
/// state.
#[verifier::external_body]
pub fn format_date_key(ts: i64) -> (r: String)
    ensures
        r@ == date_key_of(ts),
{
    chrono::Utc.timestamp_nanos(ts).format("%Y-%m-%d").to_string()
}

/// Relies on uuid's `Uuid::new_v4`: a freshly generated random identifier.
/// Nothing is promised of the value.
#[verifier::external_body]
pub fn new_object_store_id() -> (r: u128) {
    uuid::Uuid::new_v4().as_u128()
}

} // verus!
