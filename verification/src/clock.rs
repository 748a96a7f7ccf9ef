//! The boundary to the clock and to timestamp formatting: the wall clock is
//! an outside collaborator, and RFC 3339 rendering is done by `chrono`.

use vstd::prelude::*;

verus! {

/// Latest timestamp the feed renderer will format: the last second of year
/// 9999, comfortably inside chrono's representable range.
pub const MAX_FEED_TIMESTAMP: i64 = 253402300799;

/// What `chrono` renders a given UTC timestamp as: RFC 3339 with whole
/// seconds and a `Z` suffix. The rendering depends on the timestamp alone.
pub uninterp spec fn rfc3339_utc_of(t: int) -> Seq<char>;

/// Relies on `chrono::Utc::now` and `chrono::DateTime::timestamp`: whole
/// seconds since the Unix epoch at the moment of the call. Nothing is
/// promised of the value; the clock may read anything. `Utc::now` itself
/// stops on a host clock set before the epoch.
#[verifier::external_body]
pub fn now_unix_seconds() -> (r: i64) {
    chrono::Utc::now().timestamp()
}

/// Relies on `chrono::DateTime::from_timestamp` and
/// `chrono::DateTime::to_rfc3339_opts` with whole seconds and `use_z`: the
/// rendering is a function of the timestamp alone. The bound keeps the
/// timestamp inside the range `from_timestamp` accepts.
#[verifier::external_body]
pub fn format_rfc3339_utc(t: i64) -> (r: String)
    requires
        0 <= t <= MAX_FEED_TIMESTAMP,
    ensures
        r@ == rfc3339_utc_of(t as int),
{
    match chrono::DateTime::<chrono::Utc>::from_timestamp(t, 0) {
        Some(dt) => dt.to_rfc3339_opts(chrono::SecondsFormat::Secs, true),
        None => String::new(),
    }
}

} // verus!
