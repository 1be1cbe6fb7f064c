//! Wall-clock access and RFC 3339 timestamp rendering.
//!
//! Timestamps are carried as non-negative milliseconds since the Unix epoch,
//! bounded below the year 10000 so that they always render as a four-digit
//! year.  The calendar arithmetic itself is done by the `chrono` crate,
//! behind trusted wrappers.

use vstd::prelude::*;

verus! {

/// Exclusive upper bound on timestamps: the first millisecond of year 10000.
pub const TS_LIMIT: i64 = 253_402_300_800_000;

/// A timestamp the protocol accepts: from the Unix epoch up to year 9999,
/// in milliseconds.
pub open spec fn valid_timestamp(ms: i64) -> bool {
    0 <= ms < TS_LIMIT
}

/// The RFC 3339 rendering of a timestamp with millisecond precision and a
/// trailing `Z`, as `chrono` produces it.  The result depends on the
/// millisecond value alone.
pub uninterp spec fn rfc3339_of(ms: i64) -> Seq<char>;

/// Relies on `chrono::Utc::now`: the current wall-clock time in milliseconds
/// since the Unix epoch.  Nothing is promised of the value.
#[verifier::external_body]
pub fn now_millis() -> i64 {
    chrono::Utc::now().timestamp_millis()
}

/// Relies on `chrono::DateTime::from_timestamp_millis` and
/// `to_rfc3339_opts(SecondsFormat::Millis, true)`: timestamps up to year 9999
/// are in range and render as `YYYY-MM-DDTHH:MM:SS.mmmZ`, a function of the
/// millisecond value alone.
#[verifier::external_body]
pub fn format_rfc3339_millis(ms: i64) -> (r: String)
    requires
        valid_timestamp(ms),
    ensures
        r@ == rfc3339_of(ms),
{
    let dt = chrono::DateTime::from_timestamp_millis(ms)
        .expect("timestamp below year 10000 is in range");
    dt.to_rfc3339_opts(chrono::SecondsFormat::Millis, true)
}

/// Relies on `chrono::DateTime::parse_from_rfc3339`, which accepts the
/// output of `to_rfc3339_opts`: parsing a rendered timestamp returns the
/// original millisecond value.  Strings that are not RFC 3339 yield `None`.
#[verifier::external_body]
pub fn parse_rfc3339_millis(s: &str) -> (r: Option<i64>)
    ensures
        forall|t: i64| valid_timestamp(t) && s@ == rfc3339_of(t) ==> r == Some(t),
{
    match chrono::DateTime::parse_from_rfc3339(s) {
        Ok(dt) => Some(dt.timestamp_millis()),
        Err(_) => None,
    }
}

} // verus!
