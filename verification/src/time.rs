//! Timestamps as whole seconds since the Unix epoch plus subsecond
//! nanoseconds, with parsing and rendering delegated to chrono. Keeping the
//! nanoseconds keeps the full precision of a parsed instant.

use vstd::prelude::*;

verus! {

/// The instant an RFC 3339 text denotes — whole seconds since the Unix
/// epoch, and the nanoseconds past that second — or `None` when the text is
/// no such timestamp. Depends on the text alone.
pub uninterp spec fn ts_of(s: Seq<char>) -> Option<(int, int)>;

/// The RFC 3339 rendering of an instant at millisecond precision, with a
/// `Z` suffix. Depends on the instant alone.
pub uninterp spec fn ts_millis_text_of(secs: int, nanos: int) -> Seq<char>;

/// The RFC 3339 rendering of an instant with all available non-zero
/// subsecond digits, with a `Z` suffix. Depends on the instant alone.
pub uninterp spec fn ts_full_text_of(secs: int, nanos: int) -> Seq<char>;

/// Relies on chrono's `DateTime::parse_from_rfc3339`, `timestamp` and
/// `timestamp_subsec_nanos`: whether and to what instant a text parses
/// depends on the text alone, and the subsecond part stays below two
/// thousand million (the leap-second headroom chrono documents).
#[verifier::external_body]
pub fn parse_timestamp(s: &str) -> (r: Option<(i64, u32)>)
    ensures
        r is Some <==> ts_of(s@) is Some,
        r is Some ==> ts_of(s@) == Some((r.unwrap().0 as int, r.unwrap().1 as int)),
        r is Some ==> r.unwrap().1 < 2_000_000_000,
{
    match chrono::DateTime::parse_from_rfc3339(s) {
        Ok(dt) => Some((dt.timestamp(), dt.timestamp_subsec_nanos())),
        Err(_) => None,
    }
}

/// Relies on chrono's `DateTime::from_timestamp` and `to_rfc3339_opts` with
/// millisecond precision and a `Z` suffix: the rendering is in UTC and
/// depends on the instant alone. An instant outside chrono's range renders
/// as empty text.
#[verifier::external_body]
pub fn format_timestamp(secs: i64, nanos: u32) -> (r: String)
    ensures
        r@ == ts_millis_text_of(secs as int, nanos as int),
{
    match chrono::DateTime::from_timestamp(secs, nanos) {
        Some(dt) => dt.to_rfc3339_opts(chrono::SecondsFormat::Millis, true),
        None => String::new(),
    }
}

/// Relies on chrono's `DateTime::from_timestamp` and `to_rfc3339_opts` with
/// automatic subsecond precision and a `Z` suffix: all available non-zero
/// subsecond digits appear, so nothing of the instant is truncated. An
/// instant outside chrono's range renders as empty text.
#[verifier::external_body]
pub fn format_timestamp_full(secs: i64, nanos: u32) -> (r: String)
    ensures
        r@ == ts_full_text_of(secs as int, nanos as int),
{
    match chrono::DateTime::from_timestamp(secs, nanos) {
        Some(dt) => dt.to_rfc3339_opts(chrono::SecondsFormat::AutoSi, true),
        None => String::new(),
    }
}

} // verus!
