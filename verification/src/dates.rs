//! Dates, by `chrono`: the feed and schedule dates the library compares and
//! prints, read once into seconds and a canonical form.

use vstd::prelude::*;

use crate::text::{str_trim, trim};

verus! {

/// A date read from a feed or an API, in UTC.
pub struct DateStamp {
    /// Seconds since the Unix epoch.
    pub secs: i64,
    /// Nanoseconds past that second.
    pub nanos: u32,
    /// The same instant as RFC 3339 in UTC, whole seconds, `Z` suffix
    /// ("2026-09-17T14:05:00Z").
    pub rfc3339: String,
}

/// What `DateTime::parse_from_rfc3339` reads from a text: the instant's
/// seconds, nanoseconds and canonical text (see `DateStamp`).
pub uninterp spec fn spec_parse_rfc3339(s: Seq<char>) -> Option<(i64, u32, Seq<char>)>;

/// What `DateTime::parse_from_rfc2822` reads from a text, in the same form.
pub uninterp spec fn spec_parse_rfc2822(s: Seq<char>) -> Option<(i64, u32, Seq<char>)>;

/// A feed date: RFC 3339 first, RFC 2822 when that fails.
pub open spec fn spec_parse_date(s: Seq<char>) -> Option<(i64, u32, Seq<char>)> {
    match spec_parse_rfc3339(s) {
        Some(d) => Some(d),
        None => spec_parse_rfc2822(s),
    }
}

pub open spec fn stamp_of(d: Option<DateStamp>) -> Option<(i64, u32, Seq<char>)> {
    match d {
        Some(x) => Some((x.secs, x.nanos, x.rfc3339@)),
        None => None,
    }
}

/// `chrono::DateTime::parse_from_rfc3339`, converted to UTC and read out with
/// `timestamp`, `timestamp_subsec_nanos` and
/// `to_rfc3339_opts(SecondsFormat::Secs, true)`. Claims only that the result
/// is the one `spec_parse_rfc3339` names.
#[verifier::external_body]
pub(crate) fn parse_rfc3339(s: &str) -> (r: Option<DateStamp>)
    ensures
        stamp_of(r) == spec_parse_rfc3339(s@),
{
    let u = chrono::DateTime::parse_from_rfc3339(s).ok()?.with_timezone(&chrono::Utc);
    Some(DateStamp {
        secs: u.timestamp(),
        nanos: u.timestamp_subsec_nanos(),
        rfc3339: u.to_rfc3339_opts(chrono::SecondsFormat::Secs, true),
    })
}

/// `chrono::DateTime::parse_from_rfc2822`, read out as `parse_rfc3339` reads
/// its result. Claims only that the result is the one `spec_parse_rfc2822`
/// names.
#[verifier::external_body]
pub(crate) fn parse_rfc2822(s: &str) -> (r: Option<DateStamp>)
    ensures
        stamp_of(r) == spec_parse_rfc2822(s@),
{
    let u = chrono::DateTime::parse_from_rfc2822(s).ok()?.with_timezone(&chrono::Utc);
    Some(DateStamp {
        secs: u.timestamp(),
        nanos: u.timestamp_subsec_nanos(),
        rfc3339: u.to_rfc3339_opts(chrono::SecondsFormat::Secs, true),
    })
}

/// A feed date, white space around it ignored: RFC 3339 first, RFC 2822
/// when that fails.
pub fn parse_date(s: &str) -> (r: Option<DateStamp>)
    ensures
        stamp_of(r) == spec_parse_date(trim(s@)),
{
    let t = str_trim(s);
    match parse_rfc3339(t.as_str()) {
        Some(d) => Some(d),
        None => parse_rfc2822(t.as_str()),
    }
}

} // verus!
