//! Calendar texts for points in time.

use vstd::prelude::*;

verus! {

/// What `chrono` makes of the second `seconds` after the Unix epoch under a format pattern;
/// nothing where the second lies outside the years that it can hold.
pub uninterp spec fn utc_text_of(seconds: i64, pattern: Seq<char>) -> Option<Seq<char>>;

/// The second that an RFC 3339 text names, counted from the Unix epoch, as `chrono` reads it.
pub uninterp spec fn rfc3339_seconds_of(text: Seq<char>) -> Option<i64>;

/// The pattern of a day: year, month, day with hyphens.
pub const DAY: &'static str = "%Y-%m-%d";

/// The pattern of the name of a raw log: date and time with a hyphen.
pub const LOG_STAMP: &'static str = "%Y%m%d-%H%M%S";

/// The pattern of the name of a graph snapshot: date and time with an underscore.
pub const SNAPSHOT_STAMP: &'static str = "%Y%m%d_%H%M%S";

/// `DateTime::from_timestamp`, then `format`: the point in time in UTC under the pattern. The
/// result is a function of the two arguments alone, and there is one exactly where the first of
/// the two calls has one.
#[verifier::external_body]
pub(crate) fn utc_text(seconds: i64, pattern: &str) -> (r: Option<String>)
    requires
        pattern@ == DAY@ || pattern@ == LOG_STAMP@ || pattern@ == SNAPSHOT_STAMP@,
    ensures
        match r {
            Some(s) => utc_text_of(seconds, pattern@) == Some(s@),
            None => utc_text_of(seconds, pattern@) is None,
        },
{
    chrono::DateTime::from_timestamp(seconds, 0).map(|t| t.format(pattern).to_string())
}

/// `DateTime::parse_from_rfc3339`, then `timestamp`: the second that the text names, or nothing
/// where it is no RFC 3339 date and time. The result is a function of the text alone.
#[verifier::external_body]
pub(crate) fn rfc3339_seconds(text: &str) -> (r: Option<i64>)
    ensures
        r == rfc3339_seconds_of(text@),
{
    chrono::DateTime::parse_from_rfc3339(text).ok().map(|t| t.timestamp())
}

} // verus!
