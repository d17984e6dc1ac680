//! Instants, read from RFC 3339 texts.

use vstd::prelude::*;

verus! {

/// A minute, in nanoseconds.
pub const MINUTE: i128 = 60_000_000_000;

/// A day, in nanoseconds.
pub const DAY: i128 = 86_400_000_000_000;

/// The instant that an RFC 3339 text names, in nanoseconds since the Unix epoch; nothing where
/// the text is not one.
pub uninterp spec fn rfc3339_nanos(text: Seq<char>) -> Option<i128>;

/// `time::OffsetDateTime::parse` with the well-known RFC 3339 format, then
/// `unix_timestamp_nanos`. The instant is named, not spelled out. A date is a whole number of
/// days that fits 32 bits, so the instant is far from the ends of its type.
#[verifier::external_body]
pub(crate) fn parse_rfc3339(text: &str) -> (r: Option<i128>)
    ensures
        r == rfc3339_nanos(text@),
        r is Some ==> -1_000_000_000_000_000_000_000_000 < r->0
            < 1_000_000_000_000_000_000_000_000,
{
    time::OffsetDateTime::parse(text, &time::format_description::well_known::Rfc3339)
        .ok()
        .map(time::OffsetDateTime::unix_timestamp_nanos)
}

/// The whole seconds of an instant, rounded down.
pub open spec fn seconds(nanos: i128) -> int {
    nanos as int / 1_000_000_000
}

/// The Unix time that a text names, in seconds.
pub open spec fn spec_secs(text: Seq<char>) -> Option<int> {
    match rfc3339_nanos(text) {
        Some(n) => Some(seconds(n)),
        None => None,
    }
}

/// The whole seconds of an instant.
pub fn whole_seconds(nanos: i128) -> (r: i64)
    requires
        -1_000_000_000_000_000_000_000_000 < nanos < 1_000_000_000_000_000_000_000_000,
    ensures
        r == seconds(nanos),
{
    match nanos.checked_div_euclid(1_000_000_000) {
        Some(q) => q as i64,
        None => 0,
    }
}

/// The Unix time of an RFC 3339 text, in seconds; nothing where it is malformed.
pub fn rfc3339_secs(text: &str) -> (r: Option<i64>)
    ensures
        match r {
            Some(s) => spec_secs(text@) == Some(s as int),
            None => spec_secs(text@) is None,
        },
{
    match parse_rfc3339(text) {
        Some(n) => Some(whole_seconds(n)),
        None => None,
    }
}

/// The seconds of an instant are rounded down, before the epoch as after it.
pub proof fn seconds_are_rounded_down(nanos: i128)
    ensures
        seconds(nanos) * 1_000_000_000 <= nanos < (seconds(nanos) + 1) * 1_000_000_000,
{
}

} // verus!
