use vstd::prelude::*;
use crate::error::{Error, ErrorKind, validation_error};

verus! {

/// A point in time, in whole seconds since 1970-01-01T00:00:00Z.
#[derive(PartialEq, Eq, Structural, Clone, Copy, Debug)]
pub struct Timestamp {
    pub seconds: i64,
}

/// The instant, in seconds since the epoch, that chrono reads from an RFC 3339 text.
pub uninterp spec fn rfc3339_seconds(s: Seq<char>) -> Option<i64>;

/// The instant, in seconds since the epoch, that chrono reads from a text in a strftime format.
pub uninterp spec fn formatted_seconds(s: Seq<char>, fmt: Seq<char>) -> Option<i64>;

/// The first second chrono represents: -262143-01-01T00:00:00Z.
pub const MIN_SECONDS: i64 = -8_334_601_228_800;

/// The last second chrono represents: 262142-12-31T23:59:59Z.
pub const MAX_SECONDS: i64 = 8_210_266_876_799;

/// Whether chrono can represent the instant that many seconds after the epoch:
/// its dates run from year -262143 to year 262142.
pub open spec fn representable_seconds(secs: i64) -> bool {
    MIN_SECONDS <= secs <= MAX_SECONDS
}

/// Relies on chrono's `DateTime::parse_from_rfc3339`, then `DateTime::timestamp`
/// for the seconds since the epoch of what was read.
#[verifier::external_body]
fn parse_rfc3339(s: &str) -> (r: Option<i64>)
    ensures
        r == rfc3339_seconds(s@),
{
    chrono::DateTime::parse_from_rfc3339(s).ok().map(|d| d.timestamp())
}

/// Relies on chrono's `DateTime::parse_from_str`, which needs an offset in the
/// text, then `DateTime::timestamp` for the seconds since the epoch.
#[verifier::external_body]
fn parse_with_format(s: &str, fmt: &str) -> (r: Option<i64>)
    ensures
        r == formatted_seconds(s@, fmt@),
{
    chrono::DateTime::parse_from_str(s, fmt).ok().map(|d| d.timestamp())
}

/// Relies on chrono's `DateTime::from_timestamp`, which returns `None` exactly
/// for seconds outside `DateTime::<Utc>::MIN_UTC ..= MAX_UTC`.
#[verifier::external_body]
fn seconds_representable(secs: i64) -> (r: bool)
    ensures
        r == representable_seconds(secs),
{
    chrono::DateTime::from_timestamp(secs, 0).is_some()
}

/// The format tried on a datetime string that is not RFC 3339.
pub open spec fn spaced_format() -> Seq<char> {
    "%Y-%m-%d %H:%M:%S %z"@
}

/// The format tried on the ISO text of a time object that is not RFC 3339.
pub open spec fn compact_format() -> Seq<char> {
    "%Y-%m-%dT%H:%M:%S%z"@
}

/// RFC 3339 first, then the given format.
pub open spec fn datetime_reading(s: Seq<char>, fallback: Seq<char>) -> Option<i64> {
    match rfc3339_seconds(s) {
        Some(v) => Some(v),
        None => formatted_seconds(s, fallback),
    }
}

/// Reads a datetime string: RFC 3339 (`2023-01-01T12:00:00Z`), or else
/// `%Y-%m-%d %H:%M:%S %z`.
pub fn ruby_to_datetime(text: &str) -> (r: Result<Timestamp, Error>)
    ensures
        r is Ok <==> datetime_reading(text@, spaced_format()) is Some,
        r is Ok ==> r->Ok_0.seconds == datetime_reading(text@, spaced_format())->0,
        r is Err ==> r->Err_0.kind == ErrorKind::Validation,
{
    match parse_rfc3339(text) {
        Some(v) => Ok(Timestamp { seconds: v }),
        None => match parse_with_format(text, "%Y-%m-%d %H:%M:%S %z") {
            Some(v) => Ok(Timestamp { seconds: v }),
            None => Err(validation_error(
                "Invalid datetime format. Expected ISO 8601 format (e.g., '2023-01-01T12:00:00Z') or '%Y-%m-%d %H:%M:%S %z'",
            )),
        },
    }
}

/// Reads the ISO text that a time object gives of itself: RFC 3339, or else
/// `%Y-%m-%dT%H:%M:%S%z` (an offset without a colon).
pub fn iso_to_datetime(text: &str) -> (r: Result<Timestamp, Error>)
    ensures
        r is Ok <==> datetime_reading(text@, compact_format()) is Some,
        r is Ok ==> r->Ok_0.seconds == datetime_reading(text@, compact_format())->0,
        r is Err ==> r->Err_0.kind == ErrorKind::Validation,
{
    match parse_rfc3339(text) {
        Some(v) => Ok(Timestamp { seconds: v }),
        None => match parse_with_format(text, "%Y-%m-%dT%H:%M:%S%z") {
            Some(v) => Ok(Timestamp { seconds: v }),
            None => Err(validation_error("Invalid datetime from time object. Unable to parse as ISO 8601")),
        },
    }
}

/// The instant `secs` seconds after the epoch, where chrono can represent it.
pub fn from_timestamp(secs: i64) -> (r: Option<Timestamp>)
    ensures
        r is Some <==> representable_seconds(secs),
        r is Some ==> r->0.seconds == secs,
{
    if seconds_representable(secs) {
        Some(Timestamp { seconds: secs })
    } else {
        None
    }
}

/// Hands out annotation times that differ from each other: the n-th call
/// returns the given time moved n seconds later. Annotations are keyed by their
/// time in whole seconds, so two made within one second would otherwise collide.
#[derive(Debug)]
pub struct SequenceClock {
    issued: u64,
}

impl SequenceClock {
    pub closed spec fn count(&self) -> nat {
        self.issued as nat
    }

    pub fn new() -> (r: Self)
        ensures
            r.count() == 0,
    {
        SequenceClock { issued: 0 }
    }

    /// `now` moved by the number of times already issued; `None`, with nothing
    /// issued, where that would leave the range of `i64`.
    pub fn next(&mut self, now: Timestamp) -> (r: Option<Timestamp>)
        ensures
            r is Some <==> old(self).count() < u64::MAX && now.seconds + old(self).count() <= i64::MAX,
            r is Some ==> r->0.seconds == now.seconds + old(self).count()
                && final(self).count() == old(self).count() + 1,
            r is None ==> final(self).count() == old(self).count(),
    {
        if self.issued == u64::MAX {
            return None;
        }
        let moved: i128 = now.seconds as i128 + self.issued as i128;
        if moved > i64::MAX as i128 {
            return None;
        }
        self.issued = self.issued + 1;
        Some(Timestamp { seconds: moved as i64 })
    }
}

} // verus!
