//! Points in time, and the texts in which they are stored.

use crate::error::BeadsError;
use vstd::prelude::*;

verus! {

use crate::error::{outcome, BeadsErrorView};

/// The view of a [`Timestamp`]: whole seconds since the Unix epoch and the nanoseconds on top.
pub struct Instant {
    pub seconds: i64,
    pub nanos: u32,
}

/// Which pairs of seconds and nanoseconds are a point in time: the years from -262143 to 262142,
/// with a full second or more of nanoseconds only in the last second of a minute, for a leap
/// second.
pub open spec fn is_instant(seconds: i64, nanos: u32) -> bool {
    &&& -8334601228800 <= seconds <= 8210266876799
    &&& nanos < 2_000_000_000
    &&& nanos >= 1_000_000_000 ==> seconds % 60 == 59
}

/// The point in time lies in one of the years 0 to 9999.
pub open spec fn four_digit_year(seconds: i64) -> bool {
    -62167219200 <= seconds <= 253402300799
}

/// The text of a point in time that `DateTime::<Utc>::to_rfc3339` of chrono gives.
pub uninterp spec fn rfc3339_text(seconds: i64, nanos: u32) -> Seq<char>;

/// The point in time that `DateTime::parse_from_rfc3339` of chrono reads from a text, as seconds
/// and nanoseconds.
pub uninterp spec fn rfc3339_instant(s: Seq<char>) -> Option<(i64, u32)>;

/// The point in time that `NaiveDateTime::parse_from_str` of chrono reads from a text with the
/// format `%Y-%m-%d %H:%M:%S`, taken as UTC, as seconds and nanoseconds.
pub uninterp spec fn plain_instant(s: Seq<char>) -> Option<(i64, u32)>;

/// The RFC 3339 text of a point in time.
pub open spec fn rfc3339(t: Instant) -> Seq<char> {
    rfc3339_text(t.seconds, t.nanos)
}

/// The RFC 3339 text of an optional point in time.
pub open spec fn rfc3339_opt(t: Option<Instant>) -> Option<Seq<char>> {
    match t {
        Some(t) => Some(rfc3339(t)),
        None => None,
    }
}

/// Calls `to_rfc3339` of chrono on the point in time that `DateTime::from_timestamp` makes of the
/// seconds and nanoseconds.
///
/// Claimed: the result is the named text, and for the years 0 to 9999, whose texts have a plain
/// four-digit year, `parse_from_rfc3339` reads the same point in time back.
#[verifier::external_body]
fn format_rfc3339(seconds: i64, nanos: u32) -> (r: String)
    requires
        is_instant(seconds, nanos),
    ensures
        r@ == rfc3339_text(seconds, nanos),
        four_digit_year(seconds) ==> rfc3339_instant(r@) == Some((seconds, nanos)),
{
    match chrono::DateTime::<chrono::Utc>::from_timestamp(seconds, nanos) {
        Some(t) => t.to_rfc3339(),
        None => String::new(),
    }
}

/// Calls `DateTime::parse_from_rfc3339` of chrono and takes the result to UTC.
///
/// Claimed: the result is the named one, and a point in time that is read lies in the range of
/// chrono's dates, with nanoseconds beyond a second only for a leap second.
#[verifier::external_body]
fn parse_rfc3339(s: &str) -> (r: Option<(i64, u32)>)
    ensures
        r == rfc3339_instant(s@),
        r matches Some((seconds, nanos)) ==> is_instant(seconds, nanos),
{
    match chrono::DateTime::parse_from_rfc3339(s) {
        Ok(t) => {
            let utc = t.with_timezone(&chrono::Utc);
            Some((utc.timestamp(), utc.timestamp_subsec_nanos()))
        }
        Err(_) => None,
    }
}

/// Calls `NaiveDateTime::parse_from_str` of chrono with the format `%Y-%m-%d %H:%M:%S` and takes
/// the result as UTC.
///
/// Claimed: the result is the named one, and a point in time that is read lies in the range of
/// chrono's dates, with nanoseconds beyond a second only for a leap second.
#[verifier::external_body]
fn parse_plain(s: &str) -> (r: Option<(i64, u32)>)
    ensures
        r == plain_instant(s@),
        r matches Some((seconds, nanos)) ==> is_instant(seconds, nanos),
{
    match chrono::NaiveDateTime::parse_from_str(s, "%Y-%m-%d %H:%M:%S") {
        Ok(t) => {
            let utc = t.and_utc();
            Some((utc.timestamp(), utc.timestamp_subsec_nanos()))
        }
        Err(_) => None,
    }
}

/// A point in time in UTC.
#[derive(Debug, Clone, Copy, PartialEq, Eq, Default)]
pub struct Timestamp {
    seconds: i64,
    nanos: u32,
}

impl DeepView for Timestamp {
    type V = Instant;

    closed spec fn deep_view(&self) -> Instant {
        Instant { seconds: self.seconds, nanos: self.nanos }
    }
}

impl Timestamp {
    #[verifier::type_invariant]
    spec fn in_range(self) -> bool {
        is_instant(self.seconds, self.nanos)
    }

    /// The point in time with these seconds and nanoseconds, `None` where there is none.
    pub fn new(seconds: i64, nanos: u32) -> (r: Option<Timestamp>)
        ensures
            r.deep_view() == (if is_instant(seconds, nanos) {
                Some(Instant { seconds, nanos })
            } else {
                None
            }),
    {
        if seconds < -8334601228800 || seconds > 8210266876799 || nanos >= 2_000_000_000 {
            return None;
        }
        if nanos >= 1_000_000_000 {
            let rest: i64 = seconds % 60;
            let rest: i64 = if rest < 0 {
                rest + 60
            } else {
                rest
            };
            assert(rest == (seconds as int) % 60);
            if rest != 59 {
                return None;
            }
        }
        Some(Timestamp { seconds, nanos })
    }

    /// Whole seconds since the Unix epoch.
    pub fn seconds(&self) -> (r: i64)
        ensures
            r == self.deep_view().seconds,
    {
        self.seconds
    }

    /// Nanoseconds on top of the whole seconds.
    pub fn nanos(&self) -> (r: u32)
        ensures
            r == self.deep_view().nanos,
    {
        self.nanos
    }

    /// The RFC 3339 text of the point in time.
    pub fn to_rfc3339(&self) -> (r: String)
        ensures
            r@ == rfc3339(self.deep_view()),
            four_digit_year(self.deep_view().seconds) ==> read_datetime(r@) == Some(
                self.deep_view(),
            ),
    {
        proof {
            use_type_invariant(self);
        }
        format_rfc3339(self.seconds, self.nanos)
    }
}

/// The RFC 3339 text of an optional point in time.
pub fn opt_rfc3339(t: &Option<Timestamp>) -> (r: Option<String>)
    ensures
        r.deep_view() == rfc3339_opt(t.deep_view()),
        t.deep_view() matches Some(i) ==> (four_digit_year(i.seconds) ==> read_datetime(
            rfc3339(i),
        ) == Some(i)),
{
    match t {
        Some(t) => Some(t.to_rfc3339()),
        None => None,
    }
}

/// The point in time that seconds and nanoseconds denote.
pub open spec fn instant_of(reading: Option<(i64, u32)>) -> Option<Instant> {
    match reading {
        Some((seconds, nanos)) => Some(Instant { seconds, nanos }),
        None => None,
    }
}

/// The first of two readings of a text that succeeded.
pub open spec fn first_reading(
    first: Option<Instant>,
    second: Option<Instant>,
) -> Option<Instant> {
    match first {
        Some(t) => Some(t),
        None => second,
    }
}

/// The point in time that a stored text denotes: RFC 3339, or else a plain date and time in UTC.
pub open spec fn read_datetime(s: Seq<char>) -> Option<Instant> {
    first_reading(instant_of(rfc3339_instant(s)), instant_of(plain_instant(s)))
}

/// The result for a stored text, given the readings of it.
pub open spec fn datetime_outcome(
    s: Seq<char>,
    reading: Option<Instant>,
) -> Result<Instant, BeadsErrorView> {
    match reading {
        Some(t) => Ok(t),
        None => Err(BeadsErrorView::Config("unparseable datetime: "@ + s)),
    }
}

/// Settles on the first of two readings of a stored text.
pub fn settle_datetime(
    s: &str,
    first: Option<Timestamp>,
    second: Option<Timestamp>,
) -> (r: Result<Timestamp, BeadsError>)
    ensures
        outcome(r) == datetime_outcome(
            s@,
            first_reading(first.deep_view(), second.deep_view()),
        ),
{
    match first {
        Some(t) => Ok(t),
        None => match second {
            Some(t) => Ok(t),
            None => Err(BeadsError::config("unparseable datetime: ", s)),
        },
    }
}

/// Reads a stored point in time: RFC 3339, or else a plain date and time in UTC.
pub fn parse_datetime(s: &str) -> (r: Result<Timestamp, BeadsError>)
    ensures
        outcome(r) == datetime_outcome(s@, read_datetime(s@)),
{
    let first = match parse_rfc3339(s) {
        Some((seconds, nanos)) => Timestamp::new(seconds, nanos),
        None => None,
    };
    if first.is_some() {
        return settle_datetime(s, first, None);
    }
    let second = match parse_plain(s) {
        Some((seconds, nanos)) => Timestamp::new(seconds, nanos),
        None => None,
    };
    settle_datetime(s, None, second)
}

/// The result for an optional stored text.
pub open spec fn opt_datetime_outcome(s: Option<Seq<char>>) -> Result<
    Option<Instant>,
    BeadsErrorView,
> {
    match s {
        Some(s) => match datetime_outcome(s, read_datetime(s)) {
            Ok(t) => Ok(Some(t)),
            Err(e) => Err(e),
        },
        None => Ok(None),
    }
}

/// Reads an optional stored point in time.
pub fn parse_opt_datetime(s: &Option<String>) -> (r: Result<Option<Timestamp>, BeadsError>)
    ensures
        outcome(r) == opt_datetime_outcome(s.deep_view()),
{
    match s {
        Some(s) => match parse_datetime(s.as_str()) {
            Ok(t) => Ok(Some(t)),
            Err(e) => Err(e),
        },
        None => Ok(None),
    }
}

} // verus!
