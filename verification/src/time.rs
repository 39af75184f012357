//! Instants in UTC, held as whole seconds since the Unix epoch and nanoseconds.

use chrono::TimeZone;
use vstd::prelude::*;

use crate::text::is_digit;

verus! {

/// The first second of the calendar that instants cover.
pub const MIN_SECONDS: i64 = -8_334_601_228_800;

/// The last second of the calendar that instants cover.
pub const MAX_SECONDS: i64 = 8_210_266_876_799;

/// The longest span that can be taken off an instant, in seconds.
pub const MAX_SPAN: i64 = 9_223_372_036_854_775;

/// A day, written as year, month and day.
pub const DAY_PATTERN: &'static str = "%Y-%m-%d";

/// A day and a minute of it.
pub const MINUTE_PATTERN: &'static str = "%Y-%m-%d %H:%MZ";

/// A day of the year and a minute of it.
pub const SHORT_PATTERN: &'static str = "%m-%d %H:%M";

/// An instant in UTC. A leap second is the second before it with a nanosecond count of a
/// thousand million or more.
#[derive(Debug, Clone, Copy, PartialEq, Eq)]
pub struct Timestamp {
    secs: i64,
    nanos: u32,
}

/// Whether an instant of `secs` seconds and `nanos` nanoseconds is on the calendar.
pub open spec fn on_calendar(secs: int, nanos: int) -> bool {
    &&& MIN_SECONDS <= secs <= MAX_SECONDS
    &&& 0 <= nanos < 2_000_000_000
    &&& nanos >= 1_000_000_000 ==> secs % 60 == 59
}

/// Whether the instant `a` comes before the instant `b`.
pub open spec fn earlier(a: (int, int), b: (int, int)) -> bool {
    a.0 < b.0 || (a.0 == b.0 && a.1 < b.1)
}

/// The later of two instants.
pub open spec fn later_of(a: (int, int), b: (int, int)) -> (int, int) {
    if earlier(a, b) {
        b
    } else {
        a
    }
}

/// The instant `span` seconds before `at`; from inside a leap second it is counted from the end
/// of the second that the leap second extends.
pub open spec fn moved_back(at: (int, int), span: int) -> (int, int) {
    if at.1 >= 1_000_000_000 && span > 0 {
        (at.0 + 1 - span, at.1 - 1_000_000_000)
    } else {
        (at.0 - span, at.1)
    }
}

impl View for Timestamp {
    type V = (int, int);

    closed spec fn view(&self) -> (int, int) {
        (self.secs as int, self.nanos as int)
    }
}

impl Timestamp {
    #[verifier::type_invariant]
    spec fn valid(self) -> bool {
        on_calendar(self.secs as int, self.nanos as int)
    }

    /// The instant of `secs` seconds and `nanos` nanoseconds, where it is on the calendar.
    pub fn new(secs: i64, nanos: u32) -> (r: Option<Timestamp>)
        ensures
            r is Some <==> on_calendar(secs as int, nanos as int),
            r matches Some(t) ==> t@ == (secs as int, nanos as int),
    {
        if MIN_SECONDS <= secs && secs <= MAX_SECONDS && nanos < 2_000_000_000 {
            if nanos < 1_000_000_000 {
                return Some(Timestamp { secs, nanos });
            }
            let shifted: i64 = secs - MIN_SECONDS;
            assert(shifted % 60 == secs % 60);
            if shifted % 60 == 59 {
                return Some(Timestamp { secs, nanos });
            }
        }
        None
    }

    /// Whole seconds since the Unix epoch.
    pub fn seconds(&self) -> (r: i64)
        ensures
            r == self@.0,
    {
        self.secs
    }

    /// Nanoseconds within the second.
    pub fn nanoseconds(&self) -> (r: u32)
        ensures
            r == self@.1,
    {
        self.nanos
    }

    /// Whether this instant comes before `other`.
    pub fn is_before(&self, other: &Timestamp) -> (r: bool)
        ensures
            r == earlier(self@, other@),
    {
        self.secs < other.secs || (self.secs == other.secs && self.nanos < other.nanos)
    }

    /// The later of this instant and `other`.
    pub fn max(self, other: Timestamp) -> (r: Timestamp)
        ensures
            r@ == later_of(self@, other@),
    {
        if self.is_before(&other) {
            other
        } else {
            self
        }
    }
}

/// Where the RFC 3339 text `text` points, if it is one.
pub uninterp spec fn rfc3339_instant(text: Seq<char>) -> Option<(int, int)>;

/// Calls `chrono::DateTime::parse_from_rfc3339` and converts to UTC: the result depends on the
/// text alone and is named `rfc3339_instant`. Such a text ends with its offset, which is `Z` in either
/// case or ends with a digit.
#[verifier::external_body]
pub(crate) fn parse_rfc3339(text: &str) -> (r: Option<Timestamp>)
    ensures
        match r {
            Some(t) => rfc3339_instant(text@) == Some(t@),
            None => rfc3339_instant(text@) is None,
        },
        r is Some ==> text@.len() > 0 && (is_digit(text@.last()) || text@.last() == 'Z' || text@.last()
            == 'z'),
{
    let parsed = chrono::DateTime::parse_from_rfc3339(text).ok()?;
    let utc = parsed.with_timezone(&chrono::Utc);
    Some(Timestamp { secs: utc.timestamp(), nanos: utc.timestamp_subsec_nanos() })
}

/// The midnight in UTC that starts the day which `text` writes in the form `pattern`, if any.
pub uninterp spec fn day_start(text: Seq<char>, pattern: Seq<char>) -> Option<(int, int)>;

/// Calls `chrono::NaiveDate::parse_from_str` and takes the midnight in UTC that starts the day:
/// the result depends on the text and the pattern alone and is named `day_start`. Where the pattern
/// is `DAY_PATTERN`, such a text ends with a digit of the day.
#[verifier::external_body]
pub(crate) fn parse_day(text: &str, pattern: &str) -> (r: Option<Timestamp>)
    ensures
        match r {
            Some(t) => day_start(text@, pattern@) == Some(t@),
            None => day_start(text@, pattern@) is None,
        },
        r is Some && pattern@ == DAY_PATTERN@ ==> text@.len() > 0 && is_digit(text@.last()),
{
    let midnight = chrono::NaiveDate::parse_from_str(text, pattern).ok()?.and_hms_opt(0, 0, 0)?;
    let utc = chrono::Utc.from_utc_datetime(&midnight);
    Some(Timestamp { secs: utc.timestamp(), nanos: utc.timestamp_subsec_nanos() })
}

/// Calls `chrono::DateTime::checked_sub_signed`: the instant `span` seconds earlier, or nothing
/// where it is off the calendar.
#[verifier::external_body]
pub(crate) fn checked_sub(at: Timestamp, span: i64) -> (r: Option<Timestamp>)
    requires
        0 <= span <= MAX_SPAN,
    ensures
        r is Some <==> MIN_SECONDS <= moved_back(at@, span as int).0,
        r matches Some(t) ==> t@ == moved_back(at@, span as int),
{
    let utc = chrono::DateTime::from_timestamp(at.secs, at.nanos)?;
    let moved = utc.checked_sub_signed(chrono::TimeDelta::try_seconds(span)?)?;
    Some(Timestamp { secs: moved.timestamp(), nanos: moved.timestamp_subsec_nanos() })
}

/// The instant of `secs` seconds and `nanos` nanoseconds, written in the form `pattern`.
pub uninterp spec fn utc_text(secs: int, nanos: int, pattern: Seq<char>) -> Seq<char>;

/// The second that the UTC day of the second `secs` starts with.
pub open spec fn day_of(secs: int) -> int {
    secs - secs % 86_400
}

/// Calls `chrono::DateTime::format` on the instant in UTC and renders it: the text depends on the
/// instant and the pattern alone and is named `utc_text`. Where the pattern is that of a day, all
/// instants of a day give the same text.
#[verifier::external_body]
pub(crate) fn format_utc(at: &Timestamp, pattern: &str) -> (r: String)
    requires
        pattern@ == DAY_PATTERN@ || pattern@ == MINUTE_PATTERN@ || pattern@ == SHORT_PATTERN@,
    ensures
        r@ == utc_text(at@.0, at@.1, pattern@),
        pattern@ == DAY_PATTERN@ ==> r@ == utc_text(day_of(at@.0), 0, pattern@),
{
    let utc = chrono::DateTime::from_timestamp(at.secs, at.nanos).expect("on the calendar");
    utc.format(pattern).to_string()
}

/// The instant of `secs` seconds and `nanos` nanoseconds as RFC 3339 text.
pub uninterp spec fn utc_rfc3339(secs: int, nanos: int) -> Seq<char>;

/// Calls `chrono::DateTime::to_rfc3339` on the instant in UTC: the text depends on the instant
/// alone and is named `utc_rfc3339`.
#[verifier::external_body]
pub(crate) fn rfc3339_text(at: &Timestamp) -> (r: String)
    ensures
        r@ == utc_rfc3339(at@.0, at@.1),
{
    chrono::DateTime::from_timestamp(at.secs, at.nanos).expect("on the calendar").to_rfc3339()
}

} // verus!
