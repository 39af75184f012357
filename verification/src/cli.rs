//! The arguments of the commands, and what a `--since` value means.

use vstd::prelude::*;

use crate::catalog::GroupBy;
use crate::text::{
    cat, chars_of, decimal, decimal_is_read_back, is_digit, lemma_trimmed_is_itself, parse_whole, text_between, trim,
    trimmed, whole_number,
};
use crate::time::{
    checked_sub, day_start, earlier, moved_back, on_calendar, parse_day, parse_rfc3339, rfc3339_instant, Timestamp,
    DAY_PATTERN, MAX_SPAN, MIN_SECONDS,
};

verus! {

/// The arguments of `list`.
#[derive(Debug)]
pub struct ListArgs {
    /// Only sessions of this source.
    pub source: Option<String>,
    /// Only sessions of this project.
    pub project: Option<String>,
    /// Only sessions of this model provider.
    pub provider: Option<String>,
    /// Only sessions since this time: RFC 3339, a day, or a span such as `30m`, `24h`, `7d`, `4w`.
    pub since: Option<String>,
    /// What to group by.
    pub group_by: GroupBy,
    /// Whether to write JSON.
    pub json: bool,
    /// Whether to keep sessions that are known to be non-interactive.
    pub include_non_interactive: bool,
    /// What to search for.
    pub search: Option<String>,
}

/// The arguments of `resume`.
#[derive(Debug)]
pub struct ResumeArgs {
    /// The id of the session.
    pub session_id: String,
    /// Whether to show the command without running it.
    pub dry_run: bool,
    /// Whether to create an alias for the model provider of the session.
    pub repair_provider: bool,
    /// Whether to skip the question before a repair.
    pub yes: bool,
}

/// The arguments of `doctor`.
#[derive(Debug, Clone, Copy)]
pub struct DoctorArgs {
    /// Whether to write JSON.
    pub json: bool,
}

/// The arguments of `sources`.
#[derive(Debug, Clone, Copy)]
pub struct SourcesArgs {
    /// Whether to write JSON.
    pub json: bool,
}

/// A `--since` value that names no time.
#[derive(Debug, PartialEq, Eq)]
pub struct SinceParseError {
    value: String,
}

impl View for SinceParseError {
    type V = Seq<char>;

    closed spec fn view(&self) -> Seq<char> {
        self.value@
    }
}

impl SinceParseError {
    /// What to tell the user.
    pub fn message(&self) -> (r: String)
        ensures
            r@ == "无效的 --since 值: "@ + self@,
    {
        cat("无效的 --since 值: ", self.value.as_str())
    }
}

/// How many seconds the unit `unit` of a span stands for.
pub open spec fn unit_seconds(unit: char) -> Option<int> {
    match unit {
        'm' => Some(60),
        'h' => Some(3_600),
        'd' => Some(86_400),
        'w' => Some(604_800),
        _ => None,
    }
}

/// The span that `text` writes as a whole number and a unit, in seconds, where it is not negative
/// and not longer than `MAX_SPAN`.
pub open spec fn relative_span(text: Seq<char>) -> Option<int> {
    if text.len() == 0 {
        None
    } else {
        match (whole_number(text.drop_last()), unit_seconds(text.last())) {
            (Some(n), Some(unit)) => if n >= 0 && n * unit <= MAX_SPAN {
                Some(n * unit)
            } else {
                None
            },
            _ => None,
        }
    }
}

/// The instant that `text`, a span, stands for when it is `now`, where it is on the calendar.
pub open spec fn relative_instant(text: Seq<char>, now: (int, int)) -> Option<(int, int)> {
    match relative_span(text) {
        Some(span) => if moved_back(now, span).0 >= MIN_SECONDS {
            Some(moved_back(now, span))
        } else {
            None
        },
        None => None,
    }
}

/// The first of three readings of a `--since` value that there is: an instant, a day, a span.
pub open spec fn first_reading(
    instant: Option<(int, int)>,
    day: Option<(int, int)>,
    relative: Option<(int, int)>,
) -> Option<(int, int)> {
    match instant {
        Some(at) => Some(at),
        None => match day {
            Some(at) => Some(at),
            None => relative,
        },
    }
}

/// What the `--since` value `text` means when it is `now`.
pub open spec fn since_instant(text: Seq<char>, now: (int, int)) -> Option<(int, int)> {
    let value = trimmed(text);
    first_reading(
        rfc3339_instant(value),
        day_start(value, DAY_PATTERN@),
        relative_instant(value, now),
    )
}

/// `n` units `unit` as a span.
pub open spec fn span_text(n: nat, unit: char) -> Seq<char> {
    decimal(n).push(unit)
}

proof fn lemma_span_text(n: nat, unit: char)
    requires
        unit_seconds(unit) is Some,
    ensures
        trimmed(span_text(n, unit)) == span_text(n, unit),
        relative_span(span_text(n, unit)) == if n * unit_seconds(unit)->0 <= MAX_SPAN {
            Some(n * unit_seconds(unit)->0)
        } else {
            None
        },
{
    decimal_is_read_back(n);
    let text = span_text(n, unit);
    assert(text.drop_last() =~= decimal(n));
    assert(is_digit(decimal(n)[0]) && text[0] == decimal(n)[0]);
    lemma_trimmed_is_itself(text);
    if n > i64::MAX {
        assert(n * unit_seconds(unit)->0 > MAX_SPAN) by {
            match unit {
                'm' => assert(n * 60 > MAX_SPAN),
                'h' => assert(n * 3_600 > MAX_SPAN),
                'd' => assert(n * 86_400 > MAX_SPAN),
                _ => assert(n * 604_800 > MAX_SPAN),
            }
        }
    }
}

/// A week is seven days, a day 24 hours and an hour 60 minutes, whatever number of them a span
/// writes.
pub proof fn span_units_agree(n: nat, now: (int, int))
    ensures
        relative_span(span_text(n, 'w')) == relative_span(span_text(7 * n, 'd')),
        relative_span(span_text(n, 'd')) == relative_span(span_text(24 * n, 'h')),
        relative_span(span_text(n, 'h')) == relative_span(span_text(60 * n, 'm')),
        relative_instant(span_text(n, 'w'), now) == relative_instant(span_text(7 * n, 'd'), now),
        relative_instant(span_text(n, 'd'), now) == relative_instant(span_text(24 * n, 'h'), now),
        relative_instant(span_text(n, 'h'), now) == relative_instant(span_text(60 * n, 'm'), now),
{
    lemma_span_text(n, 'w');
    lemma_span_text(7 * n, 'd');
    lemma_span_text(n, 'd');
    lemma_span_text(24 * n, 'h');
    lemma_span_text(n, 'h');
    lemma_span_text(60 * n, 'm');
}

/// A span of `n` units stands for the instant so much before now, where that is on the calendar: not
/// after now, and now itself where there are none.
pub proof fn span_reaches_back(n: nat, unit: char, now: (int, int))
    requires
        unit_seconds(unit) is Some,
        on_calendar(now.0, now.1),
        moved_back(now, n * unit_seconds(unit)->0).0 >= MIN_SECONDS,
    ensures
        trimmed(span_text(n, unit)) == span_text(n, unit),
        relative_instant(span_text(n, unit), now) == Some(
            moved_back(now, n * unit_seconds(unit)->0),
        ),
        !earlier(now, moved_back(now, n * unit_seconds(unit)->0)),
        n == 0 ==> relative_instant(span_text(n, unit), now) == Some(now),
{
    lemma_span_text(n, unit);
    assert(n > 0 ==> n * unit_seconds(unit)->0 >= 60) by {
        match unit {
            'm' => assert(n > 0 ==> n * 60 >= 60),
            'h' => assert(n > 0 ==> n * 3_600 >= 60),
            'd' => assert(n > 0 ==> n * 86_400 >= 60),
            _ => assert(n > 0 ==> n * 604_800 >= 60),
        }
    }
    assert(0 * unit_seconds(unit)->0 == 0) by (nonlinear_arith);
}

/// The span that `text` writes as a whole number and a unit, in seconds.
pub fn parse_span(text: &str) -> (r: Option<i64>)
    ensures
        match r {
            Some(span) => relative_span(text@) == Some(span as int) && 0 <= span <= MAX_SPAN,
            None => relative_span(text@) is None,
        },
{
    let v = chars_of(text);
    if v.len() == 0 {
        return None;
    }
    let last: usize = v.len() - 1;
    let unit: i64 = match v[last] {
        'm' => 60,
        'h' => 3_600,
        'd' => 86_400,
        'w' => 604_800,
        _ => 0,
    };
    if unit == 0 {
        return None;
    }
    proof {
        assert(v@.subrange(0, last as int) == text@.drop_last());
    }
    match parse_whole(text_between(&v, 0, last).as_str()) {
        Some(n) => {
            if n < 0 {
                return None;
            }
            let most: i64 = MAX_SPAN / unit;
            proof {
                assert(n <= MAX_SPAN as int / unit as int <==> n * unit <= MAX_SPAN)
                    by (nonlinear_arith)
                    requires
                        n >= 0,
                        unit > 0,
                        MAX_SPAN >= 0,
                ;
            }
            if n <= most {
                Some(n * unit)
            } else {
                None
            }
        },
        None => None,
    }
}

/// Picks the meaning of a trimmed `--since` value: the instant that it writes, else the day, else
/// the span before `now`.
pub fn resolve_since(
    value: &str,
    instant: Option<Timestamp>,
    day: Option<Timestamp>,
    now: Timestamp,
) -> (r: Result<Timestamp, SinceParseError>)
    ensures
        ({
            let meant = first_reading(
                crate::model::opt_view(instant),
                crate::model::opt_view(day),
                relative_instant(value@, now@),
            );
            match r {
                Ok(at) => meant == Some(at@),
                Err(e) => meant is None && e@ == value@,
            }
        }),
{
    if let Some(at) = instant {
        return Ok(at);
    }
    if let Some(at) = day {
        return Ok(at);
    }
    if let Some(span) = parse_span(value) {
        if let Some(at) = checked_sub(now, span) {
            return Ok(at);
        }
    }
    Err(SinceParseError { value: value.to_owned() })
}

/// What a `--since` value means: an RFC 3339 instant, a day in UTC, or a span before `now`. A value
/// that ends with a unit is a span and nothing else.
pub fn parse_since(value: &str, now: Timestamp) -> (r: Result<Timestamp, SinceParseError>)
    ensures
        match r {
            Ok(at) => since_instant(value@, now@) == Some(at@),
            Err(e) => since_instant(value@, now@) is None && e@ == trimmed(value@),
        },
        trimmed(value@).len() > 0 && unit_seconds(trimmed(value@).last()) is Some ==> match r {
            Ok(at) => relative_instant(trimmed(value@), now@) == Some(at@),
            Err(_) => relative_instant(trimmed(value@), now@) is None,
        },
{
    let value = trim(value);
    let instant = parse_rfc3339(value.as_str());
    let day = parse_day(value.as_str(), DAY_PATTERN);
    resolve_since(value.as_str(), instant, day, now)
}

} // verus!
