//! Parsing of human time expressions into absolute instants, of reminder
//! intervals into minutes, and of priority names.
//!
//! A due expression is tried as a relative form (`"<n>h"`, `"<n>d"`,
//! `"<n>w"`) first, then as an absolute form: a full timestamp with an
//! explicit offset, a date (due at that day's last second, UTC), a date
//! and minute, or a minute of today's UTC date. The suffix forms take
//! priority so that an expression such as `"1w"` is never misread as a
//! malformed absolute date. Calendar arithmetic itself is chrono's work,
//! reached through the trusted items below.

use crate::models::{Priority, TodoError};
use crate::text;
use vstd::prelude::*;
use vstd::string::StrSliceExecFns;
use chrono::Timelike;

verus! {

/// The instant a full timestamp with explicit offset denotes, in seconds
/// since the Unix epoch, or nothing when the string is not one.
pub uninterp spec fn rfc3339_instant(s: Seq<char>) -> Option<i64>;

/// Relies on chrono's `DateTime::parse_from_rfc3339` and
/// `DateTime::timestamp`: both are functions of the characters alone, and
/// the timestamp counts the parsed instant's seconds since the Unix
/// epoch, so the explicit offset is already folded in.
#[verifier::external_body]
fn parse_rfc3339_utc(s: &str) -> (r: Option<i64>)
    ensures
        r == rfc3339_instant(s@),
{
    match chrono::DateTime::parse_from_rfc3339(s) {
        Ok(dt) => Some(dt.timestamp()),
        Err(_) => None,
    }
}

/// The midnight instant of the date a `YYYY-MM-DD` string denotes, in
/// seconds since the Unix epoch, or nothing when the string is not one.
pub uninterp spec fn ymd_midnight(s: Seq<char>) -> Option<i64>;

/// Relies on chrono's `NaiveDate::parse_from_str` with format
/// `"%Y-%m-%d"`, `NaiveDate::and_hms_opt(0, 0, 0)` and
/// `DateTime::timestamp`, all functions of the characters alone. chrono
/// dates span years -262144 to 262142, under 96,000,000 days on either
/// side of the epoch, so the midnight timestamp stays below 10^13 in
/// magnitude.
#[verifier::external_body]
fn parse_ymd_midnight(s: &str) -> (r: Option<i64>)
    ensures
        r == ymd_midnight(s@),
        r matches Some(t) ==> -10_000_000_000_000 < t < 10_000_000_000_000,
{
    match chrono::NaiveDate::parse_from_str(s, "%Y-%m-%d") {
        Ok(d) => match d.and_hms_opt(0, 0, 0) {
            Some(dt) => Some(dt.and_utc().timestamp()),
            None => None,
        },
        Err(_) => None,
    }
}

/// The instant a `YYYY-MM-DD HH:MM` string denotes, read as UTC, in
/// seconds since the Unix epoch, or nothing when the string is not one.
pub uninterp spec fn ymd_hm_instant(s: Seq<char>) -> Option<i64>;

/// Relies on chrono's `NaiveDateTime::parse_from_str` with format
/// `"%Y-%m-%d %H:%M"` and `DateTime::timestamp`, both functions of the
/// characters alone.
#[verifier::external_body]
fn parse_ymd_hm_instant(s: &str) -> (r: Option<i64>)
    ensures
        r == ymd_hm_instant(s@),
{
    match chrono::NaiveDateTime::parse_from_str(s, "%Y-%m-%d %H:%M") {
        Ok(dt) => Some(dt.and_utc().timestamp()),
        Err(_) => None,
    }
}

/// The second of day an `HH:MM` string denotes, or nothing when the
/// string is not one.
pub uninterp spec fn hm_seconds(s: Seq<char>) -> Option<u32>;

/// Relies on chrono's `NaiveTime::parse_from_str` with format `"%H:%M"`
/// and `Timelike::num_seconds_from_midnight`, both functions of the
/// characters alone; the hour parses below 24 and the minute below 60, so
/// the count stays below 86400.
#[verifier::external_body]
fn parse_hm_of_day(s: &str) -> (r: Option<u32>)
    ensures
        r == hm_seconds(s@),
        r matches Some(x) ==> x < 86400,
{
    match chrono::NaiveTime::parse_from_str(s, "%H:%M") {
        Ok(t) => Some(t.num_seconds_from_midnight()),
        Err(_) => None,
    }
}

/// Seconds in one unit of a relative due expression.
pub open spec fn relative_unit(c: char) -> int {
    if c == 'h' {
        3600
    } else if c == 'd' {
        86400
    } else if c == 'w' {
        604800
    } else {
        0
    }
}

/// A relative due expression offsets `now` by a signed count of units;
/// a count that does not read as an integer, or an instant that falls
/// outside the representable range, fails.
pub open spec fn spec_parse_relative(digits: Seq<char>, now: i64, unit: int) -> Result<
    Option<i64>,
    TodoError,
> {
    match text::spec_parse_i64(digits) {
        Some(v) => {
            let t = now + v * unit;
            if i64::MIN <= t <= i64::MAX {
                Ok(Some(t as i64))
            } else {
                Err(TodoError::InvalidTimeFormat)
            }
        },
        None => Err(TodoError::InvalidTimeFormat),
    }
}

/// The midnight instant of `now`'s UTC day.
pub open spec fn day_start(now: i64) -> int {
    now - (now as int) % 86400
}

/// What parsing a due expression at instant `now` yields.
pub open spec fn spec_parse_due(s: Seq<char>, now: i64) -> Result<Option<i64>, TodoError> {
    if s.len() == 0 {
        Ok(None)
    } else if s.last() == 'h' || s.last() == 'd' || s.last() == 'w' {
        spec_parse_relative(s.drop_last(), now, relative_unit(s.last()))
    } else if rfc3339_instant(s) is Some {
        Ok(Some(rfc3339_instant(s)->0))
    } else if ymd_midnight(s) is Some {
        let t = ymd_midnight(s)->0 + 86399;
        if i64::MIN <= t <= i64::MAX {
            Ok(Some(t as i64))
        } else {
            Err(TodoError::InvalidTimeFormat)
        }
    } else if ymd_hm_instant(s) is Some {
        Ok(Some(ymd_hm_instant(s)->0))
    } else if hm_seconds(s) is Some {
        let t = day_start(now) + hm_seconds(s)->0;
        if i64::MIN <= t <= i64::MAX {
            Ok(Some(t as i64))
        } else {
            Err(TodoError::InvalidTimeFormat)
        }
    } else {
        Err(TodoError::InvalidTimeFormat)
    }
}

/// Parses a due expression against the instant `now`: an empty
/// expression means no due date, a recognized one yields its instant,
/// and any other non-empty expression fails with
/// [`TodoError::InvalidTimeFormat`].
pub fn parse_due_time(s: &str, now: i64) -> (r: Result<Option<i64>, TodoError>)
    ensures
        r == spec_parse_due(s@, now),
{
    let n = s.unicode_len();
    if n == 0 {
        return Ok(None);
    }
    let lastc = s.get_char(n - 1);
    if lastc == 'h' || lastc == 'd' || lastc == 'w' {
        let unit: i64 = if lastc == 'h' {
            3600
        } else if lastc == 'd' {
            86400
        } else {
            604800
        };
        proof {
            assert(s@.drop_last() =~= s@.subrange(0, n - 1));
        }
        match text::parse_i64_range(s, 0, n - 1) {
            Some(v) => {
                proof {
                    assert((v as int) * (unit as int) <= 604800 * 0x7fff_ffff_ffff_ffffi128
                        && (v as int) * (unit as int) >= 604800 * -0x8000_0000_0000_0000i128)
                        by (nonlinear_arith)
                        requires
                            -0x8000_0000_0000_0000i128 <= v as int <= 0x7fff_ffff_ffff_ffffi128,
                            0 < unit as int <= 604800,
                    ;
                }
                let t: i128 = now as i128 + v as i128 * unit as i128;
                if i64::MIN as i128 <= t && t <= i64::MAX as i128 {
                    Ok(Some(t as i64))
                } else {
                    Err(TodoError::InvalidTimeFormat)
                }
            },
            None => Err(TodoError::InvalidTimeFormat),
        }
    } else if let Some(ts) = parse_rfc3339_utc(s) {
        Ok(Some(ts))
    } else if let Some(mid) = parse_ymd_midnight(s) {
        Ok(Some(mid + 86399))
    } else if let Some(ts) = parse_ymd_hm_instant(s) {
        Ok(Some(ts))
    } else if let Some(secs) = parse_hm_of_day(s) {
        let m: i64 = now % 86400;
        let e: i64 = if m < 0 {
            m + 86400
        } else {
            m
        };
        assert(e == (now as int) % 86400);
        let t: i128 = now as i128 - e as i128 + secs as i128;
        if i64::MIN as i128 <= t && t <= i64::MAX as i128 {
            Ok(Some(t as i64))
        } else {
            Err(TodoError::InvalidTimeFormat)
        }
    } else {
        Err(TodoError::InvalidTimeFormat)
    }
}

/// For every valid relative due expression — an integer followed by one
/// of the suffixes `'h'`, `'d'` or `'w'` — whose instant is
/// representable, parsing yields exactly `now` plus that count of hours,
/// days or weeks.
pub proof fn lemma_parse_due_relative(s: Seq<char>, now: i64, v: i64)
    requires
        s.len() > 0,
        s.last() == 'h' || s.last() == 'd' || s.last() == 'w',
        text::spec_parse_i64(s.drop_last()) == Some(v),
        i64::MIN <= now + v * relative_unit(s.last()) <= i64::MAX,
    ensures
        spec_parse_due(s, now) == Ok::<Option<i64>, TodoError>(
            Some((now + v * relative_unit(s.last())) as i64),
        ),
{
}

/// What parsing an interval expression yields: a count of minutes, given
/// directly, in minutes (`m` suffix) or in hours (`h` suffix), ASCII
/// whitespace around it ignored.
pub open spec fn spec_parse_interval(s: Seq<char>) -> Result<u32, TodoError> {
    let t = text::trim_spec(s);
    if t.len() > 0 && (t.last() == 'h' || t.last() == 'H') {
        match text::spec_parse_u32(t.drop_last()) {
            Some(h) => if h * 60 <= u32::MAX {
                Ok((h * 60) as u32)
            } else {
                Err(TodoError::InvalidIntervalFormat)
            },
            None => Err(TodoError::InvalidIntervalFormat),
        }
    } else if t.len() > 0 && (t.last() == 'm' || t.last() == 'M') {
        match text::spec_parse_u32(t.drop_last()) {
            Some(m) => Ok(m),
            None => Err(TodoError::InvalidIntervalFormat),
        }
    } else {
        match text::spec_parse_u32(t) {
            Some(m) => Ok(m),
            None => Err(TodoError::InvalidIntervalFormat),
        }
    }
}

/// Parses a reminder interval into minutes; anything that does not read
/// as a count fails with [`TodoError::InvalidIntervalFormat`].
pub fn parse_interval(s: &str) -> (r: Result<u32, TodoError>)
    ensures
        r == spec_parse_interval(s@),
{
    let bounds = text::trim_bounds(s);
    let lo = bounds.0;
    let hi = bounds.1;
    let ghost t = text::trim_spec(s@);
    if hi > lo {
        let lastc = s.get_char(hi - 1);
        proof {
            assert(t.drop_last() =~= s@.subrange(lo as int, hi - 1));
        }
        if lastc == 'h' || lastc == 'H' {
            match text::parse_u32_range(s, lo, hi - 1) {
                Some(h) => if h <= u32::MAX / 60 {
                    Ok(h * 60)
                } else {
                    Err(TodoError::InvalidIntervalFormat)
                },
                None => Err(TodoError::InvalidIntervalFormat),
            }
        } else if lastc == 'm' || lastc == 'M' {
            match text::parse_u32_range(s, lo, hi - 1) {
                Some(m) => Ok(m),
                None => Err(TodoError::InvalidIntervalFormat),
            }
        } else {
            match text::parse_u32_range(s, lo, hi) {
                Some(m) => Ok(m),
                None => Err(TodoError::InvalidIntervalFormat),
            }
        }
    } else {
        proof {
            assert(t.len() == 0);
        }
        match text::parse_u32_range(s, lo, hi) {
            Some(m) => Ok(m),
            None => Err(TodoError::InvalidIntervalFormat),
        }
    }
}

/// The priority a name denotes, matched ignoring ASCII case; any
/// unrecognized name means the middle priority.
pub open spec fn spec_parse_priority(s: Seq<char>) -> Priority {
    if text::chars_eq_ic(s, "low"@) {
        Priority::Low
    } else if text::chars_eq_ic(s, "high"@) {
        Priority::High
    } else if text::chars_eq_ic(s, "critical"@) {
        Priority::Critical
    } else {
        Priority::Medium
    }
}

/// Parses a priority name, ignoring ASCII case; unrecognized names fall
/// back to [`Priority::Medium`].
pub fn parse_priority(s: &str) -> (r: Priority)
    ensures
        r == spec_parse_priority(s@),
{
    if text::str_eq_ignore_case(s, "low") {
        Priority::Low
    } else if text::str_eq_ignore_case(s, "high") {
        Priority::High
    } else if text::str_eq_ignore_case(s, "critical") {
        Priority::Critical
    } else {
        Priority::Medium
    }
}

} // verus!

