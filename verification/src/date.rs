//! The human-phrased datetime parser.
//!
//! `parse_human_datetime` turns a phrase such as "in a few hours",
//! "tomorrow at 1800", "on wed" or "on 2017-12-04 at 10:00" into an absolute
//! instant relative to a supplied reference instant `now`. Its behaviour is
//! the spec function `spec_parse`, which works over the normalized phrase
//! (trimmed, ASCII case folded).
//!
//! Matching tries ordered clauses. Three exact phrases ("next week",
//! "tomorrow", "day after tomorrow") resolve directly to a morning. Otherwise
//! a base date comes from the first of: a relative "in <count> <unit>" clause
//! anchored at the start; a "tomorrow"/"day after tomorrow" prefix; the
//! leftmost weekday name; the leftmost `YYYY-MM-DD` date. An optional
//! at-clause (`at HH:MM`, `at HHMM`, or `at H am|pm`) then refines the time
//! of day, and a result that still lies before `now` is pushed one day ahead.

use vstd::prelude::*;

use vstd::arithmetic::div_mod::{lemma_div_is_ordered, lemma_fundamental_div_mod_converse};

use crate::calendar::{
    days_before_month, days_before_year, days_in_month, dt_of, seconds_limit, DateTime, MAX_YEAR,
    SECONDS_PER_DAY,
};
use crate::calendar::{
    lemma_dt_of_in_range, lemma_dt_of_total_seconds, lemma_total_seconds_in_day,
};
use crate::text::{
    digits_end, digits_value, digit_val, is_digit, matches_at, normalize, skip_spaces,
};
use crate::text::{
    chars_vec, digits_end_x, digits_value_capped, is_digit_x, matches_at_x, normalize_x,
    skip_spaces_x,
};

verus! {

/// The phrase did not denote an instant: no clause matched, or a matched
/// clause held an out-of-range component.
#[derive(Clone, Copy, PartialEq, Eq, Structural, Debug)]
pub struct ParseError;

/// The units the relative clause accepts.
#[derive(Clone, Copy, PartialEq, Eq, Structural, Debug)]
pub enum TimeUnit {
    Seconds,
    Minutes,
    Hours,
    Days,
    Weeks,
    Months,
    Years,
}

/// Seconds in one unit; a month counts as 30 days and a year as 365.
pub open spec fn unit_seconds(u: TimeUnit) -> int {
    match u {
        TimeUnit::Seconds => 1,
        TimeUnit::Minutes => 60,
        TimeUnit::Hours => 3600,
        TimeUnit::Days => 86400,
        TimeUnit::Weeks => 604800,
        TimeUnit::Months => 2592000,
        TimeUnit::Years => 31536000,
    }
}

fn unit_seconds_x(u: TimeUnit) -> (r: u64)
    ensures
        r == unit_seconds(u),
{
    match u {
        TimeUnit::Seconds => 1,
        TimeUnit::Minutes => 60,
        TimeUnit::Hours => 3600,
        TimeUnit::Days => 86400,
        TimeUnit::Weeks => 604800,
        TimeUnit::Months => 2592000,
        TimeUnit::Years => 31536000,
    }
}

/// The same date at 09:30:00, the grammar's default morning.
pub open spec fn spec_morning(d: DateTime) -> DateTime {
    DateTime { hour: 9, minute: 30, second: 0, ..d }
}

/// `now` plus `k` days, or failure past the calendar's end.
pub open spec fn spec_add_days(now: DateTime, k: int) -> Result<DateTime, ParseError> {
    let t = now.total_seconds() + k * (SECONDS_PER_DAY as int);
    if t < seconds_limit() {
        Ok(dt_of(t))
    } else {
        Err(ParseError)
    }
}

/// `now` plus `k` days, at the default morning.
pub open spec fn spec_add_days_morning(now: DateTime, k: int) -> Result<DateTime, ParseError> {
    match spec_add_days(now, k) {
        Ok(d) => Ok(spec_morning(d)),
        Err(e) => Err(e),
    }
}

/// The count of a relative clause at position `i`, doubled so that "half"
/// stays integral: `Some((twice the count, position after it))`.
pub open spec fn count_match(s: Seq<char>, i: int) -> Option<(int, int)> {
    if matches_at(s, i, "half an"@) {
        Some((1, i + "half an"@.len()))
    } else if matches_at(s, i, "half a"@) {
        Some((1, i + "half a"@.len()))
    } else if matches_at(s, i, "a couple of"@) {
        Some((4, i + "a couple of"@.len()))
    } else if matches_at(s, i, "a few"@) {
        Some((6, i + "a few"@.len()))
    } else if 0 <= i < s.len() && is_digit(s[i]) {
        Some((2 * digits_value(s, i, digits_end(s, i)), digits_end(s, i)))
    } else {
        None
    }
}

pub open spec fn is_lower_letter(c: char) -> bool {
    'a' <= c && c <= 'z'
}

/// End of the run of lowercase letters that starts at `i`.
pub open spec fn letters_end(s: Seq<char>, i: int) -> int
    decreases s.len() - i,
{
    if 0 <= i < s.len() && is_lower_letter(s[i]) {
        letters_end(s, i + 1)
    } else {
        i
    }
}

/// The unit word at position `i`: the maximal run of letters there, matched
/// against the unit names and their abbreviations, singular or plural.
pub open spec fn unit_match(s: Seq<char>, i: int) -> Option<TimeUnit> {
    let j = letters_end(s, i);
    let w = s.subrange(i, j);
    if i < j {
        if w == "s"@ || w == "second"@ || w == "seconds"@ {
            Some(TimeUnit::Seconds)
        } else if w == "m"@ || w == "minute"@ || w == "minutes"@ {
            Some(TimeUnit::Minutes)
        } else if w == "h"@ || w == "hour"@ || w == "hours"@ {
            Some(TimeUnit::Hours)
        } else if w == "d"@ || w == "day"@ || w == "days"@ {
            Some(TimeUnit::Days)
        } else if w == "w"@ || w == "week"@ || w == "weeks"@ {
            Some(TimeUnit::Weeks)
        } else if w == "month"@ || w == "months"@ {
            Some(TimeUnit::Months)
        } else if w == "year"@ || w == "years"@ {
            Some(TimeUnit::Years)
        } else {
            None
        }
    } else {
        None
    }
}

/// The relative clause, anchored at the start: `in <count> <unit>`, with
/// flexible whitespace. Yields twice the count, and the unit.
pub open spec fn in_match(s: Seq<char>) -> Option<(int, TimeUnit)> {
    if matches_at(s, 0, "in"@) {
        let i = skip_spaces(s, "in"@.len() as int);
        match count_match(s, i) {
            None => None,
            Some((c2, j)) => {
                let k = skip_spaces(s, j);
                match unit_match(s, k) {
                    None => None,
                    Some(u) => Some((c2, u)),
                }
            },
        }
    } else {
        None
    }
}

/// The instant a matched relative clause denotes. A count over ten million
/// fails. The count times the unit's seconds is added to `now`; for a whole
/// count of months the day of month is then set back to `now`'s (the 30-day
/// months drift), and for a whole count of years the year alone advances.
/// A result more than 48 hours away snaps to the default morning.
pub open spec fn spec_in_result(now: DateTime, c2: int, u: TimeUnit) -> Result<
    DateTime,
    ParseError,
> {
    if c2 > 20_000_000 {
        Err(ParseError)
    } else {
        let t0 = now.total_seconds() + unit_seconds(u) * c2 / 2;
        if t0 >= seconds_limit() {
            Err(ParseError)
        } else {
            let d0 = dt_of(t0);
            let fixed: Result<DateTime, ParseError> = if c2 >= 2 && u == TimeUnit::Months {
                if now.day <= days_in_month(d0.year as int, d0.month as int) {
                    Ok(DateTime { day: now.day, ..d0 })
                } else {
                    Err(ParseError)
                }
            } else if c2 >= 2 && u == TimeUnit::Years {
                let y = now.year + c2 / 2;
                if y <= MAX_YEAR && now.day <= days_in_month(y, now.month as int) {
                    Ok(DateTime { year: y as u32, ..now })
                } else {
                    Err(ParseError)
                }
            } else {
                Ok(d0)
            };
            match fixed {
                Err(e) => Err(e),
                Ok(d1) => {
                    if d1.total_seconds() > now.total_seconds() + 48 * 3600 {
                        Ok(spec_morning(d1))
                    } else {
                        Ok(d1)
                    }
                },
            }
        }
    }
}

/// The "tomorrow" / "day after tomorrow" prefixes: days to add.
pub open spec fn special_match(s: Seq<char>) -> Option<int> {
    if matches_at(s, 0, "tomorrow"@) {
        Some(1)
    } else if matches_at(s, 0, "day after tomorrow"@) {
        Some(2)
    } else {
        None
    }
}

/// The weekday name at position `i`, as days from Monday. Each name is
/// recognized by its first three letters; longer forms begin with them.
pub open spec fn weekday_at(s: Seq<char>, i: int) -> Option<int> {
    if matches_at(s, i, "mon"@) {
        Some(0)
    } else if matches_at(s, i, "tue"@) {
        Some(1)
    } else if matches_at(s, i, "wed"@) {
        Some(2)
    } else if matches_at(s, i, "thu"@) {
        Some(3)
    } else if matches_at(s, i, "fri"@) {
        Some(4)
    } else if matches_at(s, i, "sat"@) {
        Some(5)
    } else if matches_at(s, i, "sun"@) {
        Some(6)
    } else {
        None
    }
}

/// The leftmost weekday name at or after `i`.
pub open spec fn find_weekday(s: Seq<char>, i: int) -> Option<int>
    decreases s.len() - i,
{
    if i >= s.len() || i < 0 {
        None
    } else if weekday_at(s, i) is Some {
        weekday_at(s, i)
    } else {
        find_weekday(s, i + 1)
    }
}

/// The instant a matched weekday denotes: that weekday in `now`'s week
/// keeping the time of day, pushed a week ahead if already past, then the
/// default morning.
pub open spec fn spec_weekday_result(now: DateTime, wd: int) -> Result<DateTime, ParseError> {
    let base = now.total_seconds() + (wd - now.day_index() % 7) * (SECONDS_PER_DAY as int);
    let base2 = if base < now.total_seconds() {
        base + 7 * (SECONDS_PER_DAY as int)
    } else {
        base
    };
    if base2 < seconds_limit() {
        Ok(spec_morning(dt_of(base2)))
    } else {
        Err(ParseError)
    }
}

/// The `YYYY-MM-DD` pattern at position `i`.
pub open spec fn date_at(s: Seq<char>, i: int) -> Option<(int, int, int)> {
    if 0 <= i && i + 10 <= s.len() && is_digit(s[i]) && is_digit(s[i + 1]) && is_digit(s[i + 2])
        && is_digit(s[i + 3]) && s[i + 4] == '-' && is_digit(s[i + 5]) && is_digit(s[i + 6]) && s[i
        + 7] == '-' && is_digit(s[i + 8]) && is_digit(s[i + 9]) {
        Some(
            (
                digits_value(s, i, i + 4),
                digits_value(s, i + 5, i + 7),
                digits_value(s, i + 8, i + 10),
            ),
        )
    } else {
        None
    }
}

/// The leftmost `YYYY-MM-DD` at or after `i`.
pub open spec fn find_date(s: Seq<char>, i: int) -> Option<(int, int, int)>
    decreases s.len() - i,
{
    if i >= s.len() || i < 0 {
        None
    } else if date_at(s, i) is Some {
        date_at(s, i)
    } else {
        find_date(s, i + 1)
    }
}

/// The instant a matched absolute date denotes: that date at the default
/// morning; a year, month or day outside the calendar fails.
pub open spec fn spec_date_result(y: int, m: int, d: int) -> Result<DateTime, ParseError> {
    if 1 <= y <= MAX_YEAR && 1 <= m <= 12 && 1 <= d <= days_in_month(y, m) {
        Ok(
            DateTime {
                year: y as u32,
                month: m as u32,
                day: d as u32,
                hour: 9,
                minute: 30,
                second: 0,
            },
        )
    } else {
        Err(ParseError)
    }
}

pub open spec fn two_digits(s: Seq<char>, j: int) -> bool {
    0 <= j && j + 2 <= s.len() && is_digit(s[j]) && is_digit(s[j + 1])
}

pub open spec fn two_digits_value(s: Seq<char>, j: int) -> int {
    digit_val(s[j]) * 10 + digit_val(s[j + 1])
}

/// The `(\d\d?):?(\d\d)` time pattern at position `j`: a one or two digit
/// hour, an optional colon, and exactly two minute digits, preferring the
/// two-digit hour and the colon, as a backtracking matcher would.
pub open spec fn time_digits_at(s: Seq<char>, j: int) -> Option<(int, int)> {
    if two_digits(s, j) && j + 2 < s.len() && s[j + 2] == ':' && two_digits(s, j + 3) {
        Some((two_digits_value(s, j), two_digits_value(s, j + 3)))
    } else if two_digits(s, j) && two_digits(s, j + 2) {
        Some((two_digits_value(s, j), two_digits_value(s, j + 2)))
    } else if 0 <= j < s.len() && is_digit(s[j]) {
        if j + 1 < s.len() && s[j + 1] == ':' && two_digits(s, j + 2) {
            Some((digit_val(s[j]), two_digits_value(s, j + 2)))
        } else if two_digits(s, j + 1) {
            Some((digit_val(s[j]), two_digits_value(s, j + 1)))
        } else {
            None
        }
    } else {
        None
    }
}

/// The `at HH:MM` / `at HHMM` clause at position `i`.
pub open spec fn at_time_at(s: Seq<char>, i: int) -> Option<(int, int)> {
    if matches_at(s, i, "at "@) {
        time_digits_at(s, i + "at "@.len())
    } else {
        None
    }
}

/// The leftmost `at HH:MM` / `at HHMM` clause at or after `i`.
pub open spec fn find_at_time(s: Seq<char>, i: int) -> Option<(int, int)>
    decreases s.len() - i,
{
    if i >= s.len() || i < 0 {
        None
    } else if at_time_at(s, i) is Some {
        at_time_at(s, i)
    } else {
        find_at_time(s, i + 1)
    }
}

/// The `at H am|pm` clause at position `i`: digits, flexible whitespace,
/// then the meridiem. Yields the digits' value and whether it said "pm".
pub open spec fn at_pm_at(s: Seq<char>, i: int) -> Option<(int, bool)> {
    if matches_at(s, i, "at "@) {
        let j = i + "at "@.len();
        let e = digits_end(s, j);
        if e > j {
            let k = skip_spaces(s, e);
            if matches_at(s, k, "am"@) {
                Some((digits_value(s, j, e), false))
            } else if matches_at(s, k, "pm"@) {
                Some((digits_value(s, j, e), true))
            } else {
                None
            }
        } else {
            None
        }
    } else {
        None
    }
}

/// The leftmost `at H am|pm` clause at or after `i`.
pub open spec fn find_at_pm(s: Seq<char>, i: int) -> Option<(int, bool)>
    decreases s.len() - i,
{
    if i >= s.len() || i < 0 {
        None
    } else if at_pm_at(s, i) is Some {
        at_pm_at(s, i)
    } else {
        find_at_pm(s, i + 1)
    }
}

/// Refines a base date by the phrase's at-clause, then pushes a result that
/// lies strictly before `now` one day ahead. `at HH:MM`/`at HHMM` sets the
/// hour and minute and zeroes the second; `at H am|pm` sets the hour alone;
/// an out-of-range hour or minute fails.
pub open spec fn spec_at_clause(s: Seq<char>, now: DateTime, base: DateTime) -> Result<
    DateTime,
    ParseError,
> {
    let staged: Result<DateTime, ParseError> = match find_at_time(s, 0) {
        Some((h, mi)) => {
            if h <= 23 && mi <= 59 {
                Ok(DateTime { hour: h as u32, minute: mi as u32, second: 0, ..base })
            } else {
                Err(ParseError)
            }
        },
        None => {
            match find_at_pm(s, 0) {
                Some((h, pm)) => {
                    let h2 = if pm {
                        h + 12
                    } else {
                        h
                    };
                    if h2 <= 23 {
                        Ok(DateTime { hour: h2 as u32, ..base })
                    } else {
                        Err(ParseError)
                    }
                },
                None => Ok(base),
            }
        },
    };
    match staged {
        Err(e) => Err(e),
        Ok(d) => {
            if d.total_seconds() < now.total_seconds() {
                if d.total_seconds() + SECONDS_PER_DAY < seconds_limit() {
                    Ok(dt_of(d.total_seconds() + SECONDS_PER_DAY))
                } else {
                    Err(ParseError)
                }
            } else {
                Ok(d)
            }
        },
    }
}

/// The base-date clause of the normalized phrase `s`, before the at-clause.
pub open spec fn spec_base(s: Seq<char>, now: DateTime) -> Result<DateTime, ParseError> {
    match in_match(s) {
        Some((c2, u)) => spec_in_result(now, c2, u),
        None => match special_match(s) {
            Some(k) => spec_add_days(now, k),
            None => match find_weekday(s, 0) {
                Some(wd) => spec_weekday_result(now, wd),
                None => match find_date(s, 0) {
                    Some((y, m, d)) => spec_date_result(y, m, d),
                    None => Err(ParseError),
                },
            },
        },
    }
}

fn letters_end_x(s: &Vec<char>, i: usize) -> (r: usize)
    requires
        i <= s@.len(),
    ensures
        r == letters_end(s@, i as int),
        i <= r <= s@.len(),
{
    let n: usize = s.len();
    let mut k: usize = i;
    while k < n && 'a' <= s[k] && s[k] <= 'z'
        invariant
            i <= k <= n,
            n == s@.len(),
            letters_end(s@, i as int) == letters_end(s@, k as int),
        decreases n - k,
    {
        k = k + 1;
    }
    k
}

/// Whether the word `s[i..j]` is exactly `pat`.
fn word_is(s: &Vec<char>, i: usize, j: usize, pat: &str) -> (r: bool)
    requires
        i <= j <= s@.len(),
    ensures
        r == (s@.subrange(i as int, j as int) == pat@),
{
    let pn: usize = pat.unicode_len();
    if j - i != pn {
        return false;
    }
    let r = matches_at_x(s, i, pat);
    proof {
        if r {
            assert(s@.subrange(i as int, i + pat@.len()) =~= s@.subrange(i as int, j as int));
        } else {
            if s@.subrange(i as int, j as int) == pat@ {
                assert(matches_at(s@, i as int, pat@));
            }
        }
    }
    r
}

/// Whether the whole of `s` is exactly `pat`.
fn whole_is(s: &Vec<char>, pat: &str) -> (r: bool)
    ensures
        r == (s@ == pat@),
{
    let n: usize = s.len();
    let r = word_is(s, 0, n, pat);
    proof {
        assert(s@.subrange(0, n as int) =~= s@);
    }
    r
}

/// Reads the count of a relative clause at `i`, doubled. A decimal count is
/// saturated just above the grammar's ceiling: the first result equals twice
/// the count where the count is at most ten million, and exceeds twenty
/// million where it is larger.
fn count_match_x(s: &Vec<char>, i: usize) -> (r: Option<(u64, usize)>)
    requires
        i <= s@.len(),
    ensures
        r is Some <==> count_match(s@, i as int) is Some,
        r is Some ==> {
            let (c2, j) = count_match(s@, i as int).unwrap();
            &&& r.unwrap().1 == j
            &&& j <= s@.len()
            &&& c2 <= 20_000_000 ==> r.unwrap().0 == c2
            &&& c2 > 20_000_000 ==> r.unwrap().0 == 20_000_002
        },
{
    let n: usize = s.len();
    if matches_at_x(s, i, "half an") {
        Some((1, i + "half an".unicode_len()))
    } else if matches_at_x(s, i, "half a") {
        Some((1, i + "half a".unicode_len()))
    } else if matches_at_x(s, i, "a couple of") {
        Some((4, i + "a couple of".unicode_len()))
    } else if matches_at_x(s, i, "a few") {
        Some((6, i + "a few".unicode_len()))
    } else if i < n && is_digit_x(s[i]) {
        let e: usize = digits_end_x(s, i);
        let v: u64 = digits_value_capped(s, i, e, 10_000_000);
        Some((2 * v, e))
    } else {
        None
    }
}

fn unit_match_x(s: &Vec<char>, i: usize) -> (r: Option<TimeUnit>)
    requires
        i <= s@.len(),
    ensures
        r == unit_match(s@, i as int),
{
    let j: usize = letters_end_x(s, i);
    if j <= i {
        return None;
    }
    if word_is(s, i, j, "s") || word_is(s, i, j, "second") || word_is(s, i, j, "seconds") {
        Some(TimeUnit::Seconds)
    } else if word_is(s, i, j, "m") || word_is(s, i, j, "minute") || word_is(s, i, j, "minutes") {
        Some(TimeUnit::Minutes)
    } else if word_is(s, i, j, "h") || word_is(s, i, j, "hour") || word_is(s, i, j, "hours") {
        Some(TimeUnit::Hours)
    } else if word_is(s, i, j, "d") || word_is(s, i, j, "day") || word_is(s, i, j, "days") {
        Some(TimeUnit::Days)
    } else if word_is(s, i, j, "w") || word_is(s, i, j, "week") || word_is(s, i, j, "weeks") {
        Some(TimeUnit::Weeks)
    } else if word_is(s, i, j, "month") || word_is(s, i, j, "months") {
        Some(TimeUnit::Months)
    } else if word_is(s, i, j, "year") || word_is(s, i, j, "years") {
        Some(TimeUnit::Years)
    } else {
        None
    }
}

fn in_match_x(s: &Vec<char>) -> (r: Option<(u64, TimeUnit)>)
    ensures
        r is Some <==> in_match(s@) is Some,
        r is Some ==> {
            let (c2, u) = in_match(s@).unwrap();
            &&& r.unwrap().1 == u
            &&& c2 <= 20_000_000 ==> r.unwrap().0 == c2
            &&& c2 > 20_000_000 ==> r.unwrap().0 == 20_000_002
        },
{
    if !matches_at_x(s, 0, "in") {
        return None;
    }
    let i: usize = skip_spaces_x(s, "in".unicode_len());
    match count_match_x(s, i) {
        None => None,
        Some((c2, j)) => {
            let k: usize = skip_spaces_x(s, j);
            match unit_match_x(s, k) {
                None => None,
                Some(u) => Some((c2, u)),
            }
        },
    }
}

/// The relative clause's instant, for a count the grammar's ceiling admits.
fn in_result_small(now: &DateTime, c2: u64, u: TimeUnit) -> (r: Result<DateTime, ParseError>)
    requires
        now.wf(),
        c2 <= 20_000_000,
    ensures
        r == spec_in_result(*now, c2 as int, u),
        r is Ok ==> r.unwrap().wf(),
{
    let us: u64 = unit_seconds_x(u);
    let secs: u64 = us * c2 / 2;
    proof {
        assert(us * c2 <= 31536000 * 20_000_000) by (nonlinear_arith)
            requires
                us <= 31536000,
                c2 <= 20_000_000,
        ;
    }
    match now.checked_add_seconds(secs) {
        None => Err(ParseError),
        Some(d0) => {
            proof {
                lemma_dt_of_total_seconds(d0);
                lemma_total_seconds_in_day(d0);
            }
            let fixed: Result<DateTime, ParseError> = if c2 >= 2 && matches!(u, TimeUnit::Months) {
                match d0.with_day(now.day) {
                    Some(d) => Ok(d),
                    None => Err(ParseError),
                }
            } else if c2 >= 2 && matches!(u, TimeUnit::Years) {
                let y: u64 = now.year as u64 + c2 / 2;
                if y <= MAX_YEAR as u64 {
                    match now.with_year(y as u32) {
                        Some(d) => Ok(d),
                        None => Err(ParseError),
                    }
                } else {
                    Err(ParseError)
                }
            } else {
                Ok(d0)
            };
            match fixed {
                Err(e) => Err(e),
                Ok(d1) => {
                    let t1: u64 = crate::calendar::total_seconds_x(&d1);
                    let tn: u64 = crate::calendar::total_seconds_x(now);
                    proof {
                        crate::calendar::lemma_seconds_limit_bound();
                    }
                    if t1 > tn + 48 * 3600 {
                        Ok(d1.with_time(9, 30, 0))
                    } else {
                        Ok(d1)
                    }
                },
            }
        },
    }
}

fn special_match_x(s: &Vec<char>) -> (r: Option<u32>)
    ensures
        match special_match(s@) {
            Some(k) => r == Some(k as u32),
            None => r is None,
        },
{
    if matches_at_x(s, 0, "tomorrow") {
        Some(1)
    } else if matches_at_x(s, 0, "day after tomorrow") {
        Some(2)
    } else {
        None
    }
}

fn weekday_at_x(s: &Vec<char>, i: usize) -> (r: Option<u32>)
    ensures
        match weekday_at(s@, i as int) {
            Some(w) => r == Some(w as u32),
            None => r is None,
        },
{
    if matches_at_x(s, i, "mon") {
        Some(0)
    } else if matches_at_x(s, i, "tue") {
        Some(1)
    } else if matches_at_x(s, i, "wed") {
        Some(2)
    } else if matches_at_x(s, i, "thu") {
        Some(3)
    } else if matches_at_x(s, i, "fri") {
        Some(4)
    } else if matches_at_x(s, i, "sat") {
        Some(5)
    } else if matches_at_x(s, i, "sun") {
        Some(6)
    } else {
        None
    }
}

fn find_weekday_x(s: &Vec<char>) -> (r: Option<u32>)
    ensures
        match find_weekday(s@, 0) {
            Some(w) => r == Some(w as u32) && 0 <= w <= 6,
            None => r is None,
        },
{
    let n: usize = s.len();
    let mut i: usize = 0;
    while i < n
        invariant
            0 <= i <= n,
            n == s@.len(),
            find_weekday(s@, 0) == find_weekday(s@, i as int),
        decreases n - i,
    {
        match weekday_at_x(s, i) {
            Some(w) => {
                return Some(w);
            },
            None => {},
        }
        i = i + 1;
    }
    None
}

/// The weekday clause's instant.
fn weekday_result_x(now: &DateTime, wd: u32) -> (r: Result<DateTime, ParseError>)
    requires
        now.wf(),
        wd <= 6,
    ensures
        r == spec_weekday_result(*now, wd as int),
        r is Ok ==> r.unwrap().wf(),
{
    let t: u64 = crate::calendar::total_seconds_x(now);
    let dfm: u32 = now.days_from_monday();
    proof {
        crate::calendar::lemma_seconds_limit_bound();
        lemma_total_seconds_in_day(*now);
        assert(now.day_index() % 7 <= now.day_index()) by (nonlinear_arith)
            requires
                now.day_index() >= 0,
        ;
        assert(now.day_index() * (SECONDS_PER_DAY as int) >= (now.day_index() % 7) * (
        SECONDS_PER_DAY as int)) by (nonlinear_arith)
            requires
                now.day_index() % 7 <= now.day_index(),
        ;
    }
    let base: u64 = t - dfm as u64 * SECONDS_PER_DAY + wd as u64 * SECONDS_PER_DAY;
    let base2: u64 = if base < t {
        base + 7 * SECONDS_PER_DAY
    } else {
        base
    };
    let limit: u64 = crate::calendar::seconds_limit_x();
    if base2 < limit {
        let d = crate::calendar::from_total_seconds(base2);
        proof {
            lemma_dt_of_total_seconds(d);
        }
        Ok(d.with_time(9, 30, 0))
    } else {
        Err(ParseError)
    }
}

fn two_digits_x(s: &Vec<char>, j: usize) -> (r: bool)
    ensures
        r == two_digits(s@, j as int),
{
    let n: usize = s.len();
    j < n && n - j >= 2 && is_digit_x(s[j]) && is_digit_x(s[j + 1])
}

fn two_digits_value_x(s: &Vec<char>, j: usize) -> (r: u32)
    requires
        two_digits(s@, j as int),
    ensures
        r == two_digits_value(s@, j as int),
        r <= 99,
{
    let n: usize = s.len();
    proof {
        assert(j + 2 <= n);
    }
    let a: u64 = crate::text::digit_val_x(s[j]);
    let b: u64 = crate::text::digit_val_x(s[j + 1]);
    (a * 10 + b) as u32
}

fn time_digits_at_x(s: &Vec<char>, j: usize) -> (r: Option<(u32, u32)>)
    requires
        j <= s@.len(),
    ensures
        match time_digits_at(s@, j as int) {
            Some((h, mi)) => r == Some((h as u32, mi as u32)) && 0 <= h <= 99 && 0 <= mi <= 99,
            None => r is None,
        },
{
    let n: usize = s.len();
    if two_digits_x(s, j) && n - j > 2 && s[j + 2] == ':' && two_digits_x(s, j + 3) {
        Some((two_digits_value_x(s, j), two_digits_value_x(s, j + 3)))
    } else if two_digits_x(s, j) && two_digits_x(s, j + 2) {
        Some((two_digits_value_x(s, j), two_digits_value_x(s, j + 2)))
    } else if j < n && is_digit_x(s[j]) {
        if n - j > 1 && s[j + 1] == ':' && two_digits_x(s, j + 2) {
            Some((crate::text::digit_val_x(s[j]) as u32, two_digits_value_x(s, j + 2)))
        } else if two_digits_x(s, j + 1) {
            Some((crate::text::digit_val_x(s[j]) as u32, two_digits_value_x(s, j + 1)))
        } else {
            None
        }
    } else {
        None
    }
}

fn at_time_at_x(s: &Vec<char>, i: usize) -> (r: Option<(u32, u32)>)
    requires
        i <= s@.len(),
    ensures
        match at_time_at(s@, i as int) {
            Some((h, mi)) => r == Some((h as u32, mi as u32)) && 0 <= h <= 99 && 0 <= mi <= 99,
            None => r is None,
        },
{
    if matches_at_x(s, i, "at ") {
        let n: usize = s.len();
        proof {
            assert(i + "at "@.len() <= n);
        }
        time_digits_at_x(s, i + "at ".unicode_len())
    } else {
        None
    }
}

fn find_at_time_x(s: &Vec<char>) -> (r: Option<(u32, u32)>)
    ensures
        match find_at_time(s@, 0) {
            Some((h, mi)) => r == Some((h as u32, mi as u32)) && 0 <= h <= 99 && 0 <= mi <= 99,
            None => r is None,
        },
{
    let n: usize = s.len();
    let mut i: usize = 0;
    while i < n
        invariant
            0 <= i <= n,
            n == s@.len(),
            find_at_time(s@, 0) == find_at_time(s@, i as int),
        decreases n - i,
    {
        match at_time_at_x(s, i) {
            Some(hm) => {
                return Some(hm);
            },
            None => {},
        }
        i = i + 1;
    }
    None
}

/// Reads the `at H am|pm` clause at `i`, the hour digits saturated just
/// above 24: the hour field is exact where the digits read at most 24.
fn at_pm_at_x(s: &Vec<char>, i: usize) -> (r: Option<(u32, bool)>)
    requires
        i <= s@.len(),
    ensures
        r is Some <==> at_pm_at(s@, i as int) is Some,
        r is Some ==> {
            let (h, pm) = at_pm_at(s@, i as int).unwrap();
            &&& r.unwrap().1 == pm
            &&& 0 <= h
            &&& h <= 24 ==> r.unwrap().0 == h
            &&& h > 24 ==> r.unwrap().0 == 25
        },
{
    if matches_at_x(s, i, "at ") {
        let n: usize = s.len();
        proof {
            assert(i + "at "@.len() <= n);
        }
        let j: usize = i + "at ".unicode_len();
        let e: usize = digits_end_x(s, j);
        if e > j {
            let v: u64 = digits_value_capped(s, j, e, 24);
            let k: usize = skip_spaces_x(s, e);
            if matches_at_x(s, k, "am") {
                Some((v as u32, false))
            } else if matches_at_x(s, k, "pm") {
                Some((v as u32, true))
            } else {
                None
            }
        } else {
            None
        }
    } else {
        None
    }
}

fn find_at_pm_x(s: &Vec<char>) -> (r: Option<(u32, bool)>)
    ensures
        r is Some <==> find_at_pm(s@, 0) is Some,
        r is Some ==> {
            let (h, pm) = find_at_pm(s@, 0).unwrap();
            &&& r.unwrap().1 == pm
            &&& 0 <= h
            &&& h <= 24 ==> r.unwrap().0 == h
            &&& h > 24 ==> r.unwrap().0 == 25
        },
{
    let n: usize = s.len();
    let mut i: usize = 0;
    while i < n
        invariant
            0 <= i <= n,
            n == s@.len(),
            find_at_pm(s@, 0) == find_at_pm(s@, i as int),
        decreases n - i,
    {
        match at_pm_at_x(s, i) {
            Some(hp) => {
                return Some(hp);
            },
            None => {},
        }
        i = i + 1;
    }
    None
}

fn date_at_x(s: &Vec<char>, i: usize) -> (r: Option<(u32, u32, u32)>)
    requires
        i <= s@.len(),
    ensures
        match date_at(s@, i as int) {
            Some((y, m, d)) => r == Some((y as u32, m as u32, d as u32)) && 0 <= y <= 9999 && 0
                <= m <= 99 && 0 <= d <= 99,
            None => r is None,
        },
{
    let n: usize = s.len();
    if i < n && n - i >= 10 && is_digit_x(s[i]) && is_digit_x(s[i + 1]) && is_digit_x(s[i + 2])
        && is_digit_x(s[i + 3]) && s[i + 4] == '-' && is_digit_x(s[i + 5]) && is_digit_x(s[i + 6])
        && s[i + 7] == '-' && is_digit_x(s[i + 8]) && is_digit_x(s[i + 9]) {
        let y: u64 = digits_value_capped(s, i, i + 4, 10000);
        let m: u64 = digits_value_capped(s, i + 5, i + 7, 100);
        let d: u64 = digits_value_capped(s, i + 8, i + 10, 100);
        proof {
            lemma_fixed_digits_bound(s@, i as int, i + 4);
            lemma_fixed_digits_bound(s@, i + 5, i + 7);
            lemma_fixed_digits_bound(s@, i + 8, i + 10);
        }
        Some((y as u32, m as u32, d as u32))
    } else {
        None
    }
}

/// The value of at most four digits is below the matching power of ten.
proof fn lemma_fixed_digits_bound(s: Seq<char>, i: int, j: int)
    requires
        0 <= i <= j <= s.len(),
        j - i <= 4,
        forall|t: int| i <= t < j ==> is_digit(#[trigger] s[t]),
    ensures
        0 <= digits_value(s, i, j),
        j - i <= 1 ==> digits_value(s, i, j) <= 9,
        j - i <= 2 ==> digits_value(s, i, j) <= 99,
        j - i <= 3 ==> digits_value(s, i, j) <= 999,
        j - i <= 4 ==> digits_value(s, i, j) <= 9999,
    decreases j - i,
{
    if i < j {
        lemma_fixed_digits_bound(s, i, j - 1);
    }
}

fn find_date_x(s: &Vec<char>) -> (r: Option<(u32, u32, u32)>)
    ensures
        match find_date(s@, 0) {
            Some((y, m, d)) => r == Some((y as u32, m as u32, d as u32)) && 0 <= y <= 9999 && 0
                <= m <= 99 && 0 <= d <= 99,
            None => r is None,
        },
{
    let n: usize = s.len();
    let mut i: usize = 0;
    while i < n
        invariant
            0 <= i <= n,
            n == s@.len(),
            find_date(s@, 0) == find_date(s@, i as int),
        decreases n - i,
    {
        match date_at_x(s, i) {
            Some(ymd) => {
                return Some(ymd);
            },
            None => {},
        }
        i = i + 1;
    }
    None
}

fn date_result_x(y: u32, m: u32, d: u32) -> (r: Result<DateTime, ParseError>)
    requires
        y <= 9999,
    ensures
        r == spec_date_result(y as int, m as int, d as int),
        r is Ok ==> r.unwrap().wf(),
{
    match DateTime::from_fields(y, m, d, 9, 30, 0) {
        Some(dt) => Ok(dt),
        None => Err(ParseError),
    }
}

/// Applies the phrase's at-clause to a base date, then the push-a-day rule.
#[verifier::rlimit(50)]
fn at_clause_x(s: &Vec<char>, now: &DateTime, base: &DateTime) -> (r: Result<DateTime, ParseError>)
    requires
        now.wf(),
        base.wf(),
    ensures
        r == spec_at_clause(s@, *now, *base),
        r is Ok ==> r.unwrap().wf(),
{
    let staged: Result<DateTime, ParseError> = match find_at_time_x(s) {
        Some((h, mi)) => {
            if h <= 23 && mi <= 59 {
                Ok(base.with_time(h, mi, 0))
            } else {
                Err(ParseError)
            }
        },
        None => {
            match find_at_pm_x(s) {
                Some((h, pm)) => {
                    let h2: u32 = if pm {
                        h + 12
                    } else {
                        h
                    };
                    if h2 <= 23 {
                        Ok(base.with_time(h2, base.minute, base.second))
                    } else {
                        Err(ParseError)
                    }
                },
                None => Ok(*base),
            }
        },
    };
    match staged {
        Err(e) => Err(e),
        Ok(d) => {
            let td: u64 = crate::calendar::total_seconds_x(&d);
            let tn: u64 = crate::calendar::total_seconds_x(now);
            if td < tn {
                match d.checked_add_days(1) {
                    Some(d2) => {
                        proof {
                            lemma_dt_of_total_seconds(d2);
                            lemma_total_seconds_in_day(d2);
                        }
                        Ok(d2)
                    },
                    None => Err(ParseError),
                }
            } else {
                Ok(d)
            }
        },
    }
}

fn add_days_morning_x(now: &DateTime, k: u32) -> (r: Result<DateTime, ParseError>)
    requires
        now.wf(),
    ensures
        r == spec_add_days_morning(*now, k as int),
        r is Ok ==> r.unwrap().wf(),
{
    match now.checked_add_days(k) {
        Some(d) => {
            proof {
                lemma_dt_of_total_seconds(d);
                lemma_total_seconds_in_day(d);
            }
            Ok(d.with_time(9, 30, 0))
        },
        None => Err(ParseError),
    }
}

/// Parses a human phrase into the instant it denotes relative to `now`.
///
/// The result is exactly `spec_parse` of the phrase's characters; in
/// particular the parser is a pure function of its two arguments.
#[verifier::rlimit(50)]
pub fn parse_human_datetime(input: &str, now: &DateTime) -> (r: Result<DateTime, ParseError>)
    requires
        now.wf(),
    ensures
        r == spec_parse(input@, *now),
        r is Ok ==> r.unwrap().wf(),
{
    let raw: Vec<char> = chars_vec(input);
    let s: Vec<char> = normalize_x(&raw);
    if whole_is(&s, "next week") {
        let dfm: u32 = now.days_from_monday();
        return add_days_morning_x(now, 7 - dfm);
    }
    if whole_is(&s, "tomorrow") {
        return add_days_morning_x(now, 1);
    }
    if whole_is(&s, "day after tomorrow") {
        return add_days_morning_x(now, 2);
    }
    let base: Result<DateTime, ParseError> = match in_match_x(&s) {
        Some((c2, u)) => {
            if c2 > 20_000_000 {
                Err(ParseError)
            } else {
                in_result_small(now, c2, u)
            }
        },
        None => {
            match special_match_x(&s) {
                Some(k) => {
                    match now.checked_add_days(k) {
                        Some(d) => {
                            proof {
                                lemma_dt_of_total_seconds(d);
                                lemma_total_seconds_in_day(d);
                            }
                            Ok(d)
                        },
                        None => Err(ParseError),
                    }
                },
                None => {
                    match find_weekday_x(&s) {
                        Some(wd) => weekday_result_x(now, wd),
                        None => {
                            match find_date_x(&s) {
                                Some((y, m, d)) => date_result_x(y, m, d),
                                None => Err(ParseError),
                            }
                        },
                    }
                },
            }
        },
    };
    match base {
        Err(e) => Err(e),
        Ok(b) => at_clause_x(&s, now, &b),
    }
}

/// What `parse_human_datetime` returns, as a function of the phrase and of
/// the reference instant.
pub open spec fn spec_parse(input: Seq<char>, now: DateTime) -> Result<DateTime, ParseError> {
    let s = normalize(input);
    if s == "next week"@ {
        spec_add_days_morning(now, 7 - now.day_index() % 7)
    } else if s == "tomorrow"@ {
        spec_add_days_morning(now, 1)
    } else if s == "day after tomorrow"@ {
        spec_add_days_morning(now, 2)
    } else {
        match spec_base(s, now) {
            Err(e) => Err(e),
            Ok(b) => spec_at_clause(s, now, b),
        }
    }
}


/// Whether the normalized phrase takes its base date from the absolute
/// `YYYY-MM-DD` clause: every earlier base clause misses.
pub open spec fn spec_base_is_absolute_date(s: Seq<char>) -> bool {
    &&& s != "next week"@
    &&& s != "tomorrow"@
    &&& s != "day after tomorrow"@
    &&& in_match(s) is None
    &&& special_match(s) is None
    &&& find_weekday(s, 0) is None
}

proof fn lemma_day_index_is_div(d: DateTime)
    requires
        d.wf(),
    ensures
        d.total_seconds() / (SECONDS_PER_DAY as int) == d.day_index(),
{
    lemma_total_seconds_in_day(d);
    lemma_fundamental_div_mod_converse(
        d.total_seconds(),
        SECONDS_PER_DAY as int,
        d.day_index(),
        d.hour * 3600 + d.minute * 60 + d.second as int,
    );
}

/// A morning on a later day than `now`'s lies after `now`.
proof fn lemma_morning_after(now: DateTime, d: DateTime)
    requires
        now.wf(),
        d.wf(),
        d.day_index() > now.day_index(),
    ensures
        spec_morning(d).wf(),
        spec_morning(d).total_seconds() > now.total_seconds(),
{
    lemma_total_seconds_in_day(now);
}

/// Adding at least one day gives a well-formed instant on a later day.
proof fn lemma_add_days_base(now: DateTime, k: int)
    requires
        now.wf(),
        k >= 1,
        spec_add_days(now, k) is Ok,
    ensures
        spec_add_days(now, k).unwrap().wf(),
        spec_add_days(now, k).unwrap().day_index() >= now.day_index() + 1,
{
    let t = now.total_seconds() + k * (SECONDS_PER_DAY as int);
    lemma_total_seconds_in_day(now);
    lemma_dt_of_in_range(t);
    lemma_div_is_ordered(
        (now.day_index() + 1) * (SECONDS_PER_DAY as int),
        t,
        SECONDS_PER_DAY as int,
    );
    vstd::arithmetic::div_mod::lemma_div_multiples_vanish(
        now.day_index() + 1,
        SECONDS_PER_DAY as int,
    );
    assert((SECONDS_PER_DAY as int) * (now.day_index() + 1) == (now.day_index() + 1) * (
    SECONDS_PER_DAY as int)) by (nonlinear_arith);
}

/// The three literal phrases land strictly after `now`.
proof fn lemma_add_days_morning_after(now: DateTime, k: int)
    requires
        now.wf(),
        k >= 1,
        spec_add_days_morning(now, k) is Ok,
    ensures
        spec_add_days_morning(now, k).unwrap().total_seconds() > now.total_seconds(),
{
    lemma_add_days_base(now, k);
    lemma_morning_after(now, spec_add_days(now, k).unwrap());
}

/// A matched count is nonnegative.
proof fn lemma_count_match_nonneg(s: Seq<char>, i: int)
    requires
        count_match(s, i) is Some,
    ensures
        count_match(s, i).unwrap().0 >= 0,
{
    if !matches_at(s, i, "half an"@) && !matches_at(s, i, "half a"@) && !matches_at(
        s,
        i,
        "a couple of"@,
    ) && !matches_at(s, i, "a few"@) {
        crate::text::lemma_digits_end_digits(s, i);
        crate::text::lemma_digits_value_nonneg(s, i, digits_end(s, i));
    }
}

/// Only February's length depends on the year, and by one day, so the days
/// before a month differ by at most one across years.
proof fn lemma_feb_bound(y1: int, y2: int, m: int)
    requires
        1 <= m <= 13,
    ensures
        m <= 2 ==> days_before_month(y1, m) == days_before_month(y2, m),
        days_before_month(y1, m) <= days_before_month(y2, m) + 1,
    decreases m,
{
    if m > 1 {
        lemma_feb_bound(y1, y2, m - 1);
    }
}

/// A later or equal day index means a later or equal month block: the days
/// before the instant's year and month together never decrease.
proof fn lemma_block_mono(a: DateTime, b: DateTime)
    requires
        a.wf(),
        b.wf(),
        a.day_index() >= b.day_index(),
    ensures
        days_before_year(a.year as int) + days_before_month(a.year as int, a.month as int)
            >= days_before_year(b.year as int) + days_before_month(b.year as int, b.month as int),
{
    let ba = days_before_year(a.year as int) + days_before_month(a.year as int, a.month as int);
    let bb = days_before_year(b.year as int) + days_before_month(b.year as int, b.month as int);
    if ba < bb {
        crate::calendar::lemma_day_index_in_year(a);
        crate::calendar::lemma_day_index_in_year(b);
        crate::calendar::lemma_months_fill_year(a.year as int);
        crate::calendar::lemma_months_fill_year(b.year as int);
        crate::calendar::lemma_days_before_month_bounds(
            a.year as int,
            a.month as int,
            a.month as int + 1,
        );
        if a.year == b.year {
            if a.month >= b.month {
                crate::calendar::lemma_days_before_month_bounds(
                    a.year as int,
                    b.month as int,
                    a.month as int,
                );
                assert(false);
            }
            crate::calendar::lemma_days_before_month_bounds(
                a.year as int,
                a.month as int + 1,
                b.month as int,
            );
            assert(a.day_index() < bb);
            assert(false);
        } else if a.year < b.year {
            crate::calendar::lemma_days_before_month_bounds(a.year as int, a.month as int + 1, 13);
            crate::calendar::lemma_days_before_year_bounds(a.year as int + 1, b.year as int);
            assert(a.day_index() < bb);
            assert(false);
        } else {
            crate::calendar::lemma_days_before_month_bounds(b.year as int, b.month as int, 13);
            crate::calendar::lemma_days_before_year_bounds(b.year as int + 1, a.year as int);
            assert(false);
        }
    }
}

/// A base from the relative clause is well formed and not on an earlier day
/// than `now`.
proof fn lemma_in_result_base(now: DateTime, c2: int, u: TimeUnit)
    requires
        now.wf(),
        c2 >= 0,
        spec_in_result(now, c2, u) is Ok,
    ensures
        spec_in_result(now, c2, u).unwrap().wf(),
        spec_in_result(now, c2, u).unwrap().day_index() >= now.day_index(),
{
    let secs = unit_seconds(u) * c2 / 2;
    assert(unit_seconds(u) * c2 >= 0) by (nonlinear_arith)
        requires
            c2 >= 0,
            unit_seconds(u) >= 1,
    ;
    lemma_div_is_ordered(0, unit_seconds(u) * c2, 2);
    let t0 = now.total_seconds() + secs;
    lemma_total_seconds_in_day(now);
    lemma_dt_of_in_range(t0);
    lemma_day_index_is_div(now);
    lemma_div_is_ordered(now.total_seconds(), t0, SECONDS_PER_DAY as int);
    let d0 = dt_of(t0);
    if c2 >= 2 && u == TimeUnit::Months {
        let b0 = DateTime { day: now.day, ..d0 };
        lemma_block_mono(d0, now);
        assert(b0.wf());
        if b0.total_seconds() > now.total_seconds() + 48 * 3600 {
            assert(spec_morning(b0).day_index() == b0.day_index());
        }
    } else if c2 >= 2 && u == TimeUnit::Years {
        let y = now.year + c2 / 2;
        lemma_div_is_ordered(2, c2, 2);
        let b0 = DateTime { year: y as u32, ..now };
        crate::calendar::lemma_days_before_year_bounds(now.year as int + 1, y);
        lemma_feb_bound(now.year as int, y, now.month as int);
        assert(b0.wf());
        assert(b0.day_index() >= now.day_index());
        if b0.total_seconds() > now.total_seconds() + 48 * 3600 {
            assert(spec_morning(b0).day_index() == b0.day_index());
        }
    } else {
        if d0.total_seconds() > now.total_seconds() + 48 * 3600 {
            assert(spec_morning(d0).day_index() == d0.day_index());
        }
    }
}

/// A matched weekday name is a day from Monday.
proof fn lemma_find_weekday_bounds(s: Seq<char>, i: int)
    requires
        find_weekday(s, i) is Some,
    ensures
        0 <= find_weekday(s, i).unwrap() <= 6,
    decreases s.len() - i,
{
    if 0 <= i < s.len() && weekday_at(s, i) is None {
        lemma_find_weekday_bounds(s, i + 1);
    }
}

/// A base from the weekday clause is well formed and not on an earlier day
/// than `now`.
proof fn lemma_weekday_base(now: DateTime, wd: int)
    requires
        now.wf(),
        0 <= wd <= 6,
        spec_weekday_result(now, wd) is Ok,
    ensures
        spec_weekday_result(now, wd).unwrap().wf(),
        spec_weekday_result(now, wd).unwrap().day_index() >= now.day_index(),
{
    let base = now.total_seconds() + (wd - now.day_index() % 7) * (SECONDS_PER_DAY as int);
    let base2 = if base < now.total_seconds() {
        base + 7 * (SECONDS_PER_DAY as int)
    } else {
        base
    };
    lemma_total_seconds_in_day(now);
    assert(0 <= now.day_index() % 7 < 7);
    assert(base2 >= now.total_seconds());
    lemma_dt_of_in_range(base2);
    lemma_day_index_is_div(now);
    lemma_div_is_ordered(now.total_seconds(), base2, SECONDS_PER_DAY as int);
    assert(spec_morning(dt_of(base2)).day_index() == dt_of(base2).day_index());
}

/// Hours and minutes read by the time form are nonnegative.
proof fn lemma_find_at_time_nonneg(s: Seq<char>, i: int)
    requires
        find_at_time(s, i) is Some,
    ensures
        find_at_time(s, i).unwrap().0 >= 0,
        find_at_time(s, i).unwrap().1 >= 0,
    decreases s.len() - i,
{
    if 0 <= i < s.len() {
        if at_time_at(s, i) is Some {
        } else {
            lemma_find_at_time_nonneg(s, i + 1);
        }
    }
}

/// The hour read by the meridiem form is nonnegative.
proof fn lemma_find_at_pm_nonneg(s: Seq<char>, i: int)
    requires
        find_at_pm(s, i) is Some,
    ensures
        find_at_pm(s, i).unwrap().0 >= 0,
    decreases s.len() - i,
{
    if 0 <= i < s.len() {
        if at_pm_at(s, i) is Some {
            let j = i + "at "@.len();
            let e = digits_end(s, j);
            crate::text::lemma_digits_end_digits(s, j);
            crate::text::lemma_digits_value_nonneg(s, j, e);
        } else {
            lemma_find_at_pm_nonneg(s, i + 1);
        }
    }
}

/// On a base no earlier than `now`'s day, the at-clause and the push-a-day
/// rule land at or after `now`.
proof fn lemma_at_clause_ge(s: Seq<char>, now: DateTime, base: DateTime)
    requires
        now.wf(),
        base.wf(),
        base.day_index() >= now.day_index(),
        spec_at_clause(s, now, base) is Ok,
    ensures
        spec_at_clause(s, now, base).unwrap().total_seconds() >= now.total_seconds(),
{
    lemma_total_seconds_in_day(now);
    let staged: Result<DateTime, ParseError> = match find_at_time(s, 0) {
        Some((h, mi)) => {
            if h <= 23 && mi <= 59 {
                Ok(DateTime { hour: h as u32, minute: mi as u32, second: 0, ..base })
            } else {
                Err(ParseError)
            }
        },
        None => {
            match find_at_pm(s, 0) {
                Some((h, pm)) => {
                    let h2 = if pm {
                        h + 12
                    } else {
                        h
                    };
                    if h2 <= 23 {
                        Ok(DateTime { hour: h2 as u32, ..base })
                    } else {
                        Err(ParseError)
                    }
                },
                None => Ok(base),
            }
        },
    };
    match find_at_time(s, 0) {
        Some(_) => {
            lemma_find_at_time_nonneg(s, 0);
        },
        None => {
            match find_at_pm(s, 0) {
                Some(_) => {
                    lemma_find_at_pm_nonneg(s, 0);
                },
                None => {},
            }
        },
    }
    let d = staged.unwrap();
    assert(d.wf());
    assert(d.day_index() == base.day_index());
    lemma_total_seconds_in_day(d);
    if d.total_seconds() < now.total_seconds() {
        lemma_dt_of_in_range(d.total_seconds() + SECONDS_PER_DAY);
    }
}

/// A successful parse never lands before `now`, unless the base came from
/// the absolute-date clause, which may name any day at all. Equality does
/// happen — "in 0 seconds" yields `now` itself — so the bound is not strict.
pub proof fn lemma_parse_not_before_now(input: Seq<char>, now: DateTime)
    requires
        now.wf(),
        spec_parse(input, now) is Ok,
        !spec_base_is_absolute_date(normalize(input)),
    ensures
        spec_parse(input, now).unwrap().total_seconds() >= now.total_seconds(),
{
    let s = normalize(input);
    if s == "next week"@ {
        assert(0 <= now.day_index() % 7 < 7);
        lemma_add_days_morning_after(now, 7 - now.day_index() % 7);
    } else if s == "tomorrow"@ {
        lemma_add_days_morning_after(now, 1);
    } else if s == "day after tomorrow"@ {
        lemma_add_days_morning_after(now, 2);
    } else {
        let base = spec_base(s, now);
        let b = base.unwrap();
        match in_match(s) {
            Some((c2, u)) => {
                let i = skip_spaces(s, "in"@.len() as int);
                lemma_count_match_nonneg(s, i);
                lemma_in_result_base(now, c2, u);
                lemma_at_clause_ge(s, now, b);
            },
            None => {
                match special_match(s) {
                    Some(k) => {
                        lemma_add_days_base(now, k);
                        lemma_at_clause_ge(s, now, b);
                    },
                    None => {
                        match find_weekday(s, 0) {
                            Some(wd) => {
                                lemma_find_weekday_bounds(s, 0);
                                lemma_weekday_base(now, wd);
                                lemma_at_clause_ge(s, now, b);
                            },
                            None => {
                                assert(false);
                            },
                        }
                    },
                }
            },
        }
    }
}


/// The parser is deterministic: two runs on one phrase and one reference
/// instant return the same result, bit for bit, because each equals the one
/// spec function of those two arguments.
pub proof fn lemma_parse_deterministic(
    r1: Result<DateTime, ParseError>,
    r2: Result<DateTime, ParseError>,
    input: Seq<char>,
    now: DateTime,
)
    requires
        r1 == spec_parse(input, now),
        r2 == spec_parse(input, now),
    ensures
        r1 == r2,
{
}

} // verus!
