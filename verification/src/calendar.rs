//! A proleptic-Gregorian calendar at second precision, in UTC.
//!
//! An instant is held as civil fields (year, month, day, hour, minute,
//! second). The mathematical model maps every valid instant to its count of
//! seconds since 0001-01-01 00:00:00; arithmetic and comparisons are stated
//! over that count. 0001-01-01 falls on a Monday, so a day index modulo 7
//! is the number of days from Monday.

use vstd::prelude::*;

verus! {

/// Highest year the calendar represents. Large enough that adding the
/// largest duration the datetime parser accepts to any modern instant
/// stays representable.
pub const MAX_YEAR: u32 = 300000;

pub const SECONDS_PER_DAY: u64 = 86400;

/// A UTC instant, as civil fields.
#[derive(Clone, Copy, PartialEq, Eq, Structural, Debug)]
pub struct DateTime {
    pub year: u32,
    pub month: u32,
    pub day: u32,
    pub hour: u32,
    pub minute: u32,
    pub second: u32,
}

pub open spec fn is_leap_year(y: int) -> bool {
    (y % 4 == 0 && y % 100 != 0) || y % 400 == 0
}

pub open spec fn days_in_year(y: int) -> int {
    if is_leap_year(y) {
        366
    } else {
        365
    }
}

pub open spec fn days_in_month(y: int, m: int) -> int {
    if m == 2 {
        if is_leap_year(y) {
            29
        } else {
            28
        }
    } else if m == 4 || m == 6 || m == 9 || m == 11 {
        30
    } else {
        31
    }
}

/// Days from 0001-01-01 to the first day of year `y`.
pub open spec fn days_before_year(y: int) -> int
    decreases y,
{
    if y <= 1 {
        0
    } else {
        days_before_year(y - 1) + days_in_year(y - 1)
    }
}

/// Days from `y`-01-01 to the first day of month `m` of year `y`.
pub open spec fn days_before_month(y: int, m: int) -> int
    decreases m,
{
    if m <= 1 {
        0
    } else {
        days_before_month(y, m - 1) + days_in_month(y, m - 1)
    }
}

impl DateTime {
    /// A well-formed instant: a real calendar date and a real time of day.
    pub open spec fn wf(self) -> bool {
        &&& 1 <= self.year <= MAX_YEAR
        &&& 1 <= self.month <= 12
        &&& 1 <= self.day <= days_in_month(self.year as int, self.month as int)
        &&& self.hour <= 23
        &&& self.minute <= 59
        &&& self.second <= 59
    }

    /// Days from 0001-01-01 to this instant's date.
    pub open spec fn day_index(self) -> int {
        days_before_year(self.year as int) + days_before_month(self.year as int, self.month as int)
            + self.day - 1
    }

    /// Seconds from 0001-01-01 00:00:00 to this instant.
    pub open spec fn total_seconds(self) -> int {
        self.day_index() * (SECONDS_PER_DAY as int) + self.hour * 3600 + self.minute * 60
            + self.second
    }
}

/// One more second than any well-formed instant reaches.
pub open spec fn seconds_limit() -> int {
    days_before_year(MAX_YEAR + 1) * (SECONDS_PER_DAY as int)
}

pub proof fn lemma_days_before_year_bounds(y1: int, y2: int)
    requires
        1 <= y1 <= y2,
    ensures
        days_before_year(y1) + 365 * (y2 - y1) <= days_before_year(y2) <= days_before_year(y1)
            + 366 * (y2 - y1),
    decreases y2 - y1,
{
    if y1 < y2 {
        lemma_days_before_year_bounds(y1, y2 - 1);
    }
}

pub proof fn lemma_days_before_month_bounds(y: int, m1: int, m2: int)
    requires
        1 <= m1 <= m2,
    ensures
        days_before_month(y, m1) + 28 * (m2 - m1) <= days_before_month(y, m2)
            <= days_before_month(y, m1) + 31 * (m2 - m1),
    decreases m2 - m1,
{
    if m1 < m2 {
        lemma_days_before_month_bounds(y, m1, m2 - 1);
    }
}

/// The months of a year sum to the year's length.
pub proof fn lemma_months_fill_year(y: int)
    ensures
        days_before_month(y, 13) == days_in_year(y),
{
    reveal_with_fuel(days_before_month, 13);
}

/// A well-formed instant's date lies within its year's days.
pub proof fn lemma_day_index_in_year(dt: DateTime)
    requires
        dt.wf(),
    ensures
        days_before_year(dt.year as int) <= dt.day_index(),
        dt.day_index() < days_before_year(dt.year as int + 1),
        days_before_year(dt.year as int + 1) == days_before_year(dt.year as int) + days_in_year(
            dt.year as int,
        ),
{
    lemma_days_before_month_bounds(dt.year as int, 1, dt.month as int);
    lemma_months_fill_year(dt.year as int);
    lemma_days_before_month_bounds(dt.year as int, dt.month as int, 13);
    assert(days_before_month(dt.year as int, dt.month as int + 1) == days_before_month(
        dt.year as int,
        dt.month as int,
    ) + days_in_month(dt.year as int, dt.month as int));
}

/// A well-formed instant's second count lies within its day.
pub proof fn lemma_total_seconds_in_day(dt: DateTime)
    requires
        dt.wf(),
    ensures
        dt.day_index() * (SECONDS_PER_DAY as int) <= dt.total_seconds(),
        dt.total_seconds() < (dt.day_index() + 1) * (SECONDS_PER_DAY as int),
        0 <= dt.day_index(),
        dt.total_seconds() < seconds_limit(),
{
    lemma_day_index_in_year(dt);
    lemma_days_before_year_bounds(1, dt.year as int);
    lemma_days_before_year_bounds(dt.year as int + 1, MAX_YEAR + 1);
    assert(dt.day_index() * (SECONDS_PER_DAY as int) + 86400 <= days_before_year(MAX_YEAR + 1) * (
    SECONDS_PER_DAY as int)) by (nonlinear_arith)
        requires
            dt.day_index() + 1 <= days_before_year(MAX_YEAR + 1),
    ;
}

/// The year whose days contain day index `n`, searching upward from `y`.
pub open spec fn spec_year_of(n: int, y: int) -> int
    decreases MAX_YEAR - y,
{
    if y >= MAX_YEAR {
        MAX_YEAR as int
    } else if n < days_before_year(y + 1) {
        y
    } else {
        spec_year_of(n, y + 1)
    }
}

/// The month of year `y` whose days contain day index `n`, searching upward
/// from `m`.
pub open spec fn spec_month_of(n: int, y: int, m: int) -> int
    decreases 12 - m,
{
    if m >= 12 {
        12
    } else if n < days_before_year(y) + days_before_month(y, m + 1) {
        m
    } else {
        spec_month_of(n, y, m + 1)
    }
}

/// The instant `t` seconds after 0001-01-01 00:00:00, as civil fields.
pub open spec fn dt_of(t: int) -> DateTime {
    let n = t / (SECONDS_PER_DAY as int);
    let tod = t % (SECONDS_PER_DAY as int);
    let y = spec_year_of(n, 1);
    let m = spec_month_of(n, y, 1);
    let d = n - days_before_year(y) - days_before_month(y, m) + 1;
    let rem = tod % 3600;
    DateTime {
        year: y as u32,
        month: m as u32,
        day: d as u32,
        hour: (tod / 3600) as u32,
        minute: (rem / 60) as u32,
        second: (rem % 60) as u32,
    }
}

proof fn lemma_year_of_found(n: int, y: int)
    requires
        1 <= y <= MAX_YEAR,
        days_before_year(y) <= n < days_before_year(MAX_YEAR + 1),
    ensures
        ({
            let yy = spec_year_of(n, y);
            &&& 1 <= yy <= MAX_YEAR
            &&& days_before_year(yy) <= n < days_before_year(yy + 1)
        }),
    decreases MAX_YEAR - y,
{
    if y < MAX_YEAR && n >= days_before_year(y + 1) {
        lemma_year_of_found(n, y + 1);
    }
}

proof fn lemma_year_of_unique(n: int, y: int, target: int)
    requires
        1 <= y <= target <= MAX_YEAR,
        days_before_year(target) <= n < days_before_year(target + 1),
    ensures
        spec_year_of(n, y) == target,
    decreases MAX_YEAR - y,
{
    if y < target {
        lemma_days_before_year_bounds(y + 1, target);
        lemma_year_of_unique(n, y + 1, target);
    }
}

proof fn lemma_month_of_found(n: int, y: int, m: int)
    requires
        1 <= m <= 12,
        days_before_year(y) + days_before_month(y, m) <= n,
        n < days_before_year(y) + days_in_year(y),
    ensures
        ({
            let mm = spec_month_of(n, y, m);
            &&& m <= mm <= 12
            &&& days_before_year(y) + days_before_month(y, mm) <= n
            &&& n < days_before_year(y) + days_before_month(y, mm + 1)
        }),
    decreases 12 - m,
{
    lemma_months_fill_year(y);
    if m < 12 && n >= days_before_year(y) + days_before_month(y, m + 1) {
        lemma_month_of_found(n, y, m + 1);
    }
}

proof fn lemma_month_of_unique(n: int, y: int, m: int, target: int)
    requires
        1 <= m <= target <= 12,
        days_before_year(y) + days_before_month(y, target) <= n,
        n < days_before_year(y) + days_before_month(y, target + 1),
    ensures
        spec_month_of(n, y, m) == target,
    decreases 12 - m,
{
    if m < target {
        lemma_days_before_month_bounds(y, m + 1, target);
        lemma_month_of_unique(n, y, m + 1, target);
    }
}

/// Within range, `dt_of` produces a well-formed instant at exactly `t`.
pub proof fn lemma_dt_of_in_range(t: int)
    requires
        0 <= t < seconds_limit(),
    ensures
        dt_of(t).wf(),
        dt_of(t).total_seconds() == t,
        dt_of(t).day_index() == t / (SECONDS_PER_DAY as int),
{
    let n = t / (SECONDS_PER_DAY as int);
    let tod = t % (SECONDS_PER_DAY as int);
    assert(t == (SECONDS_PER_DAY as int) * n + tod && 0 <= tod < 86400 && n >= 0)
        by (nonlinear_arith)
        requires
            t >= 0,
            n == t / (SECONDS_PER_DAY as int),
            tod == t % (SECONDS_PER_DAY as int),
    ;
    assert(n < days_before_year(MAX_YEAR + 1)) by (nonlinear_arith)
        requires
            t < days_before_year(MAX_YEAR + 1) * (SECONDS_PER_DAY as int),
            t == (SECONDS_PER_DAY as int) * n + tod,
            0 <= tod < 86400,
    ;
    lemma_year_of_found(n, 1);
    let y = spec_year_of(n, 1);
    lemma_months_fill_year(y);
    lemma_month_of_found(n, y, 1);
    let m = spec_month_of(n, y, 1);
    assert(days_before_month(y, m + 1) == days_before_month(y, m) + days_in_month(y, m));
    let rem = tod % 3600;
    assert(tod == 3600 * (tod / 3600) + rem && 0 <= rem < 3600 && tod / 3600 <= 23)
        by (nonlinear_arith)
        requires
            0 <= tod < 86400,
            rem == tod % 3600,
    ;
    assert(rem == 60 * (rem / 60) + rem % 60 && 0 <= rem % 60 < 60 && rem / 60 <= 59)
        by (nonlinear_arith)
        requires
            0 <= rem < 3600,
    ;
    let d = dt_of(t);
    assert(d.day_index() == n);
    assert(d.total_seconds() == n * (SECONDS_PER_DAY as int) + tod) by (nonlinear_arith)
        requires
            d.day_index() == n,
            d.total_seconds() == d.day_index() * (SECONDS_PER_DAY as int) + d.hour * 3600
                + d.minute * 60 + d.second,
            tod == 3600 * (d.hour as int) + 60 * (d.minute as int) + d.second,
    ;
    assert(t == n * (SECONDS_PER_DAY as int) + tod) by (nonlinear_arith)
        requires
            t == (SECONDS_PER_DAY as int) * n + tod,
    ;
}

/// `dt_of` inverts `total_seconds` on well-formed instants.
pub proof fn lemma_dt_of_total_seconds(d: DateTime)
    requires
        d.wf(),
    ensures
        dt_of(d.total_seconds()) == d,
{
    let t = d.total_seconds();
    let n0 = d.day_index();
    let tod0 = d.hour * 3600 + d.minute * 60 + d.second as int;
    lemma_total_seconds_in_day(d);
    lemma_day_index_in_year(d);
    assert(t / (SECONDS_PER_DAY as int) == n0 && t % (SECONDS_PER_DAY as int) == tod0)
        by (nonlinear_arith)
        requires
            t == n0 * (SECONDS_PER_DAY as int) + tod0,
            0 <= tod0 < 86400,
            n0 >= 0,
    ;
    lemma_year_of_unique(n0, 1, d.year as int);
    lemma_days_before_month_bounds(d.year as int, d.month as int, d.month as int + 1);
    lemma_month_of_unique(n0, d.year as int, 1, d.month as int);
    assert(tod0 / 3600 == d.hour as int && tod0 % 3600 == d.minute * 60 + d.second)
        by (nonlinear_arith)
        requires
            tod0 == 3600 * (d.hour as int) + (d.minute * 60 + d.second),
            0 <= d.minute * 60 + d.second < 3600,
    ;
    assert((d.minute * 60 + d.second) / 60 == d.minute as int && (d.minute * 60 + d.second) % 60
        == d.second as int) by (nonlinear_arith)
        requires
            d.minute <= 59,
            0 <= d.second < 60,
    ;
}

/// The three-letter English weekday name, days from Monday.
pub open spec fn spec_weekday_abbrev(wd: int) -> Seq<char> {
    if wd == 0 {
        "Mon"@
    } else if wd == 1 {
        "Tue"@
    } else if wd == 2 {
        "Wed"@
    } else if wd == 3 {
        "Thu"@
    } else if wd == 4 {
        "Fri"@
    } else if wd == 5 {
        "Sat"@
    } else {
        "Sun"@
    }
}

fn weekday_abbrev_x(wd: u32) -> (r: &'static str)
    ensures
        r@ == spec_weekday_abbrev(wd as int),
{
    if wd == 0 {
        "Mon"
    } else if wd == 1 {
        "Tue"
    } else if wd == 2 {
        "Wed"
    } else if wd == 3 {
        "Thu"
    } else if wd == 4 {
        "Fri"
    } else if wd == 5 {
        "Sat"
    } else {
        "Sun"
    }
}

/// The three-letter English month name, January as 1.
pub open spec fn spec_month_abbrev(m: int) -> Seq<char> {
    if m == 1 {
        "Jan"@
    } else if m == 2 {
        "Feb"@
    } else if m == 3 {
        "Mar"@
    } else if m == 4 {
        "Apr"@
    } else if m == 5 {
        "May"@
    } else if m == 6 {
        "Jun"@
    } else if m == 7 {
        "Jul"@
    } else if m == 8 {
        "Aug"@
    } else if m == 9 {
        "Sep"@
    } else if m == 10 {
        "Oct"@
    } else if m == 11 {
        "Nov"@
    } else {
        "Dec"@
    }
}

fn month_abbrev_x(m: u32) -> (r: &'static str)
    ensures
        r@ == spec_month_abbrev(m as int),
{
    if m == 1 {
        "Jan"
    } else if m == 2 {
        "Feb"
    } else if m == 3 {
        "Mar"
    } else if m == 4 {
        "Apr"
    } else if m == 5 {
        "May"
    } else if m == 6 {
        "Jun"
    } else if m == 7 {
        "Jul"
    } else if m == 8 {
        "Aug"
    } else if m == 9 {
        "Sep"
    } else if m == 10 {
        "Oct"
    } else if m == 11 {
        "Nov"
    } else {
        "Dec"
    }
}

/// The year, in decimal, zero padded to at least four digits.
pub open spec fn spec_year4(y: int) -> Seq<char> {
    if y <= 9 {
        "000"@ + crate::text::spec_decimal(y)
    } else if y <= 99 {
        "00"@ + crate::text::spec_decimal(y)
    } else if y <= 999 {
        "0"@ + crate::text::spec_decimal(y)
    } else {
        crate::text::spec_decimal(y)
    }
}

/// An instant in RFC 2822 form, UTC: "Tue, 08 Jul 2014 09:10:11 +0000".
pub open spec fn spec_rfc2822(d: DateTime) -> Seq<char> {
    spec_weekday_abbrev(d.day_index() % 7) + ", "@ + crate::text::spec_two_decimal(d.day as int)
        + " "@ + spec_month_abbrev(d.month as int) + " "@ + spec_year4(d.year as int) + " "@
        + crate::text::spec_two_decimal(d.hour as int) + ":"@ + crate::text::spec_two_decimal(
        d.minute as int,
    ) + ":"@ + crate::text::spec_two_decimal(d.second as int) + " +0000"@
}

/// A concrete ceiling on the representable second counts.
pub proof fn lemma_seconds_limit_bound()
    ensures
        seconds_limit() < 0x2_0000_0000_0000,
{
    lemma_days_before_year_bounds(1, MAX_YEAR + 1);
    assert(days_before_year(MAX_YEAR + 1) * (SECONDS_PER_DAY as int) <= 109800366 * 86400)
        by (nonlinear_arith)
        requires
            days_before_year(MAX_YEAR + 1) <= 109800366,
    ;
}

pub fn is_leap_year_x(y: u32) -> (r: bool)
    ensures
        r == is_leap_year(y as int),
{
    (y % 4 == 0 && y % 100 != 0) || y % 400 == 0
}

pub fn days_in_year_x(y: u32) -> (r: u32)
    ensures
        r == days_in_year(y as int),
{
    if is_leap_year_x(y) {
        366
    } else {
        365
    }
}

pub fn days_in_month_x(y: u32, m: u32) -> (r: u32)
    ensures
        r == days_in_month(y as int, m as int),
{
    if m == 2 {
        if is_leap_year_x(y) {
            29
        } else {
            28
        }
    } else if m == 4 || m == 6 || m == 9 || m == 11 {
        30
    } else {
        31
    }
}

pub fn days_before_year_x(y: u32) -> (r: u64)
    requires
        1 <= y <= MAX_YEAR + 1,
    ensures
        r == days_before_year(y as int),
{
    let mut acc: u64 = 0;
    let mut i: u32 = 1;
    while i < y
        invariant
            1 <= i <= y,
            y <= MAX_YEAR + 1,
            acc == days_before_year(i as int),
        decreases y - i,
    {
        proof {
            lemma_days_before_year_bounds(1, i as int + 1);
        }
        acc = acc + days_in_year_x(i) as u64;
        i = i + 1;
    }
    acc
}

pub fn days_before_month_x(y: u32, m: u32) -> (r: u32)
    requires
        1 <= m <= 13,
    ensures
        r == days_before_month(y as int, m as int),
{
    let mut acc: u32 = 0;
    let mut i: u32 = 1;
    while i < m
        invariant
            1 <= i <= m <= 13,
            acc == days_before_month(y as int, i as int),
        decreases m - i,
    {
        proof {
            lemma_days_before_month_bounds(y as int, 1, i as int + 1);
        }
        acc = acc + days_in_month_x(y, i);
        i = i + 1;
    }
    acc
}

pub fn day_index_x(dt: &DateTime) -> (r: u64)
    requires
        dt.wf(),
    ensures
        r == dt.day_index(),
        r < days_before_year(MAX_YEAR + 1),
{
    proof {
        lemma_day_index_in_year(*dt);
        lemma_days_before_year_bounds(1, dt.year as int);
        lemma_days_before_year_bounds(dt.year as int + 1, MAX_YEAR + 1);
    }
    let by: u64 = days_before_year_x(dt.year);
    let bm: u32 = days_before_month_x(dt.year, dt.month);
    by + bm as u64 + dt.day as u64 - 1
}

pub fn total_seconds_x(dt: &DateTime) -> (r: u64)
    requires
        dt.wf(),
    ensures
        r == dt.total_seconds(),
        r < seconds_limit(),
{
    proof {
        lemma_total_seconds_in_day(*dt);
        assert(dt.day_index() * (SECONDS_PER_DAY as int) <= (days_before_year(MAX_YEAR + 1) - 1) * (
        SECONDS_PER_DAY as int)) by (nonlinear_arith)
            requires
                dt.day_index() <= days_before_year(MAX_YEAR + 1) - 1,
        ;
    }
    let di: u64 = day_index_x(dt);
    proof {
        lemma_days_before_year_bounds(1, MAX_YEAR + 1);
    }
    di * SECONDS_PER_DAY + (dt.hour as u64) * 3600 + (dt.minute as u64) * 60 + dt.second as u64
}

/// The number of seconds spanned by the whole representable range.
pub fn seconds_limit_x() -> (r: u64)
    ensures
        r == seconds_limit(),
{
    proof {
        lemma_days_before_year_bounds(1, MAX_YEAR + 1);
    }
    days_before_year_x(MAX_YEAR + 1) * SECONDS_PER_DAY
}

/// Recovers the date whose day index is `n`.
pub fn date_from_day_index(n: u64) -> (r: (u32, u32, u32))
    requires
        n < days_before_year(MAX_YEAR + 1),
    ensures
        1 <= r.0 <= MAX_YEAR,
        1 <= r.1 <= 12,
        1 <= r.2 <= days_in_month(r.0 as int, r.1 as int),
        days_before_year(r.0 as int) + days_before_month(r.0 as int, r.1 as int) + r.2 - 1
            == n,
{
    let mut y: u32 = 1;
    let mut acc: u64 = 0;
    loop
        invariant
            1 <= y <= MAX_YEAR,
            acc == days_before_year(y as int),
            acc <= n < days_before_year(MAX_YEAR + 1),
        ensures
            1 <= y <= MAX_YEAR,
            acc == days_before_year(y as int),
            acc <= n,
            n - acc < days_in_year(y as int),
        decreases MAX_YEAR - y,
    {
        let dy: u32 = days_in_year_x(y);
        proof {
            lemma_days_before_year_bounds(1, MAX_YEAR + 1);
        }
        if acc + dy as u64 > n {
            proof {
                lemma_days_before_year_bounds(1, y as int + 1);
            }
            break ;
        }
        proof {
            if y == MAX_YEAR {
                assert(days_before_year(MAX_YEAR + 1) == days_before_year(y as int) + days_in_year(
                    y as int,
                ));
                assert(false);
            }
            lemma_days_before_year_bounds(1, y as int + 1);
        }
        acc = acc + dy as u64;
        y = y + 1;
    }
    let mut m: u32 = 1;
    loop
        invariant
            1 <= m <= 12,
            1 <= y <= MAX_YEAR,
            acc == days_before_year(y as int) + days_before_month(y as int, m as int),
            acc <= n,
            n < days_before_year(y as int) + days_in_year(y as int),
            n < days_before_year(MAX_YEAR + 1),
        ensures
            1 <= m <= 12,
            acc == days_before_year(y as int) + days_before_month(y as int, m as int),
            acc <= n,
            n - acc < days_in_month(y as int, m as int),
        decreases 12 - m,
    {
        let dm: u32 = days_in_month_x(y, m);
        proof {
            lemma_days_before_year_bounds(1, MAX_YEAR + 1);
        }
        if acc + dm as u64 > n {
            break ;
        }
        proof {
            if m == 12 {
                lemma_months_fill_year(y as int);
                assert(days_before_month(y as int, 13) == days_before_month(y as int, 12)
                    + days_in_month(y as int, 12));
                assert(false);
            }
            lemma_days_before_month_bounds(y as int, 1, m as int + 1);
        }
        acc = acc + dm as u64;
        m = m + 1;
    }
    let d: u32 = (n - acc) as u32 + 1;
    (y, m, d)
}

/// Recovers the instant whose second count is `t`.
pub fn from_total_seconds(t: u64) -> (r: DateTime)
    requires
        t < seconds_limit(),
    ensures
        r.wf(),
        r.total_seconds() == t,
{
    proof {
        lemma_days_before_year_bounds(1, MAX_YEAR + 1);
        assert(t / SECONDS_PER_DAY < days_before_year(MAX_YEAR + 1)) by (nonlinear_arith)
            requires
                t < days_before_year(MAX_YEAR + 1) * (SECONDS_PER_DAY as int),
                days_before_year(MAX_YEAR + 1) >= 1,
        ;
    }
    let days: u64 = t / SECONDS_PER_DAY;
    let tod: u64 = t % SECONDS_PER_DAY;
    let (y, m, d) = date_from_day_index(days);
    let hour: u64 = tod / 3600;
    let rem: u64 = tod % 3600;
    let minute: u64 = rem / 60;
    let second: u64 = rem % 60;
    proof {
        assert(tod == hour * 3600 + minute * 60 + second && hour <= 23 && minute <= 59 && second
            <= 59) by (nonlinear_arith)
            requires
                tod < 86400,
                hour == tod / 3600,
                rem == tod % 3600,
                minute == rem / 60,
                second == rem % 60,
        ;
        assert(t == days * SECONDS_PER_DAY + tod) by (nonlinear_arith)
            requires
                days == t / SECONDS_PER_DAY,
                tod == t % SECONDS_PER_DAY,
        ;
    }
    let r = DateTime {
        year: y,
        month: m,
        day: d,
        hour: hour as u32,
        minute: minute as u32,
        second: second as u32,
    };
    proof {
        assert(r.total_seconds() == t) by (nonlinear_arith)
            requires
                r.day_index() == days,
                t == days * (SECONDS_PER_DAY as int) + tod,
                tod == r.hour * 3600 + r.minute * 60 + r.second,
        ;
    }
    r
}

impl DateTime {
    /// Comparison by the instant the fields denote.
    pub fn le(&self, other: &DateTime) -> (r: bool)
        requires
            self.wf(),
            other.wf(),
        ensures
            r == (self.total_seconds() <= other.total_seconds()),
    {
        total_seconds_x(self) <= total_seconds_x(other)
    }

    pub fn lt(&self, other: &DateTime) -> (r: bool)
        requires
            self.wf(),
            other.wf(),
        ensures
            r == (self.total_seconds() < other.total_seconds()),
    {
        total_seconds_x(self) < total_seconds_x(other)
    }

    /// The instant `delta` seconds later, or `None` past the calendar's end.
    pub fn checked_add_seconds(&self, delta: u64) -> (r: Option<DateTime>)
        requires
            self.wf(),
            delta < 0x7000_0000_0000_0000,
        ensures
            match r {
                Some(d) => d.wf() && d.total_seconds() == self.total_seconds() + delta,
                None => self.total_seconds() + delta >= seconds_limit(),
            },
    {
        let t: u64 = total_seconds_x(self);
        let limit: u64 = seconds_limit_x();
        proof {
            lemma_days_before_year_bounds(1, MAX_YEAR + 1);
            assert(seconds_limit() <= 366 * (MAX_YEAR as int) * 86400) by (nonlinear_arith)
                requires
                    days_before_year(MAX_YEAR + 1) <= 366 * (MAX_YEAR as int),
            ;
        }
        if t + delta < limit {
            Some(from_total_seconds(t + delta))
        } else {
            None
        }
    }

    /// The instant `k` whole days later, or `None` past the calendar's end.
    pub fn checked_add_days(&self, k: u32) -> (r: Option<DateTime>)
        requires
            self.wf(),
        ensures
            match r {
                Some(d) => d.wf() && d.total_seconds() == self.total_seconds() + k
                    * (SECONDS_PER_DAY as int),
                None => self.total_seconds() + k * (SECONDS_PER_DAY as int) >= seconds_limit(),
            },
    {
        proof {
            assert((k as int) * (SECONDS_PER_DAY as int) <= 0xffff_ffff * 86400)
                by (nonlinear_arith)
                requires
                    k <= 0xffff_ffff,
            ;
        }
        self.checked_add_seconds(k as u64 * SECONDS_PER_DAY)
    }

    /// The same date, `k` whole days earlier.
    pub fn sub_days(&self, k: u32) -> (r: DateTime)
        requires
            self.wf(),
            k * (SECONDS_PER_DAY as int) <= self.total_seconds(),
        ensures
            r.wf(),
            r.total_seconds() == self.total_seconds() - k * (SECONDS_PER_DAY as int),
    {
        proof {
            lemma_total_seconds_in_day(*self);
            assert((k as int) * (SECONDS_PER_DAY as int) == (k as u64 * SECONDS_PER_DAY) as int)
                by (nonlinear_arith)
                requires
                    k <= 0xffff_ffff,
            ;
        }
        let t: u64 = total_seconds_x(self);
        from_total_seconds(t - k as u64 * SECONDS_PER_DAY)
    }

    /// Days from Monday for this instant's date: Monday is 0, Sunday 6.
    /// 0001-01-01, the day of index 0, is a Monday.
    pub fn days_from_monday(&self) -> (r: u32)
        requires
            self.wf(),
        ensures
            r == self.day_index() % 7,
            r <= 6,
    {
        let di: u64 = day_index_x(self);
        (di % 7) as u32
    }

    /// The same date at the given time of day.
    pub fn with_time(&self, hour: u32, minute: u32, second: u32) -> (r: DateTime)
        requires
            self.wf(),
            hour <= 23,
            minute <= 59,
            second <= 59,
        ensures
            r.wf(),
            r == (DateTime { hour, minute, second, ..*self }),
            r.day_index() == self.day_index(),
    {
        DateTime { year: self.year, month: self.month, day: self.day, hour, minute, second }
    }

    /// The same instant with the day of month replaced, if that is a date.
    pub fn with_day(&self, day: u32) -> (r: Option<DateTime>)
        requires
            self.wf(),
        ensures
            match r {
                Some(d) => 1 <= day <= days_in_month(self.year as int, self.month as int) && d == (
                DateTime { day, ..*self }) && d.wf(),
                None => !(1 <= day <= days_in_month(self.year as int, self.month as int)),
            },
    {
        if 1 <= day && day <= days_in_month_x(self.year, self.month) {
            Some(DateTime { day, ..*self })
        } else {
            None
        }
    }

    /// The same instant with the month replaced, if that is a date.
    pub fn with_month(&self, month: u32) -> (r: Option<DateTime>)
        requires
            self.wf(),
        ensures
            match r {
                Some(d) => 1 <= month <= 12 && self.day <= days_in_month(
                    self.year as int,
                    month as int,
                ) && d == (DateTime { month, ..*self }) && d.wf(),
                None => !(1 <= month <= 12 && self.day <= days_in_month(
                    self.year as int,
                    month as int,
                )),
            },
    {
        if 1 <= month && month <= 12 && self.day <= days_in_month_x(self.year, month) {
            Some(DateTime { month, ..*self })
        } else {
            None
        }
    }

    /// The same instant with the year replaced, if that is a date.
    pub fn with_year(&self, year: u32) -> (r: Option<DateTime>)
        requires
            self.wf(),
        ensures
            match r {
                Some(d) => 1 <= year <= MAX_YEAR && self.day <= days_in_month(
                    year as int,
                    self.month as int,
                ) && d == (DateTime { year, ..*self }) && d.wf(),
                None => !(1 <= year <= MAX_YEAR && self.day <= days_in_month(
                    year as int,
                    self.month as int,
                )),
            },
    {
        if 1 <= year && year <= MAX_YEAR && self.day <= days_in_month_x(year, self.month) {
            Some(DateTime { year, ..*self })
        } else {
            None
        }
    }

    /// Seconds since the Unix epoch, 1970-01-01 00:00:00 UTC.
    pub fn unix_timestamp(&self) -> (r: i64)
        requires
            self.wf(),
        ensures
            r == self.total_seconds() - days_before_year(1970) * (SECONDS_PER_DAY as int),
    {
        proof {
            lemma_total_seconds_in_day(*self);
            lemma_days_before_year_bounds(1, 1970);
            lemma_days_before_year_bounds(1, MAX_YEAR + 1);
            assert(days_before_year(MAX_YEAR + 1) * (SECONDS_PER_DAY as int) <= 366 * (MAX_YEAR
                + 1) * 86400) by (nonlinear_arith)
                requires
                    days_before_year(MAX_YEAR + 1) <= 366 * (MAX_YEAR as int),
            ;
        }
        let t: u64 = total_seconds_x(self);
        let epoch: u64 = days_before_year_x(1970) * SECONDS_PER_DAY;
        t as i64 - epoch as i64
    }

    /// The instant at the given seconds since the Unix epoch, if representable.
    pub fn from_unix_timestamp(ts: i64) -> (r: Option<DateTime>)
        ensures
            match r {
                Some(d) => d.wf() && d.total_seconds() == ts + days_before_year(1970) * (
                SECONDS_PER_DAY as int),
                None => !(0 <= ts + days_before_year(1970) * (SECONDS_PER_DAY as int)
                    < seconds_limit()),
            },
    {
        proof {
            lemma_days_before_year_bounds(1, 1970);
            lemma_days_before_year_bounds(1, MAX_YEAR + 1);
        }
        let epoch: u64 = days_before_year_x(1970) * SECONDS_PER_DAY;
        let limit: u64 = seconds_limit_x();
        if ts >= 0 {
            let tu: u64 = ts as u64;
            if tu < limit - epoch {
                Some(from_total_seconds(tu + epoch))
            } else {
                None
            }
        } else {
            if ts >= -(epoch as i64) {
                let neg: u64 = (-ts) as u64;
                Some(from_total_seconds(epoch - neg))
            } else {
                None
            }
        }
    }

    /// This instant in the RFC 2822 form replies carry, always in UTC:
    /// weekday, zero-padded day, month, year, time, and the zero offset.
    pub fn to_rfc2822(&self) -> (r: String)
        requires
            self.wf(),
        ensures
            r@ == spec_rfc2822(*self),
    {
        let mut out = String::new();
        out.append(weekday_abbrev_x(self.days_from_monday()));
        out.append(", ");
        crate::text::push_two_decimal(&mut out, self.day);
        out.append(" ");
        out.append(month_abbrev_x(self.month));
        out.append(" ");
        if self.year <= 9 {
            out.append("000");
        } else if self.year <= 99 {
            out.append("00");
        } else if self.year <= 999 {
            out.append("0");
        }
        crate::text::push_decimal(&mut out, self.year as u64);
        out.append(" ");
        crate::text::push_two_decimal(&mut out, self.hour);
        out.append(":");
        crate::text::push_two_decimal(&mut out, self.minute);
        out.append(":");
        crate::text::push_two_decimal(&mut out, self.second);
        out.append(" +0000");
        proof {
            assert(out@ =~= spec_rfc2822(*self));
        }
        out
    }

    /// Builds a well-formed instant from its fields, if they form one.
    pub fn from_fields(year: u32, month: u32, day: u32, hour: u32, minute: u32, second: u32) -> (r:
        Option<DateTime>)
        ensures
            match r {
                Some(d) => d == (DateTime { year, month, day, hour, minute, second }) && d.wf(),
                None => !(DateTime { year, month, day, hour, minute, second }).wf(),
            },
    {
        if 1 <= year && year <= MAX_YEAR && 1 <= month && month <= 12 && 1 <= day && day
            <= days_in_month_x(year, month) && hour <= 23 && minute <= 59 && second <= 59 {
            Some(DateTime { year, month, day, hour, minute, second })
        } else {
            None
        }
    }
}

} // verus!
