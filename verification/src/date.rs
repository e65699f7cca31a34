//! Calendar dates in the proleptic Gregorian calendar.
//!
//! A date is counted by its *day number*: days since 0001-01-01, which is day
//! 0 and falls on a Monday.  Weekday arithmetic is therefore `day_number % 7`
//! (0 = Monday .. 6 = Sunday), and the ISO 8601 week of a date is derived
//! from the Thursday of its week: the ISO year is the year containing that
//! Thursday, and the week number counts the weeks from that year's start.

use chrono::Datelike;
use vstd::arithmetic::div_mod::{
    lemma_fundamental_div_mod, lemma_mod_add_multiples_vanish, lemma_mod_bound,
    lemma_mod_multiples_basic,
};
use vstd::prelude::*;

verus! {

/// Years a `Date` can hold; wide enough for any schedule this system meets.
pub open spec fn year_in_range(y: int) -> bool {
    1 <= y <= 9999
}

pub open spec fn is_leap_year(y: int) -> bool {
    y % 4 == 0 && (y % 100 != 0 || y % 400 == 0)
}

pub open spec fn days_in_year(y: int) -> int {
    if is_leap_year(y) {
        366
    } else {
        365
    }
}

pub open spec fn days_in_month(y: int, m: int) -> int
    recommends
        1 <= m <= 12,
{
    if m == 2 {
        if is_leap_year(y) {
            29
        } else {
            28
        }
    } else if m == 4 || m == 6 || m == 9 || m == 11 {
        30
    } else {
        31
    }
}

/// Days in all the years 1 .. y, exclusive of y itself.
pub open spec fn days_before_year(y: int) -> int
    decreases y,
{
    if y <= 1 {
        0
    } else {
        days_before_year(y - 1) + days_in_year(y - 1)
    }
}

/// Days of year y in the months 1 .. m, exclusive of m itself.
pub open spec fn days_before_month(y: int, m: int) -> int
    decreases m,
{
    if m <= 1 {
        0
    } else {
        days_before_month(y, m - 1) + days_in_month(y, m - 1)
    }
}

/// Day number of the date (y, m, d): days since 0001-01-01.
pub open spec fn day_number_of(y: int, m: int, d: int) -> int {
    days_before_year(y) + days_before_month(y, m) + (d - 1)
}

pub open spec fn valid_ymd(y: int, m: int, d: int) -> bool {
    year_in_range(y) && 1 <= m <= 12 && 1 <= d <= days_in_month(y, m)
}

/// One more than the largest day number of a representable date.
pub open spec fn day_number_limit() -> int {
    days_before_year(10000)
}

/// A calendar date.  Day number 0 is 0001-01-01, a Monday, so
/// `day_number % 7` gives the weekday (0 = Monday .. 6 = Sunday).
#[derive(Clone, Copy, PartialEq, Eq, Structural, Debug)]
pub struct Date {
    pub year: u32,
    pub month: u32,
    pub day: u32,
}

impl Date {
    pub open spec fn wf(self) -> bool {
        valid_ymd(self.year as int, self.month as int, self.day as int)
    }

    pub open spec fn spec_day_number(self) -> int {
        day_number_of(self.year as int, self.month as int, self.day as int)
    }
}

pub proof fn lemma_days_before_year_bounds(y: int)
    requires
        1 <= y,
    ensures
        365 * (y - 1) <= days_before_year(y) <= 366 * (y - 1),
    decreases y,
{
    if y > 1 {
        lemma_days_before_year_bounds(y - 1);
    }
}

pub proof fn lemma_days_before_year_increases(y1: int, y2: int)
    requires
        1 <= y1 <= y2,
    ensures
        days_before_year(y1) + 365 * (y2 - y1) <= days_before_year(y2),
    decreases y2 - y1,
{
    if y1 < y2 {
        lemma_days_before_year_increases(y1, y2 - 1);
    }
}

pub proof fn lemma_days_before_month_increases(y: int, m1: int, m2: int)
    requires
        1 <= m1 <= m2,
    ensures
        days_before_month(y, m1) <= days_before_month(y, m2),
    decreases m2 - m1,
{
    if m1 < m2 {
        lemma_days_before_month_increases(y, m1, m2 - 1);
    }
}

/// The twelve months of year y together hold exactly its days.
pub proof fn lemma_days_before_month_full(y: int)
    ensures
        days_before_month(y, 13) == days_in_year(y),
{
    reveal_with_fuel(days_before_month, 13);
}

/// A valid date's offset into its year lies inside that year.
pub proof fn lemma_day_offset_bounds(y: int, m: int, d: int)
    requires
        valid_ymd(y, m, d),
    ensures
        0 <= days_before_month(y, m) + (d - 1) < days_in_year(y),
{
    lemma_days_before_month_increases(y, 1, m);
    assert(days_before_month(y, m + 1) == days_before_month(y, m) + days_in_month(y, m));
    lemma_days_before_month_increases(y, m + 1, 13);
    lemma_days_before_month_full(y);
}

/// A valid date's day number lies between its year's start and end.
pub proof fn lemma_day_number_in_range(y: int, m: int, d: int)
    requires
        valid_ymd(y, m, d),
    ensures
        days_before_year(y) <= day_number_of(y, m, d) < days_before_year(y + 1),
        0 <= day_number_of(y, m, d) < day_number_limit(),
{
    lemma_day_offset_bounds(y, m, d);
    assert(days_before_year(y + 1) == days_before_year(y) + days_in_year(y));
    lemma_days_before_year_bounds(y);
    lemma_days_before_year_increases(y + 1, 10000);
}

/// The year a day number falls in.
pub open spec fn year_of_day(n: int) -> int {
    choose|y: int| 1 <= y && (#[trigger] days_before_year(y)) <= n < days_before_year(y + 1)
}

/// `year_of_day` is pinned down wherever a witness year exists.
pub proof fn lemma_year_of_day(y: int, n: int)
    requires
        1 <= y,
        days_before_year(y) <= n < days_before_year(y + 1),
    ensures
        year_of_day(n) == y,
{
    assert(exists|yy: int|
        1 <= yy && (#[trigger] days_before_year(yy)) <= n < days_before_year(yy + 1)) by {
        assert(1 <= y && days_before_year(y) <= n < days_before_year(y + 1));
    };
    let yc = year_of_day(n);
    if yc < y {
        lemma_days_before_year_increases(yc + 1, y);
        assert(false);
    } else if y < yc {
        lemma_days_before_year_increases(y + 1, yc);
        assert(false);
    }
}

pub fn leap_year(y: u32) -> (b: bool)
    ensures
        b == is_leap_year(y as int),
{
    y % 4 == 0 && (y % 100 != 0 || y % 400 == 0)
}

pub fn year_length(y: u32) -> (n: u32)
    ensures
        n == days_in_year(y as int),
{
    if leap_year(y) {
        366
    } else {
        365
    }
}

pub fn month_length(y: u32, m: u32) -> (n: u32)
    requires
        1 <= m <= 12,
    ensures
        n == days_in_month(y as int, m as int),
{
    if m == 2 {
        if leap_year(y) {
            29
        } else {
            28
        }
    } else if m == 4 || m == 6 || m == 9 || m == 11 {
        30
    } else {
        31
    }
}

pub fn days_before_year_num(y: u32) -> (n: u32)
    requires
        1 <= y <= 10000,
    ensures
        n == days_before_year(y as int),
{
    let mut i: u32 = 1;
    let mut acc: u32 = 0;
    while i < y
        invariant
            1 <= i <= y <= 10000,
            acc == days_before_year(i as int),
        decreases y - i,
    {
        proof {
            lemma_days_before_year_bounds(i as int);
        }
        acc = acc + year_length(i);
        i = i + 1;
    }
    acc
}

/// A date checked field by field: `Some` exactly on valid calendar dates.
pub fn from_ymd(year: u32, month: u32, day: u32) -> (r: Option<Date>)
    ensures
        r is Some <==> valid_ymd(year as int, month as int, day as int),
        r is Some ==> r->0 == (Date { year, month, day }),
{
    if 1 <= year && year <= 9999 && 1 <= month && month <= 12 && 1 <= day && day <= month_length(
        year,
        month,
    ) {
        Some(Date { year, month, day })
    } else {
        None
    }
}

/// The date with the given day number.
pub fn from_day_number(n: u32) -> (r: Date)
    requires
        n < day_number_limit(),
    ensures
        r.wf(),
        r.spec_day_number() == n,
{
    proof {
        lemma_days_before_year_bounds(10000);
    }
    let mut y: u32 = 1;
    let mut acc: u32 = 0;
    while acc + year_length(y) <= n
        invariant
            1 <= y <= 9999,
            acc == days_before_year(y as int),
            acc <= n < day_number_limit(),
            day_number_limit() <= 366 * 9999,
        decreases day_number_limit() - acc,
    {
        acc = acc + year_length(y);
        y = y + 1;
        proof {
            if y > 9999 {
                assert(days_before_year(10000) <= n);
                assert(false);
            }
        }
    }
    let doy: u32 = n - acc;
    proof {
        assert(doy < days_in_year(y as int));
    }
    let mut m: u32 = 1;
    let mut macc: u32 = 0;
    while macc + month_length(y, m) <= doy
        invariant
            1 <= m <= 12,
            1 <= y <= 9999,
            macc == days_before_month(y as int, m as int),
            macc <= doy,
            doy < days_in_year(y as int),
        decreases 12 - m,
    {
        macc = macc + month_length(y, m);
        m = m + 1;
        proof {
            if m > 12 {
                lemma_days_before_month_full(y as int);
                assert(false);
            }
        }
    }
    let d: u32 = doy - macc + 1;
    Date { year: y, month: m, day: d }
}

impl Date {
    /// Days since 0001-01-01.
    pub fn day_number(&self) -> (n: u32)
        requires
            self.wf(),
        ensures
            n == self.spec_day_number(),
            n < day_number_limit(),
    {
        proof {
            lemma_day_number_in_range(self.year as int, self.month as int, self.day as int);
            lemma_days_before_year_bounds(self.year as int);
        }
        let ybase: u32 = days_before_year_num(self.year);
        let mut m: u32 = 1;
        let mut acc: u32 = 0;
        while m < self.month
            invariant
                1 <= m <= self.month <= 12,
                self.wf(),
                acc == days_before_month(self.year as int, m as int),
                acc <= 366,
            decreases self.month - m,
        {
            proof {
                lemma_days_before_month_increases(self.year as int, m as int + 1, 13);
                lemma_days_before_month_full(self.year as int);
            }
            acc = acc + month_length(self.year, m);
            m = m + 1;
        }
        ybase + acc + (self.day - 1)
    }

    /// Days from Monday: 0 = Monday .. 6 = Sunday.
    pub fn weekday_from_monday(&self) -> (w: u32)
        requires
            self.wf(),
        ensures
            w == self.spec_day_number() % 7,
            w < 7,
    {
        self.day_number() % 7
    }

    /// The date `k` days later.
    pub fn add_days(&self, k: u32) -> (r: Date)
        requires
            self.wf(),
            self.spec_day_number() + k < day_number_limit(),
        ensures
            r.wf(),
            r.spec_day_number() == self.spec_day_number() + k,
    {
        proof {
            lemma_days_before_year_bounds(10000);
        }
        let n: u32 = self.day_number();
        from_day_number(n + k)
    }
}

/// Relies on chrono's `Utc::now().date_naive()` and the `Datelike`
/// accessors: `month()` is documented to range over 1..=12 and `day()` over
/// 1..=31.  Nothing else is assumed of the clock's answer.
#[verifier::external_body]
fn today_ymd_utc() -> (r: (i64, u32, u32))
    ensures
        1 <= r.1 <= 12,
        1 <= r.2 <= 31,
{
    let d = chrono::Utc::now().date_naive();
    (d.year() as i64, d.month(), d.day())
}

/// Today's date in UTC, when it lies in the representable year range.  The
/// clock decides the value; only its shape is checked here.
pub fn current_date() -> (r: Option<Date>)
    ensures
        r is Some ==> r->0.wf(),
{
    let (y, m, d): (i64, u32, u32) = today_ymd_utc();
    if y >= 1 && y <= 9999 {
        from_ymd(y as u32, m, d)
    } else {
        None
    }
}

/// Day number of the Monday of the week day `n` falls in.
pub open spec fn week_start_of(n: int) -> int {
    n - (n % 7)
}

/// Day number of the Thursday of the week day `n` falls in.
pub open spec fn iso_thursday_of(n: int) -> int {
    week_start_of(n) + 3
}

/// ISO year of day `n`: the year containing its week's Thursday.
pub open spec fn iso_year_of(n: int) -> int {
    year_of_day(iso_thursday_of(n))
}

/// ISO week number of day `n`: full weeks from the ISO year's start, plus one.
pub open spec fn iso_week_of(n: int) -> int {
    (iso_thursday_of(n) - days_before_year(iso_year_of(n))) / 7 + 1
}

/// A week's Monday is its own week start.
pub proof fn lemma_week_start_idempotent(n: int)
    ensures
        week_start_of(week_start_of(n)) == week_start_of(n),
        week_start_of(n) % 7 == 0,
{
    lemma_fundamental_div_mod(n, 7);
    lemma_mod_multiples_basic(n / 7, 7);
    assert(week_start_of(n) == (n / 7) * 7);
}

/// Law: moving the reference date a week ahead moves the week start exactly a
/// week ahead, so adjacent windows never overlap.
pub proof fn lemma_week_start_shift(n: int)
    ensures
        week_start_of(n + 7) == week_start_of(n) + 7,
{
    lemma_mod_add_multiples_vanish(n, 7);
    assert((n + 7) % 7 == n % 7);
}

impl Date {
    /// ISO 8601 (year, week) of this date.
    pub fn iso_year_week(&self) -> (r: (u32, u32))
        requires
            self.wf(),
            self.spec_day_number() + 3 < day_number_limit(),
        ensures
            r.0 == iso_year_of(self.spec_day_number()),
            r.1 == iso_week_of(self.spec_day_number()),
            1 <= r.0 <= 9999,
            1 <= r.1 <= 53,
    {
        let n: u32 = self.day_number();
        proof {
            lemma_mod_bound(n as int, 7);
        }
        let ws: u32 = n - n % 7;
        let thu: u32 = ws + 3;
        let td: Date = from_day_number(thu);
        proof {
            lemma_day_number_in_range(td.year as int, td.month as int, td.day as int);
            lemma_year_of_day(td.year as int, thu as int);
        }
        let jan1: u32 = days_before_year_num(td.year);
        let off: u32 = thu - jan1;
        proof {
            assert(days_before_year(td.year as int + 1) == days_before_year(td.year as int)
                + days_in_year(td.year as int));
            assert(off < 366);
            lemma_fundamental_div_mod(off as int, 7);
            lemma_mod_bound(off as int, 7);
        }
        let week: u32 = off / 7 + 1;
        (td.year, week)
    }
}

} // verus!
