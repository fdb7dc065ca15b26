//! Calendar dates (year, month, day) with day-level arithmetic.
//!
//! Dates carry no time or time zone. The valid range is year 1 through 9999,
//! which is what the four-digit file-name format can represent.

use vstd::prelude::*;

verus! {

/// A calendar date. `valid` says when the fields name a real day.
#[derive(Clone, Copy, Debug, PartialEq, Eq, Structural)]
pub struct Date {
    pub year: u32,
    pub month: u32,
    pub day: u32,
}

pub open spec fn spec_is_leap_year(y: int) -> bool {
    (y % 4 == 0 && y % 100 != 0) || y % 400 == 0
}

pub open spec fn spec_days_in_month(y: int, m: int) -> int {
    if m == 2 {
        if spec_is_leap_year(y) {
            29
        } else {
            28
        }
    } else if m == 4 || m == 6 || m == 9 || m == 11 {
        30
    } else {
        31
    }
}

pub fn is_leap_year(y: u32) -> (r: bool)
    ensures
        r == spec_is_leap_year(y as int),
{
    (y % 4 == 0 && y % 100 != 0) || y % 400 == 0
}

pub fn days_in_month(y: u32, m: u32) -> (r: u32)
    ensures
        r == spec_days_in_month(y as int, m as int),
{
    if m == 2 {
        if is_leap_year(y) {
            29
        } else {
            28
        }
    } else if m == 4 || m == 6 || m == 9 || m == 11 {
        30
    } else {
        31
    }
}

/// Days in the months strictly before month `m` of year `y`.
pub open spec fn spec_days_before_month(y: int, m: int) -> int
    decreases m,
{
    if m <= 1 {
        0
    } else {
        spec_days_before_month(y, m - 1) + spec_days_in_month(y, m - 1)
    }
}

pub open spec fn spec_days_in_year(y: int) -> int {
    if spec_is_leap_year(y) {
        366
    } else {
        365
    }
}

/// Days in the years strictly before year `y` (counting from year 1).
pub open spec fn spec_days_before_year(y: int) -> int
    decreases y,
{
    if y <= 1 {
        0
    } else {
        spec_days_before_year(y - 1) + spec_days_in_year(y - 1)
    }
}

/// Position of a date on the day axis: day 1 is January 1 of year 1, and each
/// later date is one higher. Two valid dates are in calendar order exactly
/// when their day numbers are (`lemma_order_matches_day_number`).
pub open spec fn day_number(d: Date) -> int {
    spec_days_before_year(d.year as int) + spec_days_before_month(d.year as int, d.month as int)
        + d.day as int
}

/// Calendar order: year, then month, then day.
pub open spec fn spec_date_lt(a: Date, b: Date) -> bool {
    ||| a.year < b.year
    ||| (a.year == b.year && a.month < b.month)
    ||| (a.year == b.year && a.month == b.month && a.day < b.day)
}

pub open spec fn spec_date_le(a: Date, b: Date) -> bool {
    a == b || spec_date_lt(a, b)
}

proof fn lemma_year_length(y: int)
    ensures
        spec_days_before_month(y, 13) == spec_days_in_year(y),
{
    reveal_with_fuel(spec_days_before_month, 13);
}

proof fn lemma_days_before_month_monotone(y: int, m1: int, m2: int)
    requires
        m1 <= m2,
    ensures
        spec_days_before_month(y, m1) <= spec_days_before_month(y, m2),
    decreases m2 - m1,
{
    if m1 < m2 {
        lemma_days_before_month_monotone(y, m1, m2 - 1);
    }
}

proof fn lemma_days_before_year_monotone(y1: int, y2: int)
    requires
        y1 <= y2,
    ensures
        spec_days_before_year(y1) <= spec_days_before_year(y2),
    decreases y2 - y1,
{
    if y1 < y2 {
        lemma_days_before_year_monotone(y1, y2 - 1);
    }
}

/// A valid date's day number lies within its year's slice of the day axis.
proof fn lemma_day_number_in_year(d: Date)
    requires
        d.valid(),
    ensures
        spec_days_before_year(d.year as int) + 1 <= day_number(d),
        day_number(d) <= spec_days_before_year(d.year as int) + spec_days_in_year(d.year as int),
{
    let y = d.year as int;
    let m = d.month as int;
    assert(spec_days_before_month(y, m) >= 0) by {
        lemma_days_before_month_monotone(y, 1, m);
    }
    assert(spec_days_before_month(y, m) + d.day as int <= spec_days_before_month(y, m + 1));
    lemma_days_before_month_monotone(y, m + 1, 13);
    lemma_year_length(y);
}

/// Calendar order and day-number order agree on valid dates.
pub proof fn lemma_order_matches_day_number(a: Date, b: Date)
    requires
        a.valid(),
        b.valid(),
    ensures
        spec_date_lt(a, b) <==> day_number(a) < day_number(b),
        a == b <==> day_number(a) == day_number(b),
{
    if spec_date_lt(a, b) {
        lemma_lt_implies_day_number_lt(a, b);
    }
    if spec_date_lt(b, a) {
        lemma_lt_implies_day_number_lt(b, a);
    }
}

proof fn lemma_lt_implies_day_number_lt(a: Date, b: Date)
    requires
        a.valid(),
        b.valid(),
        spec_date_lt(a, b),
    ensures
        day_number(a) < day_number(b),
{
    let ya = a.year as int;
    let yb = b.year as int;
    if ya < yb {
        lemma_day_number_in_year(a);
        lemma_day_number_in_year(b);
        assert(spec_days_before_year(ya + 1) == spec_days_before_year(ya) + spec_days_in_year(ya));
        lemma_days_before_year_monotone(ya + 1, yb);
    } else if a.month < b.month {
        let ma = a.month as int;
        assert(spec_days_before_month(ya, ma) + a.day as int <= spec_days_before_month(ya, ma + 1));
        lemma_days_before_month_monotone(ya, ma + 1, b.month as int);
    }
}

/// The next calendar day, in spec form.
pub open spec fn spec_next_day(d: Date) -> Date {
    if d.day < spec_days_in_month(d.year as int, d.month as int) {
        Date { year: d.year, month: d.month, day: (d.day + 1) as u32 }
    } else if d.month < 12 {
        Date { year: d.year, month: (d.month + 1) as u32, day: 1 }
    } else {
        Date { year: (d.year + 1) as u32, month: 1, day: 1 }
    }
}

/// Stepping to the next day moves the day number up by exactly one.
pub proof fn lemma_next_day_number(d: Date)
    requires
        d.valid(),
        d.year < 9999 || d.month < 12 || d.day < 31,
    ensures
        spec_next_day(d).valid(),
        day_number(spec_next_day(d)) == day_number(d) + 1,
        spec_date_lt(d, spec_next_day(d)),
{
    let y = d.year as int;
    let m = d.month as int;
    if d.day < spec_days_in_month(y, m) {
    } else if d.month < 12 {
        assert(spec_days_before_month(y, m + 1) == spec_days_before_month(y, m)
            + spec_days_in_month(y, m));
    } else {
        assert(spec_days_before_month(y, 13) == spec_days_before_month(y, 12)
            + spec_days_in_month(y, 12));
        lemma_year_length(y);
        assert(spec_days_before_year(y + 1) == spec_days_before_year(y) + spec_days_in_year(y));
    }
}

impl Date {
    pub open spec fn valid(self) -> bool {
        &&& 1 <= self.year <= 9999
        &&& 1 <= self.month <= 12
        &&& 1 <= self.day <= spec_days_in_month(self.year as int, self.month as int)
    }

    /// Build a date, or `None` when the fields do not name a real day in
    /// years 1 through 9999.
    pub fn new(year: u32, month: u32, day: u32) -> (r: Option<Date>)
        ensures
            r is Some <==> (Date { year, month, day }).valid(),
            r matches Some(d) ==> d == (Date { year, month, day }),
    {
        if 1 <= year && year <= 9999 && 1 <= month && month <= 12 && 1 <= day && day
            <= days_in_month(year, month) {
            Some(Date { year, month, day })
        } else {
            None
        }
    }

    /// Calendar order, `self <= other`.
    pub fn le(&self, other: &Date) -> (r: bool)
        ensures
            r == spec_date_le(*self, *other),
    {
        if self.year != other.year {
            self.year < other.year
        } else if self.month != other.month {
            self.month < other.month
        } else {
            self.day <= other.day
        }
    }

    /// The day after `self`. The last representable day has no successor.
    pub fn next_day(&self) -> (r: Date)
        requires
            self.valid(),
            self.year < 9999 || self.month < 12 || self.day < 31,
        ensures
            r == spec_next_day(*self),
            r.valid(),
            day_number(r) == day_number(*self) + 1,
            spec_date_lt(*self, r),
    {
        proof {
            lemma_next_day_number(*self);
        }
        if self.day < days_in_month(self.year, self.month) {
            Date { year: self.year, month: self.month, day: self.day + 1 }
        } else if self.month < 12 {
            Date { year: self.year, month: self.month + 1, day: 1 }
        } else {
            Date { year: self.year + 1, month: 1, day: 1 }
        }
    }

    /// The day before `self`. The first representable day has no predecessor.
    pub fn prev_day(&self) -> (r: Date)
        requires
            self.valid(),
            self.year > 1 || self.month > 1 || self.day > 1,
        ensures
            r.valid(),
            day_number(r) == day_number(*self) - 1,
            spec_date_lt(r, *self),
    {
        let r = if self.day > 1 {
            Date { year: self.year, month: self.month, day: self.day - 1 }
        } else if self.month > 1 {
            Date { year: self.year, month: self.month - 1, day: days_in_month(self.year, self.month - 1) }
        } else {
            Date { year: self.year - 1, month: 12, day: 31 }
        };
        proof {
            lemma_next_day_number(r);
            assert(spec_next_day(r) == *self);
        }
        r
    }
}

/// Relies on `chrono::Local::now` and `chrono::Datelike`: the current local
/// calendar date, as year, month (1 through 12) and day of month (1 through
/// 31). The value depends on the machine's clock and time zone.
#[verifier::external_body]
fn local_today_ymd() -> (r: (i32, u32, u32))
    ensures
        1 <= r.1 <= 12,
        1 <= r.2 <= 31,
{
    let t = chrono::Local::now().date_naive();
    (chrono::Datelike::year(&t), chrono::Datelike::month(&t), chrono::Datelike::day(&t))
}

/// Today's local date, or `None` when the clock is outside the representable
/// years 1 through 9999.
pub fn today() -> (r: Option<Date>)
    ensures
        r matches Some(d) ==> d.valid(),
{
    let (y, m, d) = local_today_ymd();
    if 1 <= y && y <= 9999 {
        Date::new(y as u32, m, d)
    } else {
        None
    }
}

} // verus!
