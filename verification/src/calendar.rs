//! Civil-calendar arithmetic on plain values: proleptic Gregorian dates
//! from 1970 on, day counts since the Unix epoch, and weekdays.
//!
//! Wall-clock dates are modelled here as year, month and day numbers so
//! that the recurrence logic can be reasoned about directly; only the
//! conversion between a local wall-clock datetime and an instant is left
//! to the timezone library (see `local_time`).

use vstd::prelude::*;

verus! {

/// Earliest year a date of this library may hold.
pub const MIN_YEAR: i32 = 1970;

/// Latest year accepted when a date is constructed from the outside.
pub const MAX_YEAR: i32 = 9999;

/// Internal headroom above `MAX_YEAR`: the recurrence searches step at
/// most a few hundred days or a hundred years past a constructed date.
pub const YEAR_CAP: i32 = 20000;

pub open spec fn is_leap_year(y: int) -> bool {
    (y % 4 == 0 && y % 100 != 0) || y % 400 == 0
}

pub open spec fn days_in_month_spec(y: int, m: int) -> int {
    if m == 2 {
        if is_leap_year(y) { 29 } else { 28 }
    } else if m == 4 || m == 6 || m == 9 || m == 11 {
        30
    } else {
        31
    }
}

/// A valid Gregorian date with a year this library can count from.
pub open spec fn valid_ymd(y: int, m: int, d: int) -> bool {
    &&& MIN_YEAR <= y
    &&& 1 <= m <= 12
    &&& 1 <= d <= days_in_month_spec(y, m)
}

pub open spec fn days_in_year(y: int) -> int {
    if is_leap_year(y) { 366 } else { 365 }
}

/// Days in the years from 1970 (inclusive) up to `y` (exclusive).
pub open spec fn days_before_year(y: int) -> int
    decreases y - MIN_YEAR,
{
    if y <= MIN_YEAR {
        0
    } else {
        days_before_year(y - 1) + days_in_year(y - 1)
    }
}

/// Days in the months of year `y` before month `m`.
pub open spec fn days_before_month(y: int, m: int) -> int
    decreases m,
{
    if m <= 1 {
        0
    } else {
        days_before_month(y, m - 1) + days_in_month_spec(y, m - 1)
    }
}

/// Days from 1970-01-01 to the given date.
pub open spec fn epoch_days(y: int, m: int, d: int) -> int {
    days_before_year(y) + days_before_month(y, m) + (d - 1)
}

pub proof fn lemma_days_before_year_nonneg(y: int)
    ensures
        days_before_year(y) >= 0,
        y > MIN_YEAR ==> days_before_year(y) >= 365 * (y - MIN_YEAR),
        days_before_year(y) <= 366 * (y - MIN_YEAR) || y <= MIN_YEAR,
    decreases y - MIN_YEAR,
{
    if y > MIN_YEAR {
        lemma_days_before_year_nonneg(y - 1);
    }
}

pub proof fn lemma_days_before_month_bounds(y: int, m: int)
    requires
        1 <= m <= 13,
    ensures
        0 <= days_before_month(y, m) <= 31 * (m - 1),
    decreases m,
{
    if m > 1 {
        lemma_days_before_month_bounds(y, m - 1);
    }
}

pub proof fn lemma_days_before_month_monotone(y: int, m1: int, m2: int)
    requires
        1 <= m1 <= m2 <= 13,
    ensures
        days_before_month(y, m1) <= days_before_month(y, m2),
    decreases m2 - m1,
{
    if m1 < m2 {
        lemma_days_before_month_monotone(y, m1, m2 - 1);
    }
}

/// The months of a year sum to its length.
pub proof fn lemma_year_month_sum(y: int)
    ensures
        days_before_month(y, 13) == days_in_year(y),
{
    assert(days_before_month(y, 1) == 0);
    assert(days_before_month(y, 2) == 31);
    assert(days_before_month(y, 3) == days_before_month(y, 2) + days_in_month_spec(y, 2));
    assert(days_before_month(y, 4) == days_before_month(y, 3) + 31);
    assert(days_before_month(y, 5) == days_before_month(y, 4) + 30);
    assert(days_before_month(y, 6) == days_before_month(y, 5) + 31);
    assert(days_before_month(y, 7) == days_before_month(y, 6) + 30);
    assert(days_before_month(y, 8) == days_before_month(y, 7) + 31);
    assert(days_before_month(y, 9) == days_before_month(y, 8) + 31);
    assert(days_before_month(y, 10) == days_before_month(y, 9) + 30);
    assert(days_before_month(y, 11) == days_before_month(y, 10) + 31);
    assert(days_before_month(y, 12) == days_before_month(y, 11) + 30);
    assert(days_before_month(y, 13) == days_before_month(y, 12) + 31);
}

/// A calendar day, year 1970 or later.
#[derive(Clone, Copy, Debug, PartialEq, Eq, Structural)]
pub struct CivilDate {
    pub year: i32,
    pub month: u8,
    pub day: u8,
}

impl CivilDate {
    /// The fields form a real Gregorian date within this library's range.
    pub open spec fn wf(self) -> bool {
        &&& valid_ymd(self.year as int, self.month as int, self.day as int)
        &&& self.year <= YEAR_CAP
    }

    /// Days from 1970-01-01 to this date.
    pub open spec fn days(self) -> int {
        epoch_days(self.year as int, self.month as int, self.day as int)
    }

    /// Weekday as days from Monday: Monday is 0, Sunday is 6.
    /// 1970-01-01 was a Thursday.
    pub open spec fn weekday_num(self) -> int {
        (self.days() + 3) % 7
    }

    /// Validating constructor; accepts years 1970 through 9999.
    pub fn new(year: i32, month: u8, day: u8) -> (r: Option<CivilDate>)
        ensures
            r is Some <==> (valid_ymd(year as int, month as int, day as int) && year <= MAX_YEAR),
            r is Some ==> r->0 == (CivilDate { year, month, day }),
            r is Some ==> r->0.wf(),
    {
        if year < MIN_YEAR || year > MAX_YEAR || month < 1 || month > 12 {
            return None;
        }
        if day < 1 || day > days_in_month(year, month) {
            return None;
        }
        Some(CivilDate { year, month, day })
    }
}

pub fn is_leap(y: i32) -> (r: bool)
    ensures
        r == is_leap_year(y as int),
{
    (y % 4 == 0 && y % 100 != 0) || y % 400 == 0
}

pub fn days_in_month(y: i32, m: u8) -> (r: u8)
    ensures
        r == days_in_month_spec(y as int, m as int),
{
    if m == 2 {
        if is_leap(y) { 29 } else { 28 }
    } else if m == 4 || m == 6 || m == 9 || m == 11 {
        30
    } else {
        31
    }
}

/// Day count from 1970-01-01 to the given date.
pub fn to_epoch_days(date: &CivilDate) -> (r: u64)
    requires
        date.wf(),
    ensures
        r == date.days(),
        r <= 367 * (YEAR_CAP - MIN_YEAR + 1),
{
    let mut acc: u64 = 0;
    let mut y: i32 = MIN_YEAR;
    while y < date.year
        invariant
            MIN_YEAR <= y <= date.year,
            date.wf(),
            acc == days_before_year(y as int),
            acc <= 366 * (y - MIN_YEAR),
        decreases date.year - y,
    {
        let len: u64 = if is_leap(y) { 366 } else { 365 };
        acc = acc + len;
        y = y + 1;
    }
    let mut m: u8 = 1;
    proof {
        lemma_days_before_year_nonneg(date.year as int);
    }
    while m < date.month
        invariant
            1 <= m <= date.month,
            date.wf(),
            acc == days_before_year(date.year as int) + days_before_month(
                date.year as int,
                m as int,
            ),
        decreases date.month - m,
    {
        proof {
            lemma_days_before_year_nonneg(date.year as int);
            lemma_days_before_month_bounds(date.year as int, m as int);
            lemma_days_before_month_bounds(date.year as int, m + 1);
        }
        acc = acc + days_in_month(date.year, m) as u64;
        m = m + 1;
    }
    proof {
        lemma_days_before_year_nonneg(date.year as int);
        lemma_days_before_month_bounds(date.year as int, date.month as int);
    }
    acc + (date.day - 1) as u64
}

/// The following calendar day.
pub fn next_day(date: &CivilDate) -> (r: CivilDate)
    requires
        date.wf(),
        date.year < YEAR_CAP,
    ensures
        r.wf(),
        r.days() == date.days() + 1,
        r.year <= date.year + 1,
{
    let dim = days_in_month(date.year, date.month);
    if date.day < dim {
        CivilDate { year: date.year, month: date.month, day: date.day + 1 }
    } else if date.month < 12 {
        CivilDate { year: date.year, month: date.month + 1, day: 1 }
    } else {
        proof {
            lemma_year_month_sum(date.year as int);
        }
        CivilDate { year: date.year + 1, month: 1, day: 1 }
    }
}

/// The first day of the following month.
pub fn first_of_next_month(date: &CivilDate) -> (r: CivilDate)
    requires
        date.wf(),
        date.year < YEAR_CAP,
    ensures
        r.wf(),
        r.day == 1,
        r.days() > date.days(),
        r.year <= date.year + 1,
        date.month < 12 ==> r.year == date.year && r.month == date.month + 1,
        date.month == 12 ==> r.year == date.year + 1 && r.month == 1,
    {
    if date.month < 12 {
        let r = CivilDate { year: date.year, month: date.month + 1, day: 1 };
        proof {
            lemma_days_before_month_bounds(date.year as int, date.month as int);
            assert(days_before_month(r.year as int, r.month as int) == days_before_month(
                date.year as int,
                date.month as int,
            ) + days_in_month_spec(date.year as int, date.month as int));
        }
        r
    } else {
        let r = CivilDate { year: date.year + 1, month: 1, day: 1 };
        proof {
            lemma_year_month_sum(date.year as int);
        }
        r
    }
}

/// A day of the week.
#[derive(Clone, Copy, Debug, PartialEq, Eq, Structural)]
pub enum Weekday {
    Monday,
    Tuesday,
    Wednesday,
    Thursday,
    Friday,
    Saturday,
    Sunday,
}

impl Weekday {
    /// Days from Monday: Monday is 0, Sunday is 6.
    pub open spec fn num(self) -> int {
        match self {
            Weekday::Monday => 0,
            Weekday::Tuesday => 1,
            Weekday::Wednesday => 2,
            Weekday::Thursday => 3,
            Weekday::Friday => 4,
            Weekday::Saturday => 5,
            Weekday::Sunday => 6,
        }
    }

    /// Days from Monday, as a value.
    pub fn number(self) -> (r: u8)
        ensures
            r == self.num(),
    {
        match self {
            Weekday::Monday => 0,
            Weekday::Tuesday => 1,
            Weekday::Wednesday => 2,
            Weekday::Thursday => 3,
            Weekday::Friday => 4,
            Weekday::Saturday => 5,
            Weekday::Sunday => 6,
        }
    }
}

/// A month of the year.
#[derive(Clone, Copy, Debug, PartialEq, Eq, Structural)]
pub enum Month {
    January,
    February,
    March,
    April,
    May,
    June,
    July,
    August,
    September,
    October,
    November,
    December,
}

impl Month {
    /// Month number, January is 1.
    pub open spec fn num(self) -> int {
        match self {
            Month::January => 1,
            Month::February => 2,
            Month::March => 3,
            Month::April => 4,
            Month::May => 5,
            Month::June => 6,
            Month::July => 7,
            Month::August => 8,
            Month::September => 9,
            Month::October => 10,
            Month::November => 11,
            Month::December => 12,
        }
    }

    /// Month number, as a value.
    pub fn number(self) -> (r: u8)
        ensures
            r == self.num(),
    {
        match self {
            Month::January => 1,
            Month::February => 2,
            Month::March => 3,
            Month::April => 4,
            Month::May => 5,
            Month::June => 6,
            Month::July => 7,
            Month::August => 8,
            Month::September => 9,
            Month::October => 10,
            Month::November => 11,
            Month::December => 12,
        }
    }
}

/// Weekday of a date, as days from Monday.
pub fn weekday_num_of(date: &CivilDate) -> (r: u8)
    requires
        date.wf(),
    ensures
        r == date.weekday_num(),
        r < 7,
{
    let days = to_epoch_days(date);
    ((days + 3) % 7) as u8
}

} // verus!
