//! Days of the calendar and the date-time words of a table.

use vstd::prelude::*;
use crate::{Error, Failure};

verus! {

/// `chrono::NaiveDate`, of which the library only asks whether one exists.
#[verifier::external_type_specification]
#[verifier::external_body]
pub struct ExNaiveDate(chrono::NaiveDate);

/// Whether a year of the Gregorian calendar has a 29th of February.
pub open spec fn is_leap_year(year: int) -> bool {
    year % 4 == 0 && (year % 100 != 0 || year % 400 == 0)
}

/// How many days a month has in a year.
pub open spec fn days_in_month(year: int, month: int) -> int {
    if month == 2 {
        if is_leap_year(year) {
            29
        } else {
            28
        }
    } else if month == 4 || month == 6 || month == 9 || month == 11 {
        30
    } else {
        31
    }
}

/// Whether year, month and day name a day of the proleptic Gregorian
/// calendar within the years that `chrono` can hold.
pub open spec fn is_calendar_date(year: int, month: int, day: int) -> bool {
    &&& -262143 <= year <= 262142
    &&& 1 <= month <= 12
    &&& 1 <= day <= days_in_month(year, month)
}

/// Calls `chrono::NaiveDate::from_ymd_opt`, which gives a date exactly when
/// the year is one that `NaiveDate` can hold, the month is one of the twelve
/// and the day is one of that month in that year.
#[verifier::external_body]
pub(crate) fn calendar_date(year: i32, month: u32, day: u32) -> (d: Option<chrono::NaiveDate>)
    ensures
        d.is_some() == is_calendar_date(year as int, month as int, day as int),
{
    chrono::NaiveDate::from_ymd_opt(year, month, day)
}

/// A day of the calendar, as a Date field holds it: a year of at most four
/// digits, a month and a day that exists in it.
#[derive(Debug, Clone, Copy, PartialEq, Eq)]
pub struct Date {
    year: u32,
    month: u32,
    day: u32,
}

/// Whether year, month and day can stand in a Date field.
pub open spec fn is_table_date(year: int, month: int, day: int) -> bool {
    0 <= year <= 9999 && is_calendar_date(year, month, day)
}

impl Date {
    /// The year of the date.
    pub closed spec fn spec_year(self) -> int {
        self.year as int
    }

    /// The month of the date, from 1 to 12.
    pub closed spec fn spec_month(self) -> int {
        self.month as int
    }

    /// The day of the month, from 1 on.
    pub closed spec fn spec_day(self) -> int {
        self.day as int
    }

    /// The date with this year, month and day.
    pub closed spec fn of(year: int, month: int, day: int) -> Date {
        Date { year: year as u32, month: month as u32, day: day as u32 }
    }

    /// What every `Date` that the library hands out satisfies.
    pub open spec fn wf(self) -> bool {
        is_table_date(self.spec_year(), self.spec_month(), self.spec_day())
    }

    #[verifier::type_invariant]
    closed spec fn inv(self) -> bool {
        is_table_date(self.year as int, self.month as int, self.day as int)
    }

    /// The day `day` of month `month` of year `year`, if the calendar has it
    /// and the year has at most four digits.
    pub fn new(day: u32, month: u32, year: u32) -> (r: Result<Date, Error>)
        ensures
            r.is_ok() == is_table_date(year as int, month as int, day as int),
            r matches Ok(d) ==> d == Date::of(year as int, month as int, day as int) && d.wf(),
            r matches Err(e) ==> e@ == Failure::InvalidDate,
    {
        if year > 9999 {
            return Err(Error::InvalidDate);
        }
        match calendar_date(year as i32, month, day) {
            Some(_) => Ok(Date { year, month, day }),
            None => Err(Error::InvalidDate),
        }
    }

    /// The year of the date.
    pub fn year(&self) -> (y: u32)
        ensures
            y == self.spec_year(),
            self.wf(),
    {
        proof {
            use_type_invariant(self);
        }
        self.year
    }

    /// The month of the date, from 1 to 12.
    pub fn month(&self) -> (m: u32)
        ensures
            m == self.spec_month(),
            self.wf(),
    {
        proof {
            use_type_invariant(self);
        }
        self.month
    }

    /// The day of the month, from 1 on.
    pub fn day(&self) -> (d: u32)
        ensures
            d == self.spec_day(),
            self.wf(),
    {
        proof {
            use_type_invariant(self);
        }
        self.day
    }
}

/// A date is the date made of its year, month and day.
pub proof fn lemma_date_parts(d: Date)
    ensures
        d == Date::of(d.spec_year(), d.spec_month(), d.spec_day()),
        0 <= d.spec_year() <= u32::MAX,
        0 <= d.spec_month() <= u32::MAX,
        0 <= d.spec_day() <= u32::MAX,
{
}

/// The Julian day number of the first day that a Date field can hold, the
/// first of January of the year 0.
pub const FIRST_JULIAN_DAY: u32 = 1721060;

/// The Julian day number of the last day that a Date field can hold, the
/// last of December of the year 9999.
pub const LAST_JULIAN_DAY: u32 = 5373484;

/// The milliseconds of a day.
pub const MILLISECONDS_PER_DAY: u32 = 86_400_000;

/// The Julian day number of a day of the Gregorian calendar: the count of
/// days since noon of the first of January 4713 BC in the Julian calendar.
#[verifier::opaque]
pub open spec fn julian_day_number(year: int, month: int, day: int) -> int {
    let a = (14 - month) / 12;
    let y = year + 4800 - a;
    let m = month + 12 * a - 3;
    day + (153 * m + 2) / 5 + 365 * y + y / 4 - y / 100 + y / 400 - 32045
}

/// One for a leap year, nothing for another.
pub open spec fn leap_day(year: int) -> int {
    if is_leap_year(year) {
        1
    } else {
        0
    }
}

/// From the first of January of one year to that of the next it is 365
/// days, and one more in a leap year.
pub proof fn lemma_year_step(year: int)
    requires
        0 <= year,
    ensures
        julian_day_number(year + 1, 1, 1) == julian_day_number(year, 1, 1) + 365 + leap_day(year),
{
    reveal(julian_day_number);
    let x = year + 4799;
    assert((x + 1) / 4 - x / 4 == if (x + 1) % 4 == 0 {
        1int
    } else {
        0int
    });
    assert((x + 1) / 100 - x / 100 == if (x + 1) % 100 == 0 {
        1int
    } else {
        0int
    });
    assert((x + 1) / 400 - x / 400 == if (x + 1) % 400 == 0 {
        1int
    } else {
        0int
    });
    assert((x + 1) % 4 == year % 4);
    assert((x + 1) % 100 == year % 100);
    assert((x + 1) % 400 == year % 400);
    assert(year % 400 == 0 ==> year % 100 == 0);
    assert(year % 100 == 0 ==> year % 4 == 0);
}

/// From the first of one month to the first of the next it is as many days
/// as the month has.
pub proof fn lemma_month_step(year: int, month: int)
    requires
        0 <= year,
        1 <= month <= 11,
    ensures
        julian_day_number(year, month + 1, 1) == julian_day_number(year, month, 1) + days_in_month(
            year,
            month,
        ),
{
    reveal(julian_day_number);
    if month == 2 {
        let x = year + 4799;
        assert((x + 1) / 4 - x / 4 == if (x + 1) % 4 == 0 {
            1int
        } else {
            0int
        });
        assert((x + 1) / 100 - x / 100 == if (x + 1) % 100 == 0 {
            1int
        } else {
            0int
        });
        assert((x + 1) / 400 - x / 400 == if (x + 1) % 400 == 0 {
            1int
        } else {
            0int
        });
        assert((x + 1) % 4 == year % 4);
        assert((x + 1) % 100 == year % 100);
        assert((x + 1) % 400 == year % 400);
        assert(year % 400 == 0 ==> year % 100 == 0);
        assert(year % 100 == 0 ==> year % 4 == 0);
    }
}

/// From the first of December to the first of January it is 31 days.
pub proof fn lemma_december(year: int)
    requires
        0 <= year,
    ensures
        julian_day_number(year + 1, 1, 1) == julian_day_number(year, 12, 1) + 31,
{
    reveal(julian_day_number);
}

/// The days of a month follow one another.
pub proof fn lemma_day_step(year: int, month: int, day: int)
    ensures
        julian_day_number(year, month, day) == julian_day_number(year, month, 1) + day - 1,
{
    reveal(julian_day_number);
}

/// Where the first and the last day that a Date field can hold lie.
pub proof fn lemma_julian_day_bounds()
    ensures
        julian_day_number(0, 1, 1) == FIRST_JULIAN_DAY,
        julian_day_number(9999, 12, 1) + 30 == LAST_JULIAN_DAY,
        julian_day_number(10000, 1, 1) == LAST_JULIAN_DAY + 1,
{
    reveal(julian_day_number);
}

/// The first of January of a year lies 365 to 366 days a year behind that
/// of the year 0.
pub proof fn lemma_year_start(year: int)
    requires
        0 <= year,
    ensures
        FIRST_JULIAN_DAY + 365 * year <= julian_day_number(year, 1, 1) <= FIRST_JULIAN_DAY + 366
            * year,
    decreases year,
{
    lemma_julian_day_bounds();
    if year > 0 {
        lemma_year_start(year - 1);
        lemma_year_step(year - 1);
    }
}

/// Later years start later.
pub proof fn lemma_years_ordered(earlier: int, later: int)
    requires
        0 <= earlier <= later,
    ensures
        julian_day_number(earlier, 1, 1) <= julian_day_number(later, 1, 1),
        earlier < later ==> julian_day_number(earlier + 1, 1, 1) <= julian_day_number(later, 1, 1),
    decreases later - earlier,
{
    if earlier < later {
        lemma_years_ordered(earlier, later - 1);
        lemma_year_step(later - 1);
    }
}

/// A day lies in its month, and its month in its year.
pub proof fn lemma_day_in_year(year: int, month: int, day: int)
    requires
        0 <= year,
        1 <= month <= 12,
        1 <= day <= days_in_month(year, month),
    ensures
        julian_day_number(year, month, day) == julian_day_number(year, month, 1) + day - 1,
        julian_day_number(year, 1, 1) <= julian_day_number(year, month, 1),
        julian_day_number(year, month, day) < julian_day_number(year + 1, 1, 1),
        month < 12 ==> julian_day_number(year, month, day) < julian_day_number(year, month + 1, 1),
{
    lemma_day_step(year, month, day);
    lemma_month_step(year, 1);
    lemma_month_step(year, 2);
    lemma_month_step(year, 3);
    lemma_month_step(year, 4);
    lemma_month_step(year, 5);
    lemma_month_step(year, 6);
    lemma_month_step(year, 7);
    lemma_month_step(year, 8);
    lemma_month_step(year, 9);
    lemma_month_step(year, 10);
    lemma_month_step(year, 11);
    lemma_december(year);
}

/// No two days of the calendar have the same Julian day number.
pub proof fn lemma_julian_day_is_one_day(a: Date, b: Date)
    requires
        a.wf(),
        b.wf(),
        julian_day_number(a.spec_year(), a.spec_month(), a.spec_day()) == julian_day_number(
            b.spec_year(),
            b.spec_month(),
            b.spec_day(),
        ),
    ensures
        a == b,
{
    let (ya, ma, da) = (a.spec_year(), a.spec_month(), a.spec_day());
    let (yb, mb, db) = (b.spec_year(), b.spec_month(), b.spec_day());
    lemma_day_in_year(ya, ma, da);
    lemma_day_in_year(yb, mb, db);
    if ya < yb {
        lemma_years_ordered(ya, yb);
    }
    if yb < ya {
        lemma_years_ordered(yb, ya);
    }
    assert(ya == yb);
    lemma_month_step(ya, 1);
    lemma_month_step(ya, 2);
    lemma_month_step(ya, 3);
    lemma_month_step(ya, 4);
    lemma_month_step(ya, 5);
    lemma_month_step(ya, 6);
    lemma_month_step(ya, 7);
    lemma_month_step(ya, 8);
    lemma_month_step(ya, 9);
    lemma_month_step(ya, 10);
    lemma_month_step(ya, 11);
    assert(ma == mb);
}

/// The Julian day number of a day of the Gregorian calendar.
pub fn julian_day(year: u32, month: u32, day: u32) -> (n: u32)
    requires
        year <= 10000,
        1 <= month <= 12,
        1 <= day <= 31,
    ensures
        n == julian_day_number(year as int, month as int, day as int),
{
    proof {
        reveal(julian_day_number);
    }
    let a: u32 = (14 - month) / 12;
    let y: u32 = year + 4800 - a;
    let m: u32 = month + 12 * a - 3;
    day + (153 * m + 2) / 5 + 365 * y + y / 4 - y / 100 + y / 400 - 32045
}

impl Date {
    /// The Julian day number of the date.
    pub open spec fn spec_julian_day(self) -> int {
        julian_day_number(self.spec_year(), self.spec_month(), self.spec_day())
    }

    /// The Julian day number of the date.
    pub fn to_julian_day_number(&self) -> (n: u32)
        ensures
            n == self.spec_julian_day(),
            FIRST_JULIAN_DAY <= n <= LAST_JULIAN_DAY,
            self.wf(),
    {
        proof {
            use_type_invariant(self);
            lemma_julian_day_bounds();
            lemma_day_in_year(self.year as int, self.month as int, self.day as int);
            lemma_years_ordered(0, self.year as int);
            lemma_years_ordered(self.year as int + 1, 10000);
        }
        julian_day(self.year, self.month, self.day)
    }

    /// The date with the Julian day number `n`, if a Date field can hold
    /// it.
    pub fn from_julian_day_number(n: u32) -> (r: Option<Date>)
        ensures
            r.is_some() == (FIRST_JULIAN_DAY <= n <= LAST_JULIAN_DAY),
            r matches Some(date) ==> date.spec_julian_day() == n && date.wf(),
    {
        if n < FIRST_JULIAN_DAY || n > LAST_JULIAN_DAY {
            return None;
        }
        let mut year: u32 = (n - FIRST_JULIAN_DAY) / 366;
        proof {
            lemma_year_start(year as int);
        }
        while year < 9999 && julian_day(year + 1, 1, 1) <= n
            invariant
                year <= 9999,
                julian_day_number(year as int, 1, 1) <= n <= LAST_JULIAN_DAY,
            decreases 9999 - year,
        {
            year = year + 1;
        }
        let mut month: u32 = 1;
        while month < 12 && julian_day(year, month + 1, 1) <= n
            invariant
                year <= 9999,
                1 <= month <= 12,
                julian_day_number(year as int, month as int, 1) <= n,
            decreases 12 - month,
        {
            month = month + 1;
        }
        let first = julian_day(year, month, 1);
        let day: u32 = n - first + 1;
        proof {
            lemma_julian_day_bounds();
            if month < 12 {
                lemma_month_step(year as int, month as int);
            } else {
                lemma_december(year as int);
            }
            lemma_day_step(year as int, month as int, day as int);
        }
        Some(Date { year, month, day })
    }
}

/// A time of day.
#[derive(Debug, Clone, Copy, PartialEq, Eq, Structural)]
pub struct Time {
    pub hours: u32,
    pub minutes: u32,
    pub seconds: u32,
    pub milliseconds: u32,
}

impl Time {
    /// Whether the hours are below 24, the minutes and seconds below 60 and
    /// the milliseconds below 1000.
    pub open spec fn wf(self) -> bool {
        self.hours < 24 && self.minutes < 60 && self.seconds < 60 && self.milliseconds < 1000
    }

    /// The milliseconds from midnight to the time.
    pub open spec fn spec_since_midnight(self) -> int {
        ((self.hours * 60 + self.minutes) * 60 + self.seconds) * 1000 + self.milliseconds
    }

    /// The milliseconds from midnight to the time, if it is a time of day.
    pub fn since_midnight(&self) -> (r: Option<u32>)
        ensures
            r.is_some() == self.wf(),
            r matches Some(ms) ==> ms == self.spec_since_midnight() && ms < MILLISECONDS_PER_DAY,
    {
        if self.hours < 24 && self.minutes < 60 && self.seconds < 60 && self.milliseconds < 1000 {
            Some(((self.hours * 60 + self.minutes) * 60 + self.seconds) * 1000 + self.milliseconds)
        } else {
            None
        }
    }

    /// The time that lies `ms` milliseconds behind midnight, if that is
    /// within the day.
    pub fn from_milliseconds(ms: u32) -> (r: Option<Time>)
        ensures
            r.is_some() == (ms < MILLISECONDS_PER_DAY),
            r matches Some(time) ==> time.wf() && time.spec_since_midnight() == ms,
    {
        if ms >= MILLISECONDS_PER_DAY {
            return None;
        }
        let seconds = ms / 1000;
        let minutes = seconds / 60;
        Some(
            Time {
                hours: minutes / 60,
                minutes: minutes % 60,
                seconds: seconds % 60,
                milliseconds: ms % 1000,
            },
        )
    }
}

/// The two words of a DateTime field: the Julian day number and the
/// milliseconds since midnight.
#[derive(Debug, Clone, Copy, PartialEq, Eq, Structural)]
pub struct DateTime {
    pub julian_day: u32,
    pub milliseconds: u32,
}

impl DateTime {
    /// The date-time of `time` on `date`, if `time` is a time of day.
    pub fn new(date: &Date, time: &Time) -> (r: Option<DateTime>)
        ensures
            r.is_some() == time.wf(),
            r matches Some(t) ==> t.julian_day == date.spec_julian_day() && t.milliseconds
                == time.spec_since_midnight(),
    {
        match time.since_midnight() {
            Some(milliseconds) => Some(
                DateTime { julian_day: date.to_julian_day_number(), milliseconds },
            ),
            None => None,
        }
    }

    /// The day, if it is one that a Date field can hold.
    pub fn date(&self) -> (r: Option<Date>)
        ensures
            r.is_some() == (FIRST_JULIAN_DAY <= self.julian_day <= LAST_JULIAN_DAY),
            r matches Some(date) ==> date.spec_julian_day() == self.julian_day && date.wf(),
    {
        Date::from_julian_day_number(self.julian_day)
    }

    /// The time of day, if the milliseconds are within the day.
    pub fn time(&self) -> (r: Option<Time>)
        ensures
            r.is_some() == (self.milliseconds < MILLISECONDS_PER_DAY),
            r matches Some(time) ==> time.wf() && time.spec_since_midnight() == self.milliseconds,
    {
        Time::from_milliseconds(self.milliseconds)
    }
}

} // verus!
