//! Calendar days of the proleptic Gregorian calendar.
//!
//! A [`CalendarDate`] is modelled by its day number: the count of days from
//! 0001-01-01, which is day 1. Its view is that number. Two dates are equal
//! exactly when their day numbers are, one lies before another exactly when
//! its day number is smaller, and the day after a date has the next number.

use crate::chrono_dates::{format_iso, local_today};
use crate::text::iso_text;
use vstd::prelude::*;

verus! {

/// The earliest year a [`CalendarDate`] can lie in.
pub const MIN_YEAR: i32 = -262143;

/// The latest year a [`CalendarDate`] can lie in.
pub const MAX_YEAR: i32 = 262142;

/// Whether `year` has a 29th of February.
pub open spec fn is_leap_year(year: int) -> bool {
    year % 4 == 0 && (year % 100 != 0 || year % 400 == 0)
}

/// The number of days of `month` in `year`; 0 where `month` is no month.
pub open spec fn days_in_month(year: int, month: int) -> int {
    if month == 2 {
        if is_leap_year(year) {
            29
        } else {
            28
        }
    } else if month == 4 || month == 6 || month == 9 || month == 11 {
        30
    } else if 1 <= month <= 12 {
        31
    } else {
        0
    }
}

/// Whether year, month and day name a day of the calendar within the
/// supported years.
pub open spec fn valid_ymd(year: int, month: int, day: int) -> bool {
    &&& MIN_YEAR <= year <= MAX_YEAR
    &&& 1 <= month <= 12
    &&& 1 <= day <= days_in_month(year, month)
}

/// The number of days from 0001-01-01 up to, but not including, the first
/// of January of `year`. Negative for years before 1.
pub open spec fn days_before_year(year: int) -> int {
    365 * (year - 1) + (year - 1) / 4 - (year - 1) / 100 + (year - 1) / 400
}

/// The number of days of `year` that lie before the first of `month`.
pub open spec fn days_before_month(year: int, month: int) -> int {
    let leap_day: int = if month > 2 && is_leap_year(year) {
        1
    } else {
        0
    };
    let common: int = if month <= 1 {
        0
    } else if month == 2 {
        31
    } else if month == 3 {
        59
    } else if month == 4 {
        90
    } else if month == 5 {
        120
    } else if month == 6 {
        151
    } else if month == 7 {
        181
    } else if month == 8 {
        212
    } else if month == 9 {
        243
    } else if month == 10 {
        273
    } else if month == 11 {
        304
    } else {
        334
    };
    common + leap_day
}

/// The running number of a day, counted from 0001-01-01 as day 1.
pub open spec fn day_number(year: int, month: int, day: int) -> int {
    days_before_year(year) + days_before_month(year, month) + day
}

/// The day number of the first day of [`MIN_YEAR`].
pub open spec fn first_day_number() -> int {
    day_number(MIN_YEAR as int, 1, 1)
}

/// The day number of the last day of [`MAX_YEAR`].
pub open spec fn last_day_number() -> int {
    day_number(MAX_YEAR as int, 12, 31)
}

/// A year is 365 days long, or 366 if it is a leap year.
pub proof fn lemma_year_length(year: int)
    ensures
        days_before_year(year + 1) == days_before_year(year) + if is_leap_year(year) {
            366int
        } else {
            365int
        },
{
}

/// Later years start later, by at least 365 days for each year between.
pub proof fn lemma_years_increase(earlier: int, later: int)
    requires
        earlier <= later,
    ensures
        days_before_year(later) >= days_before_year(earlier) + 365 * (later - earlier),
    decreases later - earlier,
{
    if earlier < later {
        lemma_years_increase(earlier, later - 1);
        lemma_year_length(later - 1);
    }
}

/// Of two days of the calendar, the one that comes first by year, then
/// month, then day has the smaller day number.
pub proof fn lemma_day_number_order(y1: int, m1: int, d1: int, y2: int, m2: int, d2: int)
    requires
        1 <= m1 <= 12,
        1 <= d1 <= days_in_month(y1, m1),
        1 <= m2 <= 12,
        1 <= d2 <= days_in_month(y2, m2),
        y1 < y2 || (y1 == y2 && (m1 < m2 || (m1 == m2 && d1 < d2))),
    ensures
        day_number(y1, m1, d1) < day_number(y2, m2, d2),
{
    if y1 < y2 {
        lemma_year_length(y1);
        lemma_years_increase(y1 + 1, y2);
    }
}

/// A calendar day: year, month and day of month, with no time of day.
///
/// Every value is a day that exists, in a year from [`MIN_YEAR`] to
/// [`MAX_YEAR`].
#[derive(Clone, Copy, Debug, PartialEq, Eq, Hash, Structural)]
pub struct CalendarDate {
    pub(crate) year: i32,
    pub(crate) month: u32,
    pub(crate) day: u32,
}

impl View for CalendarDate {
    type V = int;

    /// The day number of this date.
    open spec fn view(&self) -> int {
        day_number(self.spec_year() as int, self.spec_month() as int, self.spec_day() as int)
    }
}

impl CalendarDate {
    /// The year, for contracts and proofs.
    pub closed spec fn spec_year(&self) -> i32 {
        self.year
    }

    /// The month, for contracts and proofs.
    pub closed spec fn spec_month(&self) -> u32 {
        self.month
    }

    /// The day of the month, for contracts and proofs.
    pub closed spec fn spec_day(&self) -> u32 {
        self.day
    }

    /// Whether this is a day that exists, within the supported years. It
    /// holds of every date that executable code handles.
    #[verifier::type_invariant]
    pub open spec fn valid(self) -> bool {
        valid_ymd(self.year() as int, self.month() as int, self.day() as int)
    }

    /// The valid date with day number `n`, for `n` from
    /// [`first_day_number`] to [`last_day_number`].
    pub open spec fn at(n: int) -> CalendarDate {
        choose|d: CalendarDate| d.valid() && d@ == n
    }

    /// The written form `YYYY-MM-DD` of this date.
    pub open spec fn text(self) -> Seq<char> {
        iso_text(self.year() as int, self.month() as int, self.day() as int)
    }

    /// The current date by the clock and the time zone of the machine. Two
    /// calls may give different dates.
    pub fn today() -> (date: CalendarDate)
        ensures
            date.valid(),
    {
        local_today()
    }

    /// The date of the given year, month and day, or `None` if there is no
    /// such day or the year is not supported.
    pub fn from_ymd(year: i32, month: u32, day: u32) -> (r: Option<CalendarDate>)
        ensures
            r is Some <==> valid_ymd(year as int, month as int, day as int),
            r matches Some(d) ==> d.valid() && d.year() == year && d.month() == month && d.day()
                == day,
    {
        if year < MIN_YEAR || year > MAX_YEAR || month < 1 || month > 12 || day < 1 {
            return None;
        }
        if day > month_length(year, month) {
            return None;
        }
        Some(CalendarDate { year, month, day })
    }

    /// The year.
    #[verifier::when_used_as_spec(spec_year)]
    pub fn year(&self) -> (y: i32)
        ensures
            y == self.year(),
            self.valid(),
    {
        proof {
            use_type_invariant(self);
        }
        self.year
    }

    /// The month, from 1 to 12.
    #[verifier::when_used_as_spec(spec_month)]
    pub fn month(&self) -> (m: u32)
        ensures
            m == self.month(),
            self.valid(),
    {
        proof {
            use_type_invariant(self);
        }
        self.month
    }

    /// The day of the month, from 1.
    #[verifier::when_used_as_spec(spec_day)]
    pub fn day(&self) -> (d: u32)
        ensures
            d == self.day(),
            self.valid(),
    {
        proof {
            use_type_invariant(self);
        }
        self.day
    }

    /// Whether this date lies before `other`.
    pub fn is_before(&self, other: &CalendarDate) -> (b: bool)
        ensures
            b == (self@ < other@),
            self.valid(),
            other.valid(),
    {
        proof {
            use_type_invariant(self);
            use_type_invariant(other);
            let (y1, m1, d1) = (self.year as int, self.month as int, self.day as int);
            let (y2, m2, d2) = (other.year as int, other.month as int, other.day as int);
            if y1 < y2 || (y1 == y2 && (m1 < m2 || (m1 == m2 && d1 < d2))) {
                lemma_day_number_order(y1, m1, d1, y2, m2, d2);
            } else if !(y1 == y2 && m1 == m2 && d1 == d2) {
                lemma_day_number_order(y2, m2, d2, y1, m1, d1);
            }
        }
        self.year < other.year || (self.year == other.year && (self.month < other.month || (
        self.month == other.month && self.day < other.day)))
    }

    /// Whether this date is the day after `previous`.
    pub fn follows(&self, previous: &CalendarDate) -> (b: bool)
        ensures
            b == (self@ == previous@ + 1),
            self.valid(),
            previous.valid(),
    {
        proof {
            use_type_invariant(self);
            lemma_day_number_bounds(*self);
        }
        match previous.succ() {
            Some(next) => {
                proof {
                    if next@ == self@ {
                        lemma_same_day_number(next, *self);
                    }
                }
                next == *self
            },
            None => false,
        }
    }

    /// The written form `YYYY-MM-DD` of this date.
    pub fn to_text(&self) -> (text: String)
        ensures
            text@ == self.text(),
    {
        proof {
            use_type_invariant(self);
        }
        format_iso(*self)
    }

    /// The next day, or `None` after the last day of [`MAX_YEAR`].
    pub fn succ(&self) -> (r: Option<CalendarDate>)
        ensures
            self.valid(),
            r is None <==> self@ == last_day_number(),
            r matches Some(next) ==> next.valid() && next@ == self@ + 1,
    {
        proof {
            use_type_invariant(self);
            lemma_year_length(self.year as int);
            if !(self.year == MAX_YEAR && self.month == 12 && self.day == 31) {
                lemma_day_number_order(
                    self.year as int,
                    self.month as int,
                    self.day as int,
                    MAX_YEAR as int,
                    12,
                    31,
                );
            }
        }
        if self.day < month_length(self.year, self.month) {
            Some(CalendarDate { year: self.year, month: self.month, day: self.day + 1 })
        } else if self.month < 12 {
            Some(CalendarDate { year: self.year, month: self.month + 1, day: 1 })
        } else if self.year < MAX_YEAR {
            Some(CalendarDate { year: self.year + 1, month: 1, day: 1 })
        } else {
            None
        }
    }
}

/// Whether `year` is a leap year.
pub fn leap_year(year: i32) -> (b: bool)
    ensures
        b == is_leap_year(year as int),
{
    // Shifted by a multiple of 400, so that the remainders are taken of a
    // number that is not negative.
    let shifted: i64 = year as i64 + 4_000_000_000;
    shifted % 4 == 0 && (shifted % 100 != 0 || shifted % 400 == 0)
}

/// The number of days of `month` in `year`; 0 where `month` is no month.
pub fn month_length(year: i32, month: u32) -> (n: u32)
    ensures
        n == days_in_month(year as int, month as int),
{
    if month == 2 {
        if leap_year(year) {
            29
        } else {
            28
        }
    } else if month == 4 || month == 6 || month == 9 || month == 11 {
        30
    } else if 1 <= month && month <= 12 {
        31
    } else {
        0
    }
}

/// Valid dates with the same day number are the same date.
pub proof fn lemma_same_day_number(a: CalendarDate, b: CalendarDate)
    requires
        a.valid(),
        b.valid(),
        a@ == b@,
    ensures
        a == b,
{
    let (y1, m1, d1) = (a.year as int, a.month as int, a.day as int);
    let (y2, m2, d2) = (b.year as int, b.month as int, b.day as int);
    if y1 < y2 || (y1 == y2 && (m1 < m2 || (m1 == m2 && d1 < d2))) {
        lemma_day_number_order(y1, m1, d1, y2, m2, d2);
    } else if !(y1 == y2 && m1 == m2 && d1 == d2) {
        lemma_day_number_order(y2, m2, d2, y1, m1, d1);
    }
}

/// The day numbers of valid dates lie between the first and the last.
pub proof fn lemma_day_number_bounds(d: CalendarDate)
    requires
        d.valid(),
    ensures
        first_day_number() <= d@ <= last_day_number(),
{
    let (y, m, dd) = (d.year as int, d.month as int, d.day as int);
    if !(y == MIN_YEAR && m == 1 && dd == 1) {
        lemma_day_number_order(MIN_YEAR as int, 1, 1, y, m, dd);
    }
    if !(y == MAX_YEAR && m == 12 && dd == 31) {
        lemma_day_number_order(y, m, dd, MAX_YEAR as int, 12, 31);
    }
}

/// A valid date is the date at its own day number.
pub proof fn lemma_at_own_number(d: CalendarDate)
    requires
        d.valid(),
    ensures
        CalendarDate::at(d@) == d,
{
    let found = CalendarDate::at(d@);
    lemma_same_day_number(found, d);
}

/// The date at a day number within the supported days is a valid date with
/// that number: every such number is the number of a day.
pub proof fn lemma_day_is_at(n: int)
    requires
        first_day_number() <= n <= last_day_number(),
    ensures
        CalendarDate::at(n).valid(),
        CalendarDate::at(n)@ == n,
    decreases n - first_day_number(),
{
    if n == first_day_number() {
        let first = CalendarDate { year: MIN_YEAR, month: 1, day: 1 };
        assert(first.valid() && first@ == n);
    } else {
        lemma_day_is_at(n - 1);
        let before = CalendarDate::at(n - 1);
        let (y, m, d) = (before.year as int, before.month as int, before.day as int);
        lemma_year_length(y);
        if d < days_in_month(y, m) {
            let next = CalendarDate { year: before.year, month: before.month, day: (d + 1) as u32 };
            assert(next.valid() && next@ == n);
        } else if m < 12 {
            let next = CalendarDate { year: before.year, month: (m + 1) as u32, day: 1 };
            assert(next.valid() && next@ == n);
        } else {
            if y >= MAX_YEAR {
                assert(before@ == last_day_number());
            }
            let next = CalendarDate { year: (y + 1) as i32, month: 1, day: 1 };
            assert(next.valid() && next@ == n);
        }
    }
}

} // verus!
