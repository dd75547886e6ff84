//! Plain-value models of calendar dates and times of day.
//!
//! The store only ever compares, copies and formats these values; everything
//! it needs is a function of the fields below.  Validation (`Date::new`,
//! `Time::new`) happens at the input boundary: the store itself accepts
//! already-validated values, as the rest of the crate documents.

use vstd::prelude::*;

verus! {

/// A calendar date in the proleptic Gregorian calendar.
#[derive(Clone, Copy, PartialEq, Eq, Structural, Debug, Hash)]
pub struct Date {
    pub year: i32,
    pub month: u8,
    pub day: u8,
}

/// A time of day with minute precision (the tracker never records seconds).
#[derive(Clone, Copy, PartialEq, Eq, Structural, Debug, Hash)]
pub struct Time {
    pub hour: u8,
    pub minute: u8,
}

/// Strict chronological order on dates: lexicographic on (year, month, day).
pub open spec fn date_lt(a: Date, b: Date) -> bool {
    ||| a.year < b.year
    ||| (a.year == b.year && a.month < b.month)
    ||| (a.year == b.year && a.month == b.month && a.day < b.day)
}

pub open spec fn date_le(a: Date, b: Date) -> bool {
    date_lt(a, b) || a == b
}

/// Strict chronological order on times: lexicographic on (hour, minute).
pub open spec fn time_lt(a: Time, b: Time) -> bool {
    a.hour < b.hour || (a.hour == b.hour && a.minute < b.minute)
}

/// Minutes since midnight; the arithmetic model of a `Time`.
pub open spec fn minutes_of(t: Time) -> int {
    t.hour * 60 + t.minute
}

/// Leap-year rule, written on the year shifted by 10000 (a multiple of 400)
/// so that the same formula serves the whole supported year range without
/// taking the remainder of a negative number.
pub open spec fn is_leap_year(year: int) -> bool {
    let y = year + 10000;
    y % 4 == 0 && (y % 100 != 0 || y % 400 == 0)
}

pub open spec fn spec_days_in_month(year: int, month: int) -> int {
    if month == 2 {
        if is_leap_year(year) {
            29
        } else {
            28
        }
    } else if month == 4 || month == 6 || month == 9 || month == 11 {
        30
    } else {
        31
    }
}

impl Date {
    /// A date the calendar actually contains, within the supported year range.
    pub open spec fn wf(self) -> bool {
        &&& -9999 <= self.year <= 9999
        &&& 1 <= self.month <= 12
        &&& 1 <= self.day <= spec_days_in_month(self.year as int, self.month as int)
    }

    /// Validating constructor: `Some` exactly on well-formed dates.
    pub fn new(year: i32, month: u8, day: u8) -> (r: Option<Date>)
        ensures
            match r {
                Some(d) => d == (Date { year, month, day }) && d.wf(),
                None => !(Date { year, month, day }).wf(),
            },
    {
        let d = Date { year, month, day };
        if -9999 <= year && year <= 9999 && 1 <= month && month <= 12 && 1 <= day
            && day <= days_in_month(year, month) {
            Some(d)
        } else {
            None
        }
    }

    pub fn before(&self, other: &Date) -> (r: bool)
        ensures
            r == date_lt(*self, *other),
    {
        self.year < other.year || (self.year == other.year && (self.month < other.month || (
        self.month == other.month && self.day < other.day)))
    }
}

pub fn days_in_month(year: i32, month: u8) -> (r: u8)
    requires
        -9999 <= year <= 9999,
    ensures
        r == spec_days_in_month(year as int, month as int),
{
    if month == 2 {
        let y = (year + 10000) as u32;
        if y % 4 == 0 && (y % 100 != 0 || y % 400 == 0) {
            29
        } else {
            28
        }
    } else if month == 4 || month == 6 || month == 9 || month == 11 {
        30
    } else {
        31
    }
}

impl Time {
    pub open spec fn wf(self) -> bool {
        self.hour < 24 && self.minute < 60
    }

    /// Validating constructor: `Some` exactly on real times of day.
    pub fn new(hour: u8, minute: u8) -> (r: Option<Time>)
        ensures
            match r {
                Some(t) => t == (Time { hour, minute }) && t.wf(),
                None => !(Time { hour, minute }).wf(),
            },
    {
        if hour < 24 && minute < 60 {
            Some(Time { hour, minute })
        } else {
            None
        }
    }

    pub fn before(&self, other: &Time) -> (r: bool)
        ensures
            r == time_lt(*self, *other),
    {
        self.hour < other.hour || (self.hour == other.hour && self.minute < other.minute)
    }

    /// Minutes since midnight, the exec counterpart of `minutes_of`.
    pub fn total_minutes(&self) -> (r: u16)
        ensures
            r == minutes_of(*self),
    {
        self.hour as u16 * 60 + self.minute as u16
    }
}

/// Signed distance in minutes from `a` to `b` (negative when `b` is earlier).
pub fn minutes_between(a: &Time, b: &Time) -> (r: i32)
    ensures
        r == minutes_of(*b) - minutes_of(*a),
{
    b.total_minutes() as i32 - a.total_minutes() as i32
}

/// The time `len` minutes after `start`, wrapping around midnight; a
/// `start` beyond the clock face falls back to midnight.
pub open spec fn spec_add_wrap(start: Time, len: int) -> Time {
    if minutes_of(start) >= 1440 {
        Time { hour: 0, minute: 0 }
    } else {
        let m = (minutes_of(start) + len) % 1440;
        Time { hour: (m / 60) as u8, minute: (m % 60) as u8 }
    }
}

/// `start` shifted forward by `len` minutes, wrapping around midnight as
/// time-of-day arithmetic does.
pub fn add_minutes_wrapping(start: &Time, len: i32) -> (r: Time)
    requires
        -20000 <= len <= 20000,
    ensures
        r == spec_add_wrap(*start, len as int),
        r.wf(),
{
    let total = start.total_minutes() as i32;
    if total >= 1440 {
        // not a real time of day; fall back to midnight
        return Time { hour: 0, minute: 0 };
    }
    let shifted = (total + len + 20160) % 1440;
    let shifted = shifted as u16;
    assert(shifted == (minutes_of(*start) + len) % 1440) by {
        let m = minutes_of(*start) + len;
        assert((1440 * 14 + m) % 1440 == m % 1440) by {
            vstd::arithmetic::div_mod::lemma_mod_multiples_vanish(14, m, 1440);
        };
    };
    let t = Time { hour: (shifted / 60) as u8, minute: (shifted % 60) as u8 };
    t
}

/// Day of the week by the classical congruence, on the year shifted by
/// 10400 (a multiple of 400, which leaves the weekday cycle unchanged):
/// 0 is Saturday, 1 Sunday, 2 Monday, and so on.
pub open spec fn spec_weekday(d: Date) -> int {
    let m = if d.month < 3 {
        d.month + 12
    } else {
        d.month as int
    };
    let y = if d.month < 3 {
        d.year - 1 + 10400
    } else {
        d.year + 10400
    };
    let k = y % 100;
    let j = y / 100;
    (d.day + (13 * (m + 1)) / 5 + k + k / 4 + j / 4 + 5 * j) % 7
}

pub fn weekday(d: &Date) -> (r: u8)
    requires
        d.wf(),
    ensures
        r == spec_weekday(*d),
        r < 7,
{
    let m: u32 = if d.month < 3 {
        d.month as u32 + 12
    } else {
        d.month as u32
    };
    let y: u32 = if d.month < 3 {
        (d.year - 1 + 10400) as u32
    } else {
        (d.year + 10400) as u32
    };
    let k = y % 100;
    let j = y / 100;
    let h = (d.day as u32 + (13 * (m + 1)) / 5 + k + k / 4 + j / 4 + 5 * j) % 7;
    h as u8
}

/// The day after `d` in the calendar.
pub open spec fn spec_next_day(d: Date) -> Date {
    if d.day < spec_days_in_month(d.year as int, d.month as int) {
        Date { year: d.year, month: d.month, day: (d.day + 1) as u8 }
    } else if d.month < 12 {
        Date { year: d.year, month: (d.month + 1) as u8, day: 1 }
    } else {
        Date { year: (d.year + 1) as i32, month: 1, day: 1 }
    }
}

/// Exec counterpart of `spec_next_day`; `None` only at the calendar's end.
pub fn next_day(d: &Date) -> (r: Option<Date>)
    requires
        d.wf(),
    ensures
        match r {
            Some(n) => n == spec_next_day(*d) && n.wf(),
            None => *d == (Date { year: 9999, month: 12, day: 31 }),
        },
{
    let dim = days_in_month(d.year, d.month);
    if d.day < dim {
        Some(Date { year: d.year, month: d.month, day: d.day + 1 })
    } else if d.month < 12 {
        Some(Date { year: d.year, month: d.month + 1, day: 1 })
    } else if d.year < 9999 {
        Some(Date { year: d.year + 1, month: 1, day: 1 })
    } else {
        None
    }
}

/// A strictly increasing numbering of dates (strict on everything a `u8`
/// can hold, so it serves as a termination measure for calendar walks).
pub open spec fn date_scalar(d: Date) -> int {
    (d.year + 10000) * 65536 + d.month * 256 + d.day
}

/// How many week days (Monday to Friday) the span `a..=b` contains.
pub open spec fn spec_workdays(a: Date, b: Date) -> int
    decreases (if a.wf() && date_le(a, b) {
        date_scalar(b) - date_scalar(a) + 1
    } else {
        0int
    }),
{
    if !a.wf() || date_lt(b, a) {
        0
    } else {
        (if spec_is_weekend(a) {
            0int
        } else {
            1int
        }) + spec_workdays(spec_next_day(a), b)
    }
}

/// The count is non-negative and never exceeds the span's width in days.
pub proof fn lemma_workdays_bounds(a: Date, b: Date)
    ensures
        0 <= spec_workdays(a, b),
        spec_workdays(a, b) <= (if a.wf() && date_le(a, b) {
            date_scalar(b) - date_scalar(a) + 1
        } else {
            0int
        }),
    decreases (if a.wf() && date_le(a, b) {
        date_scalar(b) - date_scalar(a) + 1
    } else {
        0int
    }),
{
    if !a.wf() || date_lt(b, a) {
    } else {
        lemma_workdays_bounds(spec_next_day(a), b);
    }
}

pub open spec fn spec_is_weekend(d: Date) -> bool {
    spec_weekday(d) == 0 || spec_weekday(d) == 1
}

/// Whether the date falls on a Saturday or Sunday.
pub fn is_weekend(d: &Date) -> (r: bool)
    requires
        d.wf(),
    ensures
        r == spec_is_weekend(*d),
{
    let h = weekday(d);
    h == 0 || h == 1
}

} // verus!
