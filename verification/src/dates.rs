//! Civil-calendar arithmetic for the month picker: leap years, month
//! lengths, and whole-month navigation.

use vstd::prelude::*;

verus! {

/// Largest calendar year the month arithmetic works with.
pub const YEAR_MAX: i64 = 1_000_000;

/// A Gregorian leap year: divisible by four, except century years not
/// divisible by four hundred.
pub open spec fn spec_is_leap_year(y: int) -> bool {
    y % 4 == 0 && (y % 100 != 0 || y % 400 == 0)
}

/// How many days the month has.
pub open spec fn spec_days_in_month(y: int, m: int) -> int {
    if m == 2 {
        if spec_is_leap_year(y) {
            29
        } else {
            28
        }
    } else if m == 4 || m == 6 || m == 9 || m == 11 {
        30
    } else {
        31
    }
}

/// A calendar date: year, month and day of month.
#[derive(Clone, Copy, Debug, PartialEq, Eq, Structural)]
pub struct CivilDate {
    pub year: i64,
    pub month: u8,
    pub day: u8,
}

impl CivilDate {
    /// The date names a real day of a year in the working range.
    pub open spec fn valid(self) -> bool {
        &&& 0 <= self.year <= YEAR_MAX
        &&& 1 <= self.month <= 12
        &&& 1 <= self.day <= spec_days_in_month(self.year as int, self.month as int)
    }
}

/// Decide whether the year is a leap year.
pub fn is_leap_year(y: i64) -> (r: bool)
    requires
        0 <= y <= YEAR_MAX,
    ensures
        r == spec_is_leap_year(y as int),
{
    let y4 = (y as u64) % 4;
    let y100 = (y as u64) % 100;
    let y400 = (y as u64) % 400;
    y4 == 0 && (y100 != 0 || y400 == 0)
}

/// How many days the month has.
pub fn days_in_month(year: i64, month: u8) -> (r: u8)
    requires
        0 <= year <= YEAR_MAX,
        1 <= month <= 12,
    ensures
        r == spec_days_in_month(year as int, month as int),
        28 <= r <= 31,
{
    if month == 2 {
        if is_leap_year(year) {
            29
        } else {
            28
        }
    } else if month == 4 || month == 6 || month == 9 || month == 11 {
        30
    } else {
        31
    }
}

/// The first day of the date's month.
pub fn beginning_of_month(date: CivilDate) -> (r: CivilDate)
    requires
        date.valid(),
    ensures
        r == (CivilDate { day: 1, ..date }),
        r.valid(),
{
    CivilDate { year: date.year, month: date.month, day: 1 }
}

/// The last day of the date's month.
pub fn end_of_month(date: CivilDate) -> (r: CivilDate)
    requires
        date.valid(),
    ensures
        r == (CivilDate {
            day: spec_days_in_month(date.year as int, date.month as int) as u8,
            ..date
        }),
        r.valid(),
{
    CivilDate { year: date.year, month: date.month, day: days_in_month(date.year, date.month) }
}

/// Whether the two dates fall in the same month of the same year.
pub fn same_month(d1: CivilDate, d2: CivilDate) -> (r: bool)
    ensures
        r == (d1.year == d2.year && d1.month == d2.month),
{
    d1.year == d2.year && d1.month == d2.month
}

/// The date's month, counted in whole months from the working range's
/// start, so month navigation is plain arithmetic.
pub open spec fn month_index(d: CivilDate) -> int {
    d.year * 12 + d.month - 1
}

/// Step the month picker by whole months: forward lands on the first day
/// of the target month, backward on its last day, and zero keeps the date
/// (mirroring navigation that walks over month ends). Steps that would
/// leave the working year range are clamped to it.
pub fn month_offset(date: CivilDate, num_months: i64) -> (r: CivilDate)
    requires
        date.valid(),
        -1_000_000 <= num_months <= 1_000_000,
    ensures
        r.valid(),
        num_months == 0 ==> r == date,
        num_months != 0 ==> ({
            let target = month_index(date) + num_months;
            let clamped: int = if target < 0 {
                0
            } else if target > 12 * YEAR_MAX + 11 {
                12 * YEAR_MAX + 11
            } else {
                target
            };
            &&& month_index(r) == clamped
            &&& (num_months > 0 ==> r.day == 1)
            &&& (num_months < 0 ==> r.day == spec_days_in_month(r.year as int, r.month as int))
        }),
{
    if num_months == 0 {
        return date;
    }
    let target: i64 = date.year * 12 + (date.month as i64 - 1) + num_months;
    let clamped: i64 = if target < 0 {
        0
    } else if target > 12 * YEAR_MAX + 11 {
        12 * YEAR_MAX + 11
    } else {
        target
    };
    let year: i64 = ((clamped as u64) / 12u64) as i64;
    let month: u8 = (((clamped as u64) % 12u64) as u8) + 1;
    proof {
        vstd::arithmetic::div_mod::lemma_fundamental_div_mod(clamped as int, 12);
        vstd::arithmetic::div_mod::lemma_mod_bound(clamped as int, 12);
        vstd::arithmetic::div_mod::lemma_div_pos_is_pos(clamped as int, 12);
        vstd::arithmetic::div_mod::lemma_div_is_ordered(clamped as int, 12 * YEAR_MAX + 11, 12);
    }
    if num_months > 0 {
        CivilDate { year, month, day: 1 }
    } else {
        CivilDate { year, month, day: days_in_month(year, month) }
    }
}

} // verus!
