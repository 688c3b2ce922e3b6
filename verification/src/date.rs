//! Calendar dates as plain values.
//!
//! A tick's canonical timestamp is its date combined with a fixed daily
//! valuation cut-off time. The cut-off is the same for every tick, so a
//! total order on dates is a total order on timestamps; `key_spec` encodes
//! that order in one integer.

use vstd::prelude::*;

verus! {

/// A calendar date with plain integer fields, so that contracts can speak
/// of it directly.
#[derive(Clone, Copy, PartialEq, Eq, Structural, Debug)]
pub struct Date {
    pub year: u16,
    pub month: u8,
    pub day: u8,
}

/// Whether `year` is a leap year of the Gregorian calendar.
pub open spec fn is_leap_year_spec(year: u16) -> bool {
    (year % 4 == 0 && year % 100 != 0) || year % 400 == 0
}

/// How many days the month has in that year, by the Gregorian calendar.
pub open spec fn days_in_month_spec(year: u16, month: u8) -> int {
    if month == 2 {
        if is_leap_year_spec(year) {
            29
        } else {
            28
        }
    } else if month == 4 || month == 6 || month == 9 || month == 11 {
        30
    } else {
        31
    }
}

/// How many days the month has in that year.
pub fn days_in_month(year: u16, month: u8) -> (d: u8)
    ensures
        d == days_in_month_spec(year, month),
{
    if month == 2 {
        if (year % 4 == 0 && year % 100 != 0) || year % 400 == 0 {
            29
        } else {
            28
        }
    } else if month == 4 || month == 6 || month == 9 || month == 11 {
        30
    } else {
        31
    }
}

impl Date {
    /// A real calendar date: the month exists, and the day exists in
    /// that month and year (so no February 30th, and a February 29th
    /// only in leap years).
    pub open spec fn is_valid(self) -> bool {
        1 <= self.month <= 12 && 1 <= self.day && self.day <= days_in_month_spec(
            self.year,
            self.month,
        )
    }

    /// Whether this is a real calendar date.
    pub fn check_valid(&self) -> (b: bool)
        ensures
            b == self.is_valid(),
    {
        1 <= self.month && self.month <= 12 && 1 <= self.day && self.day <= days_in_month(
            self.year,
            self.month,
        )
    }

    /// One integer whose order is the lexicographic order on
    /// (year, month, day). Months fit in 4 bits below 16 and days in
    /// 5 bits below 32, so the fields never borrow from each other.
    pub open spec fn key_spec(self) -> int {
        self.year * 512 + self.month * 32 + self.day
    }

    pub fn new(year: u16, month: u8, day: u8) -> (d: Date)
        ensures
            d == (Date { year, month, day }),
    {
        Date { year, month, day }
    }

    /// Encode the date as its order key.
    pub fn key(&self) -> (k: u32)
        ensures
            k == self.key_spec(),
    {
        (self.year as u32) * 512 + (self.month as u32) * 32 + (self.day as u32)
    }

    /// On valid dates the key order is exactly the date order: equal keys
    /// mean equal dates, and a smaller key means an earlier date.
    pub proof fn lemma_key_orders(a: Date, b: Date)
        requires
            a.is_valid(),
            b.is_valid(),
        ensures
            a.key_spec() == b.key_spec() <==> a == b,
            a.key_spec() < b.key_spec() <==> (a.year < b.year
                || (a.year == b.year && a.month < b.month)
                || (a.year == b.year && a.month == b.month && a.day < b.day)),
    {
    }
}

/// The month before `month` in the yearly cycle, wrapping from January
/// back to December.
pub open spec fn prev_month_spec(month: u8) -> u8 {
    if month == 1 {
        12u8
    } else {
        (month - 1) as u8
    }
}

/// The month before `month` in the yearly cycle, wrapping from January
/// back to December.
pub fn prev_month(month: u8) -> (m: u8)
    requires
        1 <= month <= 12,
    ensures
        m == prev_month_spec(month),
{
    if month == 1 {
        12
    } else {
        month - 1
    }
}

} // verus!
