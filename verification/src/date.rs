//! Calendar dates at UTC midnight: validity in the proleptic Gregorian
//! calendar and the ISO `YYYY-MM-DD` rendering.

use vstd::prelude::*;
use crate::text::{pad2, pad2_string, pad4, pad4_string};

verus! {

/// A calendar date, understood at UTC midnight. Parsed dates carry a
/// four-digit year and two-digit month and day.
#[derive(Debug, Clone, Copy, PartialEq, Eq, Structural)]
pub struct Date {
    pub year: u32,
    pub month: u32,
    pub day: u32,
}

/// A leap year of the proleptic Gregorian calendar.
pub open spec fn spec_is_leap_year(y: int) -> bool {
    y % 4 == 0 && (y % 100 != 0 || y % 400 == 0)
}

/// The number of days in a month of a year.
pub open spec fn spec_days_in_month(y: int, m: int) -> int {
    if m == 2 {
        if spec_is_leap_year(y) {
            29
        } else {
            28
        }
    } else if m == 4 || m == 6 || m == 9 || m == 11 {
        30
    } else {
        31
    }
}

/// Whether year, month, and day name an existing calendar date.
pub open spec fn spec_valid_date(y: int, m: int, d: int) -> bool {
    1 <= m <= 12 && 1 <= d <= spec_days_in_month(y, m)
}

/// The ISO rendering of a date: zero-padded year, month, and day joined by
/// dashes.
pub open spec fn spec_date_string(dt: Date) -> Seq<char> {
    pad4(dt.year as int) + "-"@ + pad2(dt.month as int) + "-"@ + pad2(dt.day as int)
}

impl Date {
    /// Builds a date when the components name an existing calendar date.
    pub fn new(year: u32, month: u32, day: u32) -> (r: Option<Date>)
        ensures
            match r {
                Some(dt) => spec_valid_date(year as int, month as int, day as int) && dt == (Date {
                    year,
                    month,
                    day,
                }),
                None => !spec_valid_date(year as int, month as int, day as int),
            },
    {
        if month < 1 || month > 12 {
            return None;
        }
        let days: u32 = if month == 2 {
            if year % 4 == 0 && (year % 100 != 0 || year % 400 == 0) {
                29
            } else {
                28
            }
        } else if month == 4 || month == 6 || month == 9 || month == 11 {
            30
        } else {
            31
        };
        if day < 1 || day > days {
            return None;
        }
        Some(Date { year, month, day })
    }

    /// The `YYYY-MM-DD` rendering of this date.
    pub fn to_text(&self) -> (r: String)
        requires
            self.year <= 9999,
            self.month <= 99,
            self.day <= 99,
        ensures
            r@ == spec_date_string(*self),
    {
        let mut out = pad4_string(self.year);
        out.append("-");
        out.append(pad2_string(self.month).as_str());
        out.append("-");
        out.append(pad2_string(self.day).as_str());
        proof {
            assert(out@ =~= spec_date_string(*self));
        }
        out
    }
}

} // verus!
