//! Calendar dates and the day-boundary step: a day-fetch is bounded to the
//! half-open window from one midnight to the next, so the upper bound of
//! the window is the following calendar day.

use vstd::prelude::*;
use vstd::string::StringExecFns;

verus! {

/// The decimal digit character for a value below ten.
pub open spec fn digit_char(d: int) -> char {
    if d == 0 {
        '0'
    } else if d == 1 {
        '1'
    } else if d == 2 {
        '2'
    } else if d == 3 {
        '3'
    } else if d == 4 {
        '4'
    } else if d == 5 {
        '5'
    } else if d == 6 {
        '6'
    } else if d == 7 {
        '7'
    } else if d == 8 {
        '8'
    } else {
        '9'
    }
}

/// The decimal digit as text.
fn digit_str(d: u32) -> (r: &'static str)
    requires
        d < 10,
    ensures
        r@ == seq![digit_char(d as int)],
{
    proof {
        reveal_strlit("0");
        reveal_strlit("1");
        reveal_strlit("2");
        reveal_strlit("3");
        reveal_strlit("4");
        reveal_strlit("5");
        reveal_strlit("6");
        reveal_strlit("7");
        reveal_strlit("8");
        reveal_strlit("9");
    }
    if d == 0 {
        "0"
    } else if d == 1 {
        "1"
    } else if d == 2 {
        "2"
    } else if d == 3 {
        "3"
    } else if d == 4 {
        "4"
    } else if d == 5 {
        "5"
    } else if d == 6 {
        "6"
    } else if d == 7 {
        "7"
    } else if d == 8 {
        "8"
    } else {
        "9"
    }
}

/// A calendar date in the proleptic Gregorian calendar, UTC.
#[derive(Clone, Copy, Debug, PartialEq, Eq, Structural)]
pub struct Date {
    pub year: u32,
    pub month: u32,
    pub day: u32,
}

/// A Gregorian leap year: divisible by four, except centuries not divisible
/// by four hundred.
pub open spec fn is_leap_year(y: u32) -> bool {
    (y % 4 == 0 && y % 100 != 0) || y % 400 == 0
}

/// The number of days of month `m` in year `y`.
pub open spec fn days_in_month(y: u32, m: u32) -> u32 {
    if m == 2 {
        if is_leap_year(y) {
            29
        } else {
            28
        }
    } else if m == 4 || m == 6 || m == 9 || m == 11 {
        30
    } else {
        31
    }
}

impl Date {
    /// A well-formed calendar date. The year is kept below ten thousand so
    /// that dates stay within the four-digit range the data hub's textual
    /// queries use.
    pub open spec fn well_formed(self) -> bool {
        &&& 1 <= self.year <= 9999
        &&& 1 <= self.month <= 12
        &&& 1 <= self.day <= days_in_month(self.year, self.month)
    }

    /// Whether this year is a Gregorian leap year.
    pub fn leap_year(&self) -> (r: bool)
        ensures
            r == is_leap_year(self.year),
    {
        (self.year % 4 == 0 && self.year % 100 != 0) || self.year % 400 == 0
    }

    /// The number of days of this date's month.
    pub fn month_length(&self) -> (r: u32)
        ensures
            r == days_in_month(self.year, self.month),
    {
        if self.month == 2 {
            if self.leap_year() {
                29
            } else {
                28
            }
        } else if self.month == 4 || self.month == 6 || self.month == 9 || self.month == 11 {
            30
        } else {
            31
        }
    }

    /// The date in ISO form: four year digits, two month digits and two day
    /// digits, zero-padded, dash-separated.
    pub open spec fn iso_seq(self) -> Seq<char> {
        seq![
            digit_char((self.year as int / 1000) % 10),
            digit_char((self.year as int / 100) % 10),
            digit_char((self.year as int / 10) % 10),
            digit_char(self.year as int % 10),
            '-',
            digit_char((self.month as int / 10) % 10),
            digit_char(self.month as int % 10),
            '-',
            digit_char((self.day as int / 10) % 10),
            digit_char(self.day as int % 10),
        ]
    }

    /// Writes the date in ISO form, the textual shape the data hub's range
    /// queries and the export file names use.
    pub fn iso_string(&self) -> (r: String)
        ensures
            r@ == self.iso_seq(),
    {
        proof {
            reveal_strlit("-");
        }
        let mut r = String::new();
        r.append(digit_str((self.year / 1000) % 10));
        r.append(digit_str((self.year / 100) % 10));
        r.append(digit_str((self.year / 10) % 10));
        r.append(digit_str(self.year % 10));
        r.append("-");
        r.append(digit_str((self.month / 10) % 10));
        r.append(digit_str(self.month % 10));
        r.append("-");
        r.append(digit_str((self.day / 10) % 10));
        r.append(digit_str(self.day % 10));
        proof {
            assert(r@ =~= self.iso_seq());
        }
        r
    }

    /// The calendar day after this one: the exclusive upper bound of this
    /// day's fetch window.
    pub fn next_day(&self) -> (r: Date)
        requires
            self.well_formed(),
            self.year < 9999 || self.month < 12 || self.day < 31,
        ensures
            r.well_formed(),
            self.day < days_in_month(self.year, self.month) ==> r == (Date {
                year: self.year,
                month: self.month,
                day: (self.day + 1) as u32,
            }),
            self.day == days_in_month(self.year, self.month) && self.month < 12 ==> r == (Date {
                year: self.year,
                month: (self.month + 1) as u32,
                day: 1,
            }),
            self.day == days_in_month(self.year, self.month) && self.month == 12 ==> r == (Date {
                year: (self.year + 1) as u32,
                month: 1,
                day: 1,
            }),
    {
        if self.day < self.month_length() {
            Date { year: self.year, month: self.month, day: self.day + 1 }
        } else if self.month < 12 {
            Date { year: self.year, month: self.month + 1, day: 1 }
        } else {
            Date { year: self.year + 1, month: 1, day: 1 }
        }
    }
}

} // verus!
