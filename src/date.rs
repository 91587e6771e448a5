//! Calendar dates, as the converter reads and prints them.
use vstd::prelude::*;
use vstd::string::StringExecFns;
use crate::amount::nat_text;
use crate::amount::write_nat;

verus! {

pub open spec fn is_leap_year(y: int) -> bool {
    (y % 4 == 0 && y % 100 != 0) || y % 400 == 0
}

pub open spec fn days_in_month(y: int, m: int) -> int {
    if m == 2 {
        if is_leap_year(y) {
            29
        } else {
            28
        }
    } else if m == 4 || m == 6 || m == 9 || m == 11 {
        30
    } else {
        31
    }
}

pub open spec fn is_valid_date(y: int, m: int, d: int) -> bool {
    1 <= m <= 12 && 1 <= d <= days_in_month(y, m)
}

/// A day of the proleptic Gregorian calendar.
#[derive(Debug, Clone, Copy, PartialEq, Eq, Structural)]
pub struct Date {
    year: i32,
    month: u32,
    day: u32,
}

/// A signed integer in decimal.
pub open spec fn int_text(y: int) -> Seq<char> {
    if y < 0 {
        "-"@ + nat_text((-y) as nat)
    } else {
        nat_text(y as nat)
    }
}

/// `D/M/YYYY`, without zero padding.
pub open spec fn date_text(d: Date) -> Seq<char> {
    nat_text(d.spec_day() as nat) + "/"@ + nat_text(d.spec_month() as nat) + "/"@ + int_text(
        d.spec_year(),
    )
}

impl Date {
    pub open spec fn wf(&self) -> bool {
        is_valid_date(self.spec_year(), self.spec_month(), self.spec_day())
    }

    pub closed spec fn spec_year(&self) -> int {
        self.year as int
    }

    pub closed spec fn spec_month(&self) -> int {
        self.month as int
    }

    pub closed spec fn spec_day(&self) -> int {
        self.day as int
    }

    /// The date of the given year, month (1 to 12) and day of month, where
    /// that day exists.
    pub fn new(year: i32, month: u32, day: u32) -> (r: Option<Date>)
        ensures
            r is Some <==> is_valid_date(year as int, month as int, day as int),
            r matches Some(d) ==> d.wf() && d.spec_year() == year && d.spec_month() == month
                && d.spec_day() == day,
    {
        let leap = (year % 4 == 0 && year % 100 != 0) || year % 400 == 0;
        let days: u32 = if month == 2 {
            if leap {
                29
            } else {
                28
            }
        } else if month == 4 || month == 6 || month == 9 || month == 11 {
            30
        } else {
            31
        };
        if 1 <= month && month <= 12 && 1 <= day && day <= days {
            Some(Date { year, month, day })
        } else {
            None
        }
    }

    pub fn year(&self) -> (r: i32)
        ensures
            r == self.spec_year(),
    {
        self.year
    }

    pub fn month(&self) -> (r: u32)
        ensures
            r == self.spec_month(),
    {
        self.month
    }

    pub fn day(&self) -> (r: u32)
        ensures
            r == self.spec_day(),
    {
        self.day
    }

    /// The date as `D/M/YYYY` (`"5/3/2021"`).
    pub fn to_text(&self) -> (r: String)
        ensures
            r@ == date_text(*self),
    {
        let mut out = String::new();
        write_nat(&mut out, self.day as u128);
        out.append("/");
        write_nat(&mut out, self.month as u128);
        out.append("/");
        if self.year < 0 {
            out.append("-");
            write_nat(&mut out, (-(self.year as i64)) as u128);
        } else {
            write_nat(&mut out, self.year as u128);
        }
        assert(out@ =~= date_text(*self));
        out
    }
}

} // verus!
