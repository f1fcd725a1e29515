use vstd::prelude::*;

use crate::models::sentinel::Sentinel;
use crate::models::text::{date_text, format_date};

verus! {

/// A calendar day, counted in days since 1970-01-01.
#[derive(Debug, Clone, Copy, PartialEq, Eq, Structural, Hash, PartialOrd, Ord)]
pub struct Date(pub u32);

/// The day number of the proleptic Gregorian date `year-month-day`.
pub open spec fn days_from_civil(year: int, month: int, day: int) -> int {
    let y = if month <= 2 { year - 1 } else { year };
    let era = y / 400;
    let yoe = y - era * 400;
    let mp = if month > 2 { month - 3 } else { month + 9 };
    let doy = (153 * mp + 2) / 5 + day - 1;
    let doe = yoe * 365 + yoe / 4 - yoe / 100 + doy;
    era * 146097 + doe - 719468
}

/// The proleptic Gregorian date `(year, month, day)` of day number `z`
/// (days since 1970-01-01), computed era by era as the calendar repeats
/// every 400 years.
pub open spec fn civil_from_days(z: int) -> (int, int, int) {
    let epoch = z + 719468;
    let era = epoch / 146097;
    let doe = epoch % 146097;
    let yoe = (doe - doe / 1460 + doe / 36524 - doe / 146096) / 365;
    let doy = doe - (365 * yoe + yoe / 4 - yoe / 100);
    let mp = (5 * doy + 2) / 153;
    let day = doy - (153 * mp + 2) / 5 + 1;
    let month = if mp < 10 { mp + 3 } else { mp - 9 };
    let year = yoe + era * 400 + if month <= 2 { 1int } else { 0int };
    (year, month, day)
}

/// Every day from 1970-01-01 on has a valid calendar date, and that date
/// names the day again.
pub proof fn lemma_civil_date_roundtrip(z: int)
    requires
        0 <= z,
    ensures
        ({
            let (y, m, d) = civil_from_days(z);
            &&& 1 <= m <= 12
            &&& 1 <= d <= days_in_month(y, m)
            &&& days_from_civil(y, m, d) == z
        }),
{
    let epoch = z + 719468;
    let era = epoch / 146097;
    let doe = epoch % 146097;
    lemma_year_of_era(doe);
    let yoe = (doe - doe / 1460 + doe / 36524 - doe / 146096) / 365;
    let doy = doe - (365 * yoe + yoe / 4 - yoe / 100);
    let mp = (5 * doy + 2) / 153;
    assert(153 * mp <= 5 * doy + 2 && 5 * doy + 2 < 153 * mp + 153 && 0 <= mp <= 11) by (nonlinear_arith)
        requires
            mp == (5 * doy + 2) / 153,
            0 <= doy <= 365,
    ;
    let (y, m, d) = civil_from_days(z);
    let y0 = y - if m <= 2 { 1int } else { 0int };
    assert(y0 == yoe + era * 400);
    assert(y0 / 400 == era) by (nonlinear_arith)
        requires
            y0 == yoe + era * 400,
            0 <= yoe <= 399,
    ;
    assert(epoch == era * 146097 + doe) by (nonlinear_arith)
        requires
            era == epoch / 146097,
            doe == epoch % 146097,
            epoch >= 0,
    ;
    if mp == 11 {
        if doy == 365 {
            lemma_last_day_of_long_year(doe);
            assert(is_leap_year(y)) by (nonlinear_arith)
                requires
                    y == yoe + era * 400 + 1,
                    (yoe + 1) % 4 == 0 && ((yoe + 1) % 100 != 0 || (yoe + 1) % 400 == 0),
                    era >= 0,
            ;
        }
    }
}

/// `year` is a leap year of the Gregorian calendar.
pub open spec fn is_leap_year(year: int) -> bool {
    year % 4 == 0 && (year % 100 != 0 || year % 400 == 0)
}

/// The number of days of `month` in `year`.
pub open spec fn days_in_month(year: int, month: int) -> int {
    if month == 2 {
        if is_leap_year(year) {
            29
        } else {
            28
        }
    } else if month == 4 || month == 6 || month == 9 || month == 11 {
        30
    } else {
        31
    }
}

/// A day of the era that is the last of a 366-day year of the era falls in
/// a year whose following calendar year is a leap year.
proof fn lemma_last_day_of_long_year(doe: int)
    requires
        0 <= doe <= 146096,
        ({
            let yoe = (doe - doe / 1460 + doe / 36524 - doe / 146096) / 365;
            doe - (365 * yoe + yoe / 4 - yoe / 100) == 365
        }),
    ensures
        ({
            let yoe = (doe - doe / 1460 + doe / 36524 - doe / 146096) / 365;
            (yoe + 1) % 4 == 0 && ((yoe + 1) % 100 != 0 || (yoe + 1) % 400 == 0)
        }),
{
    assert({
        let yoe = (doe - doe / 1460 + doe / 36524 - doe / 146096) / 365;
        (yoe + 1) % 4 == 0 && ((yoe + 1) % 100 != 0 || (yoe + 1) % 400 == 0)
    }) by (nonlinear_arith)
        requires
            0 <= doe <= 146096,
            ({
                let yoe = (doe - doe / 1460 + doe / 36524 - doe / 146096) / 365;
                doe - (365 * yoe + yoe / 4 - yoe / 100) == 365
            }),
    ;
}

/// Bounds on the year of an era that the day-of-era formula gives.
proof fn lemma_year_of_era(doe: int)
    requires
        0 <= doe <= 146096,
    ensures
        ({
            let yoe = (doe - doe / 1460 + doe / 36524 - doe / 146096) / 365;
            let doy = doe - (365 * yoe + yoe / 4 - yoe / 100);
            &&& 0 <= yoe <= 399
            &&& 0 <= doy <= 365
        }),
{
    assert({
        let yoe = (doe - doe / 1460 + doe / 36524 - doe / 146096) / 365;
        let doy = doe - (365 * yoe + yoe / 4 - yoe / 100);
        &&& 0 <= yoe <= 399
        &&& 0 <= doy <= 365
    }) by (nonlinear_arith)
        requires
            0 <= doe <= 146096,
    ;
}

impl Sentinel for Date {
    open spec fn spec_none() -> Self {
        Date(u32::MAX)
    }

    fn none() -> (r: Self) {
        Date(u32::MAX)
    }

    fn is_none(self) -> (b: bool) {
        self.0 == u32::MAX
    }

    fn is_some(self) -> (b: bool) {
        self.0 != u32::MAX
    }

    fn as_option(self) -> (o: Option<Self>) {
        if self.0 == u32::MAX {
            None
        } else {
            Some(self)
        }
    }
}

impl Default for Date {
    fn default() -> (r: Self)
        ensures
            r.0 == 0,
    {
        Date(0)
    }
}

impl From<u32> for Date {
    fn from(value: u32) -> (r: Self) {
        Date(value)
    }
}

impl vstd::std_specs::convert::FromSpecImpl<u32> for Date {
    open spec fn obeys_from_spec() -> bool {
        true
    }

    open spec fn from_spec(v: u32) -> Self {
        Date(v)
    }
}

impl Date {
    /// The day of the week, 0 for Monday to 6 for Sunday.
    pub fn get_day_of_week(&self) -> (r: u8)
        requires
            self.0 + 3 <= u32::MAX,
        ensures
            r == (self.0 + 3) % 7,
    {
        ((self.0 + 3) % 7) as u8
    }

    /// The day of the proleptic Gregorian date `year-month-day`, counted
    /// from 1970-01-01; days before 1970 wrap around, as a negative day
    /// number cast to 32 bits does.
    pub fn from_civil(year: i32, month: u32, day: u32) -> (r: Date)
        requires
            -999_999 <= year <= 1_000_000,
            1 <= month <= 12,
            1 <= day <= 31,
        ensures
            r.0 == days_from_civil(year as int, month as int, day as int) as u32,
    {
        // Shift by 2500 eras of 400 years so every step stays non-negative.
        let yp: i64 = if month <= 2 { year as i64 - 1 + 1_000_000 } else { year as i64 + 1_000_000 };
        let era: i64 = yp / 400;
        let yoe: i64 = yp - era * 400;
        let mp: i64 = if month > 2 { month as i64 - 3 } else { month as i64 + 9 };
        let doy: i64 = (153 * mp + 2) / 5 + day as i64 - 1;
        let doe: i64 = yoe * 365 + yoe / 4 - yoe / 100 + doy;
        let days: i64 = era * 146_097 + doe - 719_468 - 2500 * 146_097;
        proof {
            let y: int = if month <= 2 { year - 1 } else { year as int };
            assert(yp == y + 400 * 2500);
            assert(era == y / 400 + 2500) by (nonlinear_arith)
                requires
                    yp == y + 400 * 2500,
                    yp >= 0,
                    era == yp / 400,
            ;
            assert(days == days_from_civil(year as int, month as int, day as int));
        }
        Date(days as u32)
    }


    /// The Gregorian calendar date `(year, month, day)` of this day.
    pub fn to_civil(&self) -> (r: (u32, u32, u32))
        requires
            self.0 + 719468 <= u32::MAX,
        ensures
            (r.0 as int, r.1 as int, r.2 as int) == civil_from_days(self.0 as int),
    {
        let epoch = self.0 + 719_468;
        let era = epoch / 146_097;
        let doe = epoch % 146_097;
        proof {
            lemma_year_of_era(doe as int);
        }
        let yoe = (doe - doe / 1460 + doe / 36524 - doe / 146_096) / 365;
        let year = yoe + era * 400;
        let doy = doe - (365 * yoe + yoe / 4 - yoe / 100);
        let mp = (5 * doy + 2) / 153;
        assert(mp <= 11) by (nonlinear_arith)
            requires
                mp == (5 * doy + 2) / 153,
                doy <= 365,
        ;
        assert((153 * mp + 2) / 5 <= doy) by (nonlinear_arith)
            requires
                mp == (5 * doy + 2) / 153,
        ;
        let day = doy - (153 * mp + 2) / 5 + 1;
        let month = if mp < 10 { mp + 3 } else { mp - 9 };
        let year = if month <= 2 { year + 1 } else { year };
        (year, month, day)
    }

    /// The date as `YYYY-MM-DD`.
    pub fn to_string(&self) -> (r: String)
        requires
            self.0 + 719468 <= u32::MAX,
        ensures
            ({
                let (y, m, d) = civil_from_days(self.0 as int);
                r@ == date_text(y as u32, m as u32, d as u32)
            }),
    {
        let (y, m, d) = self.to_civil();
        format_date(y, m, d)
    }
}

} // verus!
