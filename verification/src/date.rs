//! Calendar dates as day numbers.
//!
//! A [`Date`] is a day of the proleptic Gregorian calendar, held as the
//! number of days since 31 December of the year 1 BCE (so 1 January of the
//! year 1 is day 1). Stepping through weeks and measuring a range are then
//! plain integer arithmetic. Only the calendar itself is left to `chrono`:
//! the year and month in which a day falls, and the date that a text
//! denotes.

use chrono::{Datelike, NaiveDate};
use vstd::prelude::*;

verus! {

/// Day number of the earliest date that `chrono::NaiveDate` represents
/// (1 January of the year -262143).
pub const MIN_DAYS_FROM_CE: i32 = -95_746_129;

/// Day number of the latest date that `chrono::NaiveDate` represents
/// (31 December of the year 262142).
pub const MAX_DAYS_FROM_CE: i32 = 95_745_399;

/// A calendar date, as its day number.
#[derive(Clone, Copy, Debug, PartialEq, Eq, Structural)]
pub struct Date {
    pub days_from_ce: i32,
}

/// The calendar year and the zero-based month of a date.
#[derive(Clone, Copy, Debug, PartialEq, Eq, Structural)]
pub struct YearMonth {
    pub year: i32,
    pub month0: u32,
}

/// The calendar year in which the day with the given number falls.
pub uninterp spec fn civil_year(days_from_ce: int) -> int;

/// The zero-based month (0 is January) in which the day with the given
/// number falls.
pub uninterp spec fn civil_month0(days_from_ce: int) -> int;

/// The day number of the date that a text in the form `year-month-day`
/// denotes, if it denotes one.
pub uninterp spec fn iso_day_number(text: Seq<char>) -> Option<int>;

impl Date {
    /// The date that a text in the form `year-month-day` denotes.
    pub open spec fn from_iso(text: Seq<char>) -> Option<Date> {
        match iso_day_number(text) {
            Some(days) => Some(Date { days_from_ce: days as i32 }),
            None => None,
        }
    }

    /// The day number, as a mathematical integer.
    pub open spec fn day_number(self) -> int {
        self.days_from_ce as int
    }

    /// A date is well formed when `chrono` can represent it.
    pub open spec fn wf(self) -> bool {
        MIN_DAYS_FROM_CE <= self.days_from_ce <= MAX_DAYS_FROM_CE
    }

    /// The year and month in which the date falls.
    pub open spec fn year_month(self) -> YearMonth {
        YearMonth {
            year: civil_year(self.day_number()) as i32,
            month0: civil_month0(self.day_number()) as u32,
        }
    }

    /// The date with the given day number, if `chrono` can represent it.
    pub fn from_days_from_ce(days_from_ce: i32) -> (date: Option<Date>)
        ensures
            date == if MIN_DAYS_FROM_CE <= days_from_ce <= MAX_DAYS_FROM_CE {
                Some(Date { days_from_ce })
            } else {
                None::<Date>
            },
    {
        if MIN_DAYS_FROM_CE <= days_from_ce && days_from_ce <= MAX_DAYS_FROM_CE {
            Some(Date { days_from_ce })
        } else {
            None
        }
    }

    /// Reads the year and month of a date off the calendar.
    pub fn to_year_month(self) -> (ym: YearMonth)
        requires
            self.wf(),
        ensures
            ym == self.year_month(),
            ym.wf(),
    {
        YearMonth { year: year_of(self), month0: month0_of(self) }
    }
}

impl YearMonth {
    /// A year-month pair is well formed when its month is one of the twelve.
    pub open spec fn wf(self) -> bool {
        self.month0 < 12
    }
}

/// Trusted: `chrono::Datelike::year` of the `NaiveDate` that
/// `NaiveDate::from_num_days_from_ce_opt` builds from the day number.
///
/// The contract names the result and claims nothing else of it. For a day
/// number within `MIN_DAYS_FROM_CE..=MAX_DAYS_FROM_CE` the conversion
/// succeeds: it fails only when the year falls outside chrono's range, and
/// the two constants are the day numbers of `NaiveDate::MIN` and
/// `NaiveDate::MAX`.
#[verifier::external_body]
fn year_of(date: Date) -> (year: i32)
    requires
        date.wf(),
    ensures
        year == civil_year(date.day_number()),
{
    NaiveDate::from_num_days_from_ce_opt(date.days_from_ce).unwrap().year()
}

/// Trusted: `chrono::Datelike::month0` of the `NaiveDate` that
/// `NaiveDate::from_num_days_from_ce_opt` builds from the day number.
///
/// The contract names the result and adds what chrono documents of it:
/// the value ranges from 0 to 11.
#[verifier::external_body]
fn month0_of(date: Date) -> (month0: u32)
    requires
        date.wf(),
    ensures
        month0 == civil_month0(date.day_number()),
        month0 < 12,
{
    NaiveDate::from_num_days_from_ce_opt(date.days_from_ce).unwrap().month0()
}

/// Trusted: `chrono::NaiveDate::parse_from_str` with the format
/// `"%Y-%m-%d"`, and `Datelike::num_days_from_ce` of the date it gives.
///
/// The contract names the result. It adds that a date which was parsed is
/// well formed: every `NaiveDate` lies between `NaiveDate::MIN` and
/// `NaiveDate::MAX`, whose day numbers bound the well-formed dates.
#[verifier::external_body]
pub(crate) fn parse_iso_date(text: &str) -> (date: Option<Date>)
    ensures
        date is Some <==> iso_day_number(text@) is Some,
        date matches Some(parsed) ==> iso_day_number(text@) == Some(parsed.day_number())
            && parsed.wf(),
{
    match NaiveDate::parse_from_str(text, "%Y-%m-%d") {
        Ok(date) => Some(Date { days_from_ce: date.num_days_from_ce() }),
        Err(_) => None,
    }
}

} // verus!
