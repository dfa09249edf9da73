//! Calendar dates, held as what the report reads of them.
use chrono::Datelike;
use vstd::prelude::*;

verus! {

/// A day of the proleptic Gregorian calendar: its year, and its number
/// counted from 0001-01-01, which is day 1.
#[derive(Debug, Clone, Copy, PartialEq, Eq, Structural)]
pub struct Date {
    pub year: i32,
    pub day_number: i32,
}

/// The year and day number of a `YYYY-MM-DD` date text, where it is one.
pub uninterp spec fn iso_date_of(text: Seq<char>) -> Option<(i32, i32)>;

/// Relies on chrono's `NaiveDate::parse_from_str` with `%Y-%m-%d`, then the
/// date's `year` and `num_days_from_ce`: the result depends on the text alone.
#[verifier::external_body]
pub(crate) fn parse_iso_date(text: &str) -> (r: Option<(i32, i32)>)
    ensures
        r == iso_date_of(text@),
{
    chrono::NaiveDate::parse_from_str(text, "%Y-%m-%d").ok().map(
        |d| (d.year(), d.num_days_from_ce()),
    )
}

/// The date that a `YYYY-MM-DD` text names.
pub open spec fn date_of(text: Seq<char>) -> Option<Date> {
    match iso_date_of(text) {
        Some(p) => Some(Date { year: p.0, day_number: p.1 }),
        None => None,
    }
}

impl Date {
    /// Reads a `YYYY-MM-DD` date; `None` where the text names no date.
    pub fn parse(text: &str) -> (r: Option<Date>)
        ensures
            r == date_of(text@),
    {
        match parse_iso_date(text) {
            Some(p) => Some(Date { year: p.0, day_number: p.1 }),
            None => None,
        }
    }
}

} // verus!
