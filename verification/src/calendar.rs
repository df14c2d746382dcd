//! Calendar dates as plain numbers, and reading them from text.

use chrono::Datelike;
use vstd::prelude::*;

verus! {

/// A day of the calendar.
#[derive(Debug, Clone, Copy, PartialEq, Eq, Structural)]
pub struct CalendarDate {
    pub year: i32,
    pub month: u32,
    pub day: u32,
}

/// The year, month and day that `chrono` reads from a text in the form
/// year-month-day, or `None` where it reads no date from it.
pub uninterp spec fn date_read_from(text: Seq<char>) -> Option<(i32, u32, u32)>;

/// Calls `chrono::NaiveDate::parse_from_str` with the format `%Y-%m-%d` and
/// takes year, month and day from the date it returns. Nothing is claimed of
/// the result but that it depends on the characters of the text alone.
#[verifier::external_body]
pub(crate) fn read_date(text: &str) -> (r: Option<(i32, u32, u32)>)
    ensures
        r == date_read_from(text@),
{
    match chrono::NaiveDate::parse_from_str(text, "%Y-%m-%d") {
        Ok(date) => Some((date.year(), date.month(), date.day())),
        Err(_) => None,
    }
}

/// The date that was read, or the fallback where none was.
pub open spec fn date_or_fallback(read: Option<(i32, u32, u32)>, fallback: CalendarDate) -> CalendarDate {
    match read {
        Some((year, month, day)) => CalendarDate { year, month, day },
        None => fallback,
    }
}

/// The date that was read, or the fallback where none was.
pub fn date_or(read: Option<(i32, u32, u32)>, fallback: CalendarDate) -> (r: CalendarDate)
    ensures
        r == date_or_fallback(read, fallback),
{
    match read {
        Some((year, month, day)) => CalendarDate { year, month, day },
        None => fallback,
    }
}

/// The date that an optional text names; the fallback where there is no text
/// or no date can be read from it.
pub fn resolve_date(text: &Option<String>, fallback: CalendarDate) -> (r: CalendarDate)
    ensures
        r == match *text {
            Some(t) => date_or_fallback(date_read_from(t@), fallback),
            None => fallback,
        },
{
    match text {
        Some(t) => date_or(read_date(t.as_str()), fallback),
        None => fallback,
    }
}

} // verus!
