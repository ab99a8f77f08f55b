//! What the library has from the `chrono` crate: reading a date from a text
//! under a format, writing a date, and the current local date. None of the
//! contracts in this file is proved; each states what `chrono` documents.

use crate::date::CalendarDate;
use crate::text::iso_text;
use chrono::Datelike;
use vstd::prelude::*;

verus! {

/// The date, as year, month and day, that `chrono::NaiveDate::parse_from_str`
/// reads from `text` under the format string `format`, and `None` where it
/// reports an error. It depends on the two texts alone.
pub uninterp spec fn parsed_date(text: Seq<char>, format: Seq<char>) -> Option<(int, int, int)>;

/// Calls `chrono::NaiveDate::parse_from_str`. The contract claims that the
/// result is what [`parsed_date`] names for the two arguments, and that a
/// date it returns is a day of the calendar within the supported years, as
/// every `NaiveDate` is.
#[verifier::external_body]
pub(crate) fn parse_with_format(text: &str, format: &str) -> (result: Option<CalendarDate>)
    ensures
        match result {
            Some(date) => date.valid() && parsed_date(text@, format@) == Some(
                (date.year() as int, date.month() as int, date.day() as int),
            ),
            None => parsed_date(text@, format@) is None,
        },
{
    match chrono::NaiveDate::parse_from_str(text, format) {
        Ok(date) => Some(CalendarDate { year: date.year(), month: date.month(), day: date.day() }),
        Err(_) => None,
    }
}

/// Calls `chrono::NaiveDate::format` with the format `%Y-%m-%d`, on the
/// `NaiveDate` that `chrono::NaiveDate::from_ymd_opt` makes of the date's
/// year, month and day; it makes one of every valid date. The contract
/// claims that the text is the year, zero-padded to four digits and with a
/// sign outside 0 to 9999, then the month and the day in two digits each,
/// with `-` between them.
#[verifier::external_body]
pub(crate) fn format_iso(date: CalendarDate) -> (text: String)
    requires
        date.valid(),
    ensures
        text@ == iso_text(date.year() as int, date.month() as int, date.day() as int),
{
    chrono::NaiveDate::from_ymd_opt(date.year, date.month, date.day).unwrap().format(
        "%Y-%m-%d",
    ).to_string()
}

/// Calls `chrono::Local::now` and takes its date. The result depends on the
/// clock and the time zone of the machine; the contract claims only that it
/// is a day of the calendar within the supported years.
#[verifier::external_body]
pub(crate) fn local_today() -> (date: CalendarDate)
    ensures
        date.valid(),
{
    let now = chrono::Local::now().date_naive();
    CalendarDate { year: now.year(), month: now.month(), day: now.day() }
}

} // verus!
