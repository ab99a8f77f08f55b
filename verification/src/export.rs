//! The export: the stored days written as lines, one line for each run of
//! consecutive days.

use crate::date::CalendarDate;
use crate::parse::{read_date, read_with_format, year_first_format};
use crate::range::{compress, runs, DateRange};
use vstd::prelude::*;
use vstd::string::*;

verus! {

/// Why the keys of a store could not be exported.
#[derive(Clone, Copy, Debug, PartialEq, Eq, Structural)]
pub enum ExportError {
    /// The key at this index, counted from 0, is no date written as
    /// `YYYY-MM-DD`.
    MalformedKey(usize),
}

/// The characters of each text of a list.
pub open spec fn texts(lines: Seq<String>) -> Seq<Seq<char>> {
    Seq::new(lines.len(), |i: int| lines[i]@)
}

/// The written form of each range of a list.
pub open spec fn lines_of(ranges: Seq<DateRange>) -> Seq<Seq<char>> {
    Seq::new(ranges.len(), |k: int| ranges[k].text())
}

/// The lines that `dates` are exported as: the written forms of their runs
/// of consecutive days.
pub open spec fn export_of(dates: Seq<CalendarDate>) -> Seq<Seq<char>> {
    lines_of(runs(dates))
}

/// The date that a key of the store stands for: the key read as
/// `YYYY-MM-DD`, as it is.
pub open spec fn key_date(key: Seq<char>) -> Option<CalendarDate> {
    read_date(key, year_first_format())
}

/// Whether every key is a date.
pub open spec fn all_readable(keys: Seq<Seq<char>>) -> bool {
    forall|i: int| 0 <= i < keys.len() ==> key_date(#[trigger] keys[i]) is Some
}

/// The dates that the keys stand for, where every key is a date.
pub open spec fn dates_of_keys(keys: Seq<Seq<char>>) -> Seq<CalendarDate> {
    Seq::new(keys.len(), |i: int| key_date(keys[i])->0)
}

/// Whether `row` is the first key that is no date.
pub open spec fn first_malformed(keys: Seq<Seq<char>>, row: int) -> bool {
    &&& 0 <= row < keys.len()
    &&& key_date(keys[row]) is None
    &&& forall|i: int| 0 <= i < row ==> key_date(#[trigger] keys[i]) is Some
}

/// The key under which `date` is stored: its written form `YYYY-MM-DD`.
pub fn store_key(date: CalendarDate) -> (key: String)
    ensures
        key@ == date.text(),
{
    date.to_text()
}

/// The date that a key of the store stands for, if it is one.
pub fn parse_key(key: &str) -> (date: Option<CalendarDate>)
    ensures
        date == key_date(key@),
{
    read_with_format(key, "%Y-%m-%d")
}

/// The dates that the keys of a store stand for, in the order of the keys,
/// or the first key that is no date.
pub fn read_keys(keys: &Vec<String>) -> (result: Result<Vec<CalendarDate>, ExportError>)
    ensures
        match result {
            Ok(dates) => all_readable(texts(keys@)) && dates@ == dates_of_keys(texts(keys@)),
            Err(ExportError::MalformedKey(row)) => first_malformed(texts(keys@), row as int),
        },
{
    let mut dates: Vec<CalendarDate> = Vec::new();
    let mut index: usize = 0;
    while index < keys.len()
        invariant
            index <= keys@.len(),
            dates@.len() == index,
            forall|i: int| 0 <= i < index ==> key_date(#[trigger] texts(keys@)[i]) == Some(dates@[i]),
        decreases keys@.len() - index,
    {
        match parse_key(keys[index].as_str()) {
            Some(date) => {
                dates.push(date);
            },
            None => {
                return Err(ExportError::MalformedKey(index));
            },
        }
        index = index + 1;
    }
    assert(dates@ =~= dates_of_keys(texts(keys@)));
    Ok(dates)
}

/// The lines that `dates` are exported as.
pub fn export_lines(dates: &Vec<CalendarDate>) -> (lines: Vec<String>)
    ensures
        texts(lines@) == export_of(dates@),
{
    let ranges = compress(dates);
    let mut lines: Vec<String> = Vec::new();
    let mut index: usize = 0;
    while index < ranges.len()
        invariant
            index <= ranges@.len(),
            lines@.len() == index,
            forall|i: int| 0 <= i < index ==> (#[trigger] lines@[i])@ == ranges@[i].text(),
        decreases ranges@.len() - index,
    {
        lines.push(ranges[index].render());
        index = index + 1;
    }
    assert(texts(lines@) =~= lines_of(ranges@));
    lines
}

/// The export of a store, from its keys in the order in which the store
/// lists them: the lines for the dates that the keys stand for, or the
/// first key that is no date.
pub fn get_export(keys: &Vec<String>) -> (result: Result<Vec<String>, ExportError>)
    ensures
        match result {
            Ok(lines) => all_readable(texts(keys@)) && texts(lines@) == export_of(
                dates_of_keys(texts(keys@)),
            ),
            Err(ExportError::MalformedKey(row)) => first_malformed(texts(keys@), row as int),
        },
{
    match read_keys(keys) {
        Ok(dates) => Ok(export_lines(&dates)),
        Err(error) => Err(error),
    }
}

} // verus!
