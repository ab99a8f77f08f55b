//! The one-key menu and its prompts: which action a key chooses, and which
//! date a reply to a prompt stands for.

use crate::date::CalendarDate;
use crate::parse::{read_date, read_with_format, year_first_format};
use crate::text::{trim, trimmed};
use vstd::prelude::*;
use vstd::string::*;

verus! {

/// An action of the menu.
#[derive(Clone, Copy, Debug, PartialEq, Eq, Structural)]
pub enum MenuChoice {
    /// Add today's date. This is the default, chosen by the enter key too.
    AddToday,
    /// Ask for a date and add it.
    AddSpecific,
    /// List the stored days.
    List,
    /// Ask for a date and delete it.
    Delete,
    /// Export the stored days.
    Export,
    /// The key chooses nothing.
    Invalid,
}

/// The action that a key chooses: its number, or its letter in either case.
pub open spec fn choice_of(key: char) -> MenuChoice {
    if key == '\r' || key == '\n' || key == '1' || key == 't' || key == 'T' {
        MenuChoice::AddToday
    } else if key == '2' || key == 'a' || key == 'A' {
        MenuChoice::AddSpecific
    } else if key == '3' || key == 'l' || key == 'L' {
        MenuChoice::List
    } else if key == '4' || key == 'd' || key == 'D' {
        MenuChoice::Delete
    } else if key == '5' || key == 'e' || key == 'E' {
        MenuChoice::Export
    } else {
        MenuChoice::Invalid
    }
}

/// The date that a reply to a prompt stands for: the reply without the
/// white space at its ends, read as `YYYY-MM-DD`.
pub open spec fn reply_date(reply: Seq<char>) -> Option<CalendarDate> {
    read_date(trim(reply), year_first_format())
}

/// The date that a reply stands for where an empty reply means today.
pub open spec fn reply_date_or(reply: Seq<char>, today: CalendarDate) -> Option<CalendarDate> {
    if trim(reply).len() == 0 {
        Some(today)
    } else {
        reply_date(reply)
    }
}

/// The action that a key chooses.
pub fn menu_choice(key: char) -> (choice: MenuChoice)
    ensures
        choice == choice_of(key),
{
    if key == '\r' || key == '\n' || key == '1' || key == 't' || key == 'T' {
        MenuChoice::AddToday
    } else if key == '2' || key == 'a' || key == 'A' {
        MenuChoice::AddSpecific
    } else if key == '3' || key == 'l' || key == 'L' {
        MenuChoice::List
    } else if key == '4' || key == 'd' || key == 'D' {
        MenuChoice::Delete
    } else if key == '5' || key == 'e' || key == 'E' {
        MenuChoice::Export
    } else {
        MenuChoice::Invalid
    }
}

/// The date that a reply to a prompt stands for, if it is one.
pub fn parse_reply(reply: &str) -> (date: Option<CalendarDate>)
    ensures
        date == reply_date(reply@),
{
    read_with_format(trimmed(reply), "%Y-%m-%d")
}

/// The date that a reply to a prompt stands for, today for an empty reply,
/// and `None` for a reply that is no date.
pub fn parse_reply_or(reply: &str, today: CalendarDate) -> (date: Option<CalendarDate>)
    ensures
        date == reply_date_or(reply@, today),
{
    let text = trimmed(reply);
    if text.unicode_len() == 0 {
        Some(today)
    } else {
        read_with_format(text, "%Y-%m-%d")
    }
}

} // verus!
