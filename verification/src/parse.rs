//! Reading dates from what a user typed: one date, or two dates with `::`
//! between them for every day from the first to the second.

use crate::chrono_dates::{parse_with_format, parsed_date};
use crate::date::{
    day_number, lemma_at_own_number, lemma_day_number_bounds, lemma_same_day_number, CalendarDate,
};
use crate::range::days_between;
use crate::text::{find_separator, split_on_separator, trim, trimmed};
use vstd::prelude::*;
use vstd::string::*;

verus! {

/// Why a text could not be read as dates.
#[derive(Clone, Copy, Debug, PartialEq, Eq, Structural)]
pub enum ParseError {
    /// A token is a date in neither of the accepted formats.
    InvalidDate,
    /// The text has more than two tokens.
    InvalidRange,
    /// The second date of a range lies before the first.
    ReversedRange,
}

impl ParseError {
    /// A sentence for the user.
    pub fn message(&self) -> (text: String)
        ensures
            text@ == match *self {
                ParseError::InvalidDate => "invalid date"@,
                ParseError::InvalidRange => "invalid date range"@,
                ParseError::ReversedRange => "invalid date range: the end lies before the start"@,
            },
    {
        match self {
            ParseError::InvalidDate => String::from_str("invalid date"),
            ParseError::InvalidRange => String::from_str("invalid date range"),
            ParseError::ReversedRange => String::from_str(
                "invalid date range: the end lies before the start",
            ),
        }
    }
}

/// The format of a date written year first: `YYYY-MM-DD`.
pub open spec fn year_first_format() -> Seq<char> {
    "%Y-%m-%d"@
}

/// The format of a date written day first: `DD.MM.YYYY`.
pub open spec fn day_first_format() -> Seq<char> {
    "%d.%m.%Y"@
}

/// The date that `text` is under `format`, if it is one.
pub open spec fn read_date(text: Seq<char>, format: Seq<char>) -> Option<CalendarDate> {
    match parsed_date(text, format) {
        Some(ymd) => Some(CalendarDate::at(day_number(ymd.0, ymd.1, ymd.2))),
        None => None,
    }
}

/// The date that a token stands for: the token without the white space at
/// its ends, read year first and, if that fails, day first.
pub open spec fn token_date(token: Seq<char>) -> Option<CalendarDate> {
    let text = trim(token);
    match read_date(text, year_first_format()) {
        Some(date) => Some(date),
        None => read_date(text, day_first_format()),
    }
}

/// The dates that the readings of a text's tokens stand for: the one date
/// of one token, every day from the first to the second of two tokens, and
/// an error for an unreadable token, a second date before the first, or any
/// other number of tokens.
pub open spec fn dates_of_readings(readings: Seq<Option<CalendarDate>>) -> Result<
    Seq<CalendarDate>,
    ParseError,
> {
    if readings.len() == 1 {
        match readings[0] {
            Some(date) => Ok(seq![date]),
            None => Err(ParseError::InvalidDate),
        }
    } else if readings.len() == 2 {
        match (readings[0], readings[1]) {
            (Some(first), Some(last)) => if first@ <= last@ {
                Ok(days_between(first, last))
            } else {
                Err(ParseError::ReversedRange)
            },
            _ => Err(ParseError::InvalidDate),
        }
    } else {
        Err(ParseError::InvalidRange)
    }
}

/// The dates that a text stands for.
pub open spec fn dates_of_text(text: Seq<char>) -> Result<Seq<CalendarDate>, ParseError> {
    let tokens = split_on_separator(text);
    dates_of_readings(Seq::new(tokens.len(), |i: int| token_date(tokens[i])))
}

/// The dates that an input stands for on the day `today`: today alone where
/// there is no input.
pub open spec fn dates_of_input(input: Option<Seq<char>>, today: CalendarDate) -> Result<
    Seq<CalendarDate>,
    ParseError,
> {
    match input {
        Some(text) => dates_of_text(text),
        None => Ok(seq![today]),
    }
}

/// What a parse returned, with the dates as a sequence.
pub open spec fn outcome(result: Result<Vec<CalendarDate>, ParseError>) -> Result<
    Seq<CalendarDate>,
    ParseError,
> {
    match result {
        Ok(dates) => Ok(dates@),
        Err(error) => Err(error),
    }
}

/// The characters of an input, if there is one.
pub open spec fn input_text(input: Option<String>) -> Option<Seq<char>> {
    match input {
        Some(text) => Some(text@),
        None => None,
    }
}

/// The date that `text` is under the format string `format`, if it is one.
pub fn read_with_format(text: &str, format: &str) -> (date: Option<CalendarDate>)
    ensures
        date == read_date(text@, format@),
{
    let date = parse_with_format(text, format);
    proof {
        if let Some(found) = date {
            lemma_at_own_number(found);
        }
    }
    date
}

/// The date that a token stands for, if it is one.
pub fn parse_token(token: &str) -> (date: Option<CalendarDate>)
    ensures
        date == token_date(token@),
{
    let text = trimmed(token);
    match read_with_format(text, "%Y-%m-%d") {
        Some(date) => Some(date),
        None => read_with_format(text, "%d.%m.%Y"),
    }
}

/// Every day from `first` to `last`, both included; none where `last` lies
/// before `first`.
pub fn days_from_to(first: CalendarDate, last: CalendarDate) -> (days: Vec<CalendarDate>)
    ensures
        days@ == days_between(first, last),
{
    let mut days: Vec<CalendarDate> = Vec::new();
    if last.is_before(&first) {
        return days;
    }
    let mut current = first;
    days.push(first);
    proof {
        use_type_invariant(&first);
        lemma_at_own_number(first);
        assert(days@ =~= days_between(first, current));
    }
    while current.is_before(&last)
        invariant
            current.valid(),
            first@ <= current@ <= last@,
            last.valid(),
            days@ == days_between(first, current),
        decreases last@ - current@,
    {
        proof {
            lemma_day_number_bounds(last);
        }
        if let Some(next) = current.succ() {
            proof {
                lemma_at_own_number(next);
                assert(days_between(first, next) =~= days@.push(next));
            }
            current = next;
            days.push(next);
        }
    }
    proof {
        lemma_same_day_number(current, last);
    }
    days
}

/// The dates that the readings of a text's tokens stand for.
pub fn dates_from_readings(readings: &Vec<Option<CalendarDate>>) -> (result: Result<
    Vec<CalendarDate>,
    ParseError,
>)
    ensures
        outcome(result) == dates_of_readings(readings@),
{
    if readings.len() == 1 {
        match readings[0] {
            Some(date) => {
                let mut dates: Vec<CalendarDate> = Vec::new();
                dates.push(date);
                assert(dates@ =~= seq![date]);
                Ok(dates)
            },
            None => Err(ParseError::InvalidDate),
        }
    } else if readings.len() == 2 {
        match (readings[0], readings[1]) {
            (Some(first), Some(last)) => {
                if last.is_before(&first) {
                    Err(ParseError::ReversedRange)
                } else {
                    Ok(days_from_to(first, last))
                }
            },
            _ => Err(ParseError::InvalidDate),
        }
    } else {
        Err(ParseError::InvalidRange)
    }
}

/// The tokens of `text` between its separators `::`, from left to right.
pub fn split_tokens(text: &str) -> (tokens: Vec<&str>)
    ensures
        tokens@.len() == split_on_separator(text@).len(),
        forall|i: int| 0 <= i < tokens@.len() ==> (#[trigger] tokens@[i])@ == split_on_separator(
            text@,
        )[i],
{
    let mut tokens: Vec<&str> = Vec::new();
    let mut rest = text;
    loop
        invariant_except_break
            split_on_separator(text@) == Seq::new(tokens@.len(), |i: int| tokens@[i]@)
                + split_on_separator(rest@),
        ensures
            split_on_separator(text@) == Seq::new(tokens@.len(), |i: int| tokens@[i]@),
        decreases rest@.len(),
    {
        let ghost done = Seq::new(tokens@.len(), |i: int| tokens@[i]@);
        match find_separator(rest) {
            Some(k) => {
                let length = rest.unicode_len();
                let token = rest.substring_char(0, k);
                let tail = rest.substring_char(k + 2, length);
                tokens.push(token);
                proof {
                    assert(Seq::new(tokens@.len(), |i: int| tokens@[i]@) =~= done.push(token@));
                    assert(done + (seq![token@] + split_on_separator(tail@)) =~= done.push(token@)
                        + split_on_separator(tail@));
                }
                rest = tail;
            },
            None => {
                tokens.push(rest);
                proof {
                    assert(Seq::new(tokens@.len(), |i: int| tokens@[i]@) =~= done + seq![rest@]);
                }
                break;
            },
        }
    }
    tokens
}

/// The dates that `text` stands for: one date, or every day from the first
/// to the second of two dates with `::` between them.
pub fn parse_dates(text: &str) -> (result: Result<Vec<CalendarDate>, ParseError>)
    ensures
        outcome(result) == dates_of_text(text@),
{
    let tokens = split_tokens(text);
    let mut readings: Vec<Option<CalendarDate>> = Vec::new();
    let mut index: usize = 0;
    while index < tokens.len()
        invariant
            index <= tokens@.len(),
            readings@.len() == index,
            forall|i: int| 0 <= i < index ==> readings@[i] == token_date(#[trigger] tokens@[i]@),
        decreases tokens@.len() - index,
    {
        readings.push(parse_token(tokens[index]));
        index = index + 1;
    }
    proof {
        let spec_tokens = split_on_separator(text@);
        let spec_readings = Seq::new(spec_tokens.len(), |i: int| token_date(spec_tokens[i]));
        assert forall|i: int| 0 <= i < readings@.len() implies readings@[i] == spec_readings[i] by {
            assert(tokens@[i]@ == spec_tokens[i]);
        }
        assert(readings@ =~= spec_readings);
    }
    dates_from_readings(&readings)
}

/// The dates that `input` stands for on the day `today`: today alone where
/// there is no input.
pub fn parse_dates_on(input: Option<String>, today: CalendarDate) -> (result: Result<
    Vec<CalendarDate>,
    ParseError,
>)
    ensures
        outcome(result) == dates_of_input(input_text(input), today),
{
    match input {
        Some(text) => parse_dates(text.as_str()),
        None => {
            let mut dates: Vec<CalendarDate> = Vec::new();
            dates.push(today);
            assert(dates@ =~= seq![today]);
            Ok(dates)
        },
    }
}

/// The dates that `input` stands for, with the current local date where
/// there is no input.
pub fn parse_dates_or_default(input: Option<String>) -> (result: Result<
    Vec<CalendarDate>,
    ParseError,
>)
    ensures
        exists|today: CalendarDate|
            today.valid() && outcome(result) == #[trigger] dates_of_input(
                input_text(input),
                today,
            ),
        input matches Some(text) ==> outcome(result) == dates_of_text(text@),
        input is None ==> result is Ok && result->Ok_0@.len() == 1 && result->Ok_0@[0].valid(),
{
    let today = CalendarDate::today();
    parse_dates_on(input, today)
}

} // verus!
