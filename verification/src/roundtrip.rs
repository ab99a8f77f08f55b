//! Writing a range and reading it again: the written form of a range
//! splits into the written forms of its two ends, so reading it reads
//! exactly those two dates.

use crate::date::{valid_ymd, CalendarDate};
use crate::parse::{dates_of_readings, dates_of_text, token_date, ParseError};
use crate::range::{lemma_days_single, DateRange};
use crate::text::{
    decimal, digit_char, first_separator, is_space, iso_text, lemma_first_separator,
    lemma_first_separator_is, leading_spaces, range_joiner, separator_at, split_on_separator,
    trailing_spaces, trim, year_text, zero_padded,
};
use vstd::prelude::*;

verus! {

/// Whether `c` is neither white space nor a colon.
pub open spec fn is_plain(c: char) -> bool {
    !is_space(c) && c != ':'
}

/// Whether `s` is not empty and holds neither white space nor a colon.
pub open spec fn plain_text(s: Seq<char>) -> bool {
    s.len() > 0 && forall|i: int| 0 <= i < s.len() ==> is_plain(#[trigger] s[i])
}

/// The digits of a number are plain.
pub proof fn lemma_decimal_is_plain(n: nat)
    ensures
        plain_text(decimal(n)),
    decreases n,
{
    if n >= 10 {
        lemma_decimal_is_plain(n / 10);
        let digits = decimal(n / 10);
        let last = digit_char((n % 10) as int);
        assert forall|i: int| 0 <= i < decimal(n).len() implies is_plain(
            #[trigger] decimal(n)[i],
        ) by {
            if i < digits.len() {
                assert(decimal(n)[i] == digits[i]);
            }
        }
    }
}

/// A number written with zeros in front is plain.
pub proof fn lemma_zero_padded_is_plain(n: nat, width: nat)
    ensures
        plain_text(zero_padded(n, width)),
{
    lemma_decimal_is_plain(n);
    let digits = decimal(n);
    if digits.len() < width {
        let zeros = Seq::new((width - digits.len()) as nat, |i: int| '0');
        let padded = zeros + digits;
        assert forall|i: int| 0 <= i < padded.len() implies is_plain(#[trigger] padded[i]) by {
            if i >= zeros.len() {
                assert(padded[i] == digits[i - zeros.len()]);
            }
        }
    }
}

/// Texts that are plain are plain when written one after the other.
pub proof fn lemma_plain_concat(a: Seq<char>, b: Seq<char>)
    requires
        plain_text(a),
        plain_text(b),
    ensures
        plain_text(a + b),
{
    assert forall|i: int| 0 <= i < (a + b).len() implies is_plain(#[trigger] (a + b)[i]) by {
        if i < a.len() {
            assert((a + b)[i] == a[i]);
        } else {
            assert((a + b)[i] == b[i - a.len()]);
        }
    }
}

/// The written form of a date is plain: it is not empty and holds neither
/// white space nor a colon.
pub proof fn lemma_iso_text_is_plain(year: int, month: int, day: int)
    requires
        valid_ymd(year, month, day),
    ensures
        plain_text(iso_text(year, month, day)),
{
    let dash = seq!['-'];
    assert(plain_text(dash));
    if 0 <= year <= 9999 {
        lemma_zero_padded_is_plain(year as nat, 4);
    } else if year < 0 {
        lemma_zero_padded_is_plain((-year) as nat, 4);
        assert(plain_text(seq!['-']));
        lemma_plain_concat(seq!['-'], zero_padded((-year) as nat, 4));
    } else {
        lemma_zero_padded_is_plain(year as nat, 4);
        assert(plain_text(seq!['+']));
        lemma_plain_concat(seq!['+'], zero_padded(year as nat, 4));
    }
    lemma_zero_padded_is_plain(month as nat, 2);
    lemma_zero_padded_is_plain(day as nat, 2);
    lemma_plain_concat(year_text(year), dash);
    lemma_plain_concat(year_text(year) + dash, zero_padded(month as nat, 2));
    lemma_plain_concat(year_text(year) + dash + zero_padded(month as nat, 2), dash);
    lemma_plain_concat(
        year_text(year) + dash + zero_padded(month as nat, 2) + dash,
        zero_padded(day as nat, 2),
    );
}

/// A plain text has no white space to lose at its ends, nor with one space
/// after it or before it.
pub proof fn lemma_trim_plain(s: Seq<char>)
    requires
        plain_text(s),
    ensures
        trim(s) == s,
        trim(s + seq![' ']) == s,
        trim(seq![' '] + s) == s,
{
    let after = s + seq![' '];
    let before = seq![' '] + s;
    assert(is_plain(s[0]) && is_plain(s[s.len() - 1]));
    assert(is_space(' '));
    assert(trim(s) =~= s);
    assert(after[0] == s[0]);
    assert(after.drop_last() =~= s);
    assert(trailing_spaces(after) == 1 + trailing_spaces(s));
    assert(trim(after) =~= s);
    assert(before.drop_first() =~= s);
    assert(leading_spaces(before) == 1 + leading_spaces(s));
    assert(before.last() == s[s.len() - 1]);
    assert(trim(before) =~= s);
}

/// A text without a colon is one token.
pub proof fn lemma_plain_is_one_token(s: Seq<char>)
    requires
        forall|i: int| 0 <= i < s.len() ==> #[trigger] s[i] != ':',
    ensures
        split_on_separator(s) == seq![s],
{
    lemma_first_separator(s, 0);
    match first_separator(s, 0) {
        Some(k) => {
            assert(separator_at(s, k));
            assert(s[k] == ':');
        },
        None => {},
    }
}

/// Two plain texts with ` :: ` between them are two tokens: the first text
/// with a space after it, and the second with a space before it.
pub proof fn lemma_joined_is_two_tokens(a: Seq<char>, b: Seq<char>)
    requires
        plain_text(a),
        plain_text(b),
    ensures
        split_on_separator(a + range_joiner() + b) == seq![a + seq![' '], seq![' '] + b],
{
    let text = a + range_joiner() + b;
    let k: int = a.len() as int + 1;
    assert(text[k] == ':' && text[k + 1] == ':');
    assert forall|j: int| 0 <= j < k implies !separator_at(text, j) by {
        if j < a.len() {
            assert(text[j] == a[j]);
            assert(is_plain(a[j]));
        } else {
            assert(text[j] == ' ');
        }
    }
    lemma_first_separator_is(text, 0, k);
    let rest = text.subrange(k + 2, text.len() as int);
    assert(rest =~= seq![' '] + b);
    assert(text.subrange(0, k) =~= a + seq![' ']);
    assert forall|i: int| 0 <= i < rest.len() implies #[trigger] rest[i] != ':' by {
        if i > 0 {
            assert(rest[i] == b[i - 1]);
            assert(is_plain(b[i - 1]));
        }
    }
    lemma_plain_is_one_token(rest);
    assert(split_on_separator(text) =~= seq![text.subrange(0, k)] + split_on_separator(rest));
    assert(split_on_separator(text) =~= seq![a + seq![' '], seq![' '] + b]);
}

/// Reading the written form of a range reads the written forms of its ends:
/// the one date of a range of one day, and the first and the last day of a
/// longer one. So where each end's own written form is read back as that
/// end, the range is read back as its days.
pub proof fn lemma_written_range_reads_as_its_ends(range: DateRange)
    requires
        range.wf(),
    ensures
        dates_of_text(range.text()) == if range.start == range.end {
            dates_of_readings(seq![token_date(range.start.text())])
        } else {
            dates_of_readings(
                seq![token_date(range.start.text()), token_date(range.end.text())],
            )
        },
        token_date(range.start.text()) == Some(range.start) && token_date(range.end.text())
            == Some(range.end) ==> dates_of_text(range.text()) == Ok::<
            Seq<CalendarDate>,
            ParseError,
        >(range.days()),
{
    let first = range.start.text();
    let last = range.end.text();
    lemma_iso_text_is_plain(
        range.start.year() as int,
        range.start.month() as int,
        range.start.day() as int,
    );
    lemma_iso_text_is_plain(
        range.end.year() as int,
        range.end.month() as int,
        range.end.day() as int,
    );
    lemma_trim_plain(first);
    lemma_trim_plain(last);
    let tokens = split_on_separator(range.text());
    let readings = Seq::new(tokens.len(), |i: int| token_date(tokens[i]));
    if range.start == range.end {
        assert forall|i: int| 0 <= i < first.len() implies #[trigger] first[i] != ':' by {
            assert(is_plain(first[i]));
        }
        lemma_plain_is_one_token(first);
        assert(readings =~= seq![token_date(first)]);
        lemma_days_single(range.start);
    } else {
        lemma_joined_is_two_tokens(first, last);
        assert(tokens[0] == first + seq![' ']);
        assert(tokens[1] == seq![' '] + last);
        assert(readings =~= seq![token_date(first), token_date(last)]);
    }
}

} // verus!
