//! Text of dates and ranges: the written form of a date, white space at the
//! ends of a token, and the separator between the two ends of a range.

use vstd::prelude::*;
use vstd::string::*;

verus! {

/// The character for a decimal digit from 0 to 9.
pub open spec fn digit_char(digit: int) -> char {
    if digit == 0 {
        '0'
    } else if digit == 1 {
        '1'
    } else if digit == 2 {
        '2'
    } else if digit == 3 {
        '3'
    } else if digit == 4 {
        '4'
    } else if digit == 5 {
        '5'
    } else if digit == 6 {
        '6'
    } else if digit == 7 {
        '7'
    } else if digit == 8 {
        '8'
    } else {
        '9'
    }
}

/// The decimal digits of `n` with no leading zero, `"0"` for zero.
pub open spec fn decimal(n: nat) -> Seq<char>
    decreases n,
{
    if n < 10 {
        seq![digit_char(n as int)]
    } else {
        decimal(n / 10).push(digit_char((n % 10) as int))
    }
}

/// The decimal digits of `n`, with zeros in front up to `width` digits.
pub open spec fn zero_padded(n: nat, width: nat) -> Seq<char> {
    let digits = decimal(n);
    if digits.len() >= width {
        digits
    } else {
        Seq::new((width - digits.len()) as nat, |i: int| '0') + digits
    }
}

/// A year as it is written in a date: four digits from 0 to 9999, and
/// otherwise a sign followed by at least four digits.
pub open spec fn year_text(year: int) -> Seq<char> {
    if 0 <= year <= 9999 {
        zero_padded(year as nat, 4)
    } else if year < 0 {
        seq!['-'] + zero_padded((-year) as nat, 4)
    } else {
        seq!['+'] + zero_padded(year as nat, 4)
    }
}

/// The written form `YYYY-MM-DD` of a date.
pub open spec fn iso_text(year: int, month: int, day: int) -> Seq<char> {
    year_text(year) + seq!['-'] + zero_padded(month as nat, 2) + seq!['-'] + zero_padded(
        day as nat,
        2,
    )
}

/// The text between the two ends of a range of several days.
pub open spec fn range_joiner() -> Seq<char> {
    seq![' ', ':', ':', ' ']
}

/// Whether `c` is white space: a character with the Unicode property
/// `White_Space`.
pub open spec fn is_space(c: char) -> bool {
    let code = c as u32;
    ||| 0x09 <= code <= 0x0D
    ||| code == 0x20
    ||| code == 0x85
    ||| code == 0xA0
    ||| code == 0x1680
    ||| 0x2000 <= code <= 0x200A
    ||| code == 0x2028
    ||| code == 0x2029
    ||| code == 0x202F
    ||| code == 0x205F
    ||| code == 0x3000
}

/// The number of white space characters at the start of `s`.
pub open spec fn leading_spaces(s: Seq<char>) -> nat
    decreases s.len(),
{
    if s.len() > 0 && is_space(s[0]) {
        1 + leading_spaces(s.drop_first())
    } else {
        0
    }
}

/// The number of white space characters at the end of `s`.
pub open spec fn trailing_spaces(s: Seq<char>) -> nat
    decreases s.len(),
{
    if s.len() > 0 && is_space(s.last()) {
        1 + trailing_spaces(s.drop_last())
    } else {
        0
    }
}

/// `s` without the white space at its start and at its end.
pub open spec fn trim(s: Seq<char>) -> Seq<char> {
    let from = leading_spaces(s);
    if from >= s.len() {
        Seq::empty()
    } else {
        s.subrange(from as int, s.len() - trailing_spaces(s))
    }
}

/// Whether the separator `::` of a range stands at index `i` of `s`.
pub open spec fn separator_at(s: Seq<char>, i: int) -> bool {
    0 <= i && i + 1 < s.len() && s[i] == ':' && s[i + 1] == ':'
}

/// The first index from `from` on at which the separator stands.
pub open spec fn first_separator(s: Seq<char>, from: int) -> Option<int>
    decreases s.len() - from,
{
    if from < 0 || from + 1 >= s.len() {
        None
    } else if separator_at(s, from) {
        Some(from)
    } else {
        first_separator(s, from + 1)
    }
}

/// The tokens of `s` between its separators, from left to right. A text
/// without a separator is one token; an empty text is one empty token.
pub open spec fn split_on_separator(s: Seq<char>) -> Seq<Seq<char>>
    decreases s.len(),
{
    let found = first_separator(s, 0);
    if found is Some && 0 <= found->0 && found->0 + 2 <= s.len() {
        seq![s.subrange(0, found->0)] + split_on_separator(
            s.subrange(found->0 + 2, s.len() as int),
        )
    } else {
        seq![s]
    }
}

/// What [`first_separator`] finds is a separator with none between `from`
/// and it; where it finds nothing, there is none from `from` on.
pub proof fn lemma_first_separator(s: Seq<char>, from: int)
    requires
        0 <= from,
    ensures
        match first_separator(s, from) {
            Some(k) => from <= k && separator_at(s, k) && forall|j: int|
                from <= j < k ==> !separator_at(s, j),
            None => forall|j: int| from <= j ==> !separator_at(s, j),
        },
    decreases s.len() - from,
{
    if from + 1 < s.len() && !separator_at(s, from) {
        lemma_first_separator(s, from + 1);
    }
}

/// A separator with none between `from` and it is the one that
/// [`first_separator`] finds.
pub proof fn lemma_first_separator_is(s: Seq<char>, from: int, k: int)
    requires
        0 <= from <= k,
        separator_at(s, k),
        forall|j: int| from <= j < k ==> !separator_at(s, j),
    ensures
        first_separator(s, from) == Some(k),
    decreases k - from,
{
    if from < k {
        lemma_first_separator_is(s, from + 1, k);
    }
}

/// Whether `c` is white space.
pub fn is_whitespace(c: char) -> (b: bool)
    ensures
        b == is_space(c),
{
    let code: u32 = c as u32;
    (0x09 <= code && code <= 0x0D) || code == 0x20 || code == 0x85 || code == 0xA0 || code
        == 0x1680 || (0x2000 <= code && code <= 0x200A) || code == 0x2028 || code == 0x2029
        || code == 0x202F || code == 0x205F || code == 0x3000
}

/// The white space at the start of a part of a text counts on from the
/// part's first character.
proof fn lemma_leading_step(s: Seq<char>, from: int)
    requires
        0 <= from < s.len(),
        is_space(s[from]),
    ensures
        leading_spaces(s.subrange(from, s.len() as int)) == 1 + leading_spaces(
            s.subrange(from + 1, s.len() as int),
        ),
{
    let part = s.subrange(from, s.len() as int);
    assert(part.drop_first() =~= s.subrange(from + 1, s.len() as int));
}

/// The white space at the end of a part of a text counts on from the
/// part's last character.
proof fn lemma_trailing_step(s: Seq<char>, to: int)
    requires
        0 < to <= s.len(),
        is_space(s[to - 1]),
    ensures
        trailing_spaces(s.subrange(0, to)) == 1 + trailing_spaces(s.subrange(0, to - 1)),
{
    let part = s.subrange(0, to);
    assert(part.drop_last() =~= s.subrange(0, to - 1));
}

/// Where `text` without the white space at its ends begins and ends, in
/// characters.
pub fn trim_bounds(text: &str) -> (bounds: (usize, usize))
    ensures
        bounds.0 <= bounds.1 <= text@.len(),
        text@.subrange(bounds.0 as int, bounds.1 as int) == trim(text@),
{
    let length: usize = text.unicode_len();
    let mut from: usize = 0;
    assert(text@.subrange(0, length as int) =~= text@);
    while from < length && is_whitespace(text.get_char(from))
        invariant
            from <= length == text@.len(),
            leading_spaces(text@) == from + leading_spaces(
                text@.subrange(from as int, length as int),
            ),
        decreases length - from,
    {
        proof {
            lemma_leading_step(text@, from as int);
        }
        from = from + 1;
    }
    if from == length {
        assert(text@.subrange(from as int, length as int) =~= Seq::<char>::empty());
        assert(text@.subrange(from as int, from as int) =~= Seq::<char>::empty());
        return (from, from);
    }
    assert(leading_spaces(text@) == from) by {
        let rest = text@.subrange(from as int, length as int);
        assert(rest[0] == text@[from as int]);
    }
    let mut to: usize = length;
    while to > from + 1 && is_whitespace(text.get_char(to - 1))
        invariant
            from < to <= length == text@.len(),
            !is_space(text@[from as int]),
            trailing_spaces(text@) == (length - to) + trailing_spaces(text@.subrange(0, to as int)),
        decreases to,
    {
        proof {
            lemma_trailing_step(text@, to as int);
        }
        to = to - 1;
    }
    assert(trailing_spaces(text@.subrange(0, to as int)) == 0) by {
        let part = text@.subrange(0, to as int);
        assert(part.last() == text@[to - 1]);
    }
    (from, to)
}

/// `text` without the white space at its ends.
pub fn trimmed(text: &str) -> (result: &str)
    ensures
        result@ == trim(text@),
{
    let (from, to) = trim_bounds(text);
    text.substring_char(from, to)
}

/// The index of the first separator `::` in `text`, if there is one.
pub fn find_separator(text: &str) -> (found: Option<usize>)
    ensures
        match found {
            Some(k) => first_separator(text@, 0) == Some(k as int) && k + 2 <= text@.len(),
            None => first_separator(text@, 0) is None,
        },
{
    let length: usize = text.unicode_len();
    if length < 2 {
        return None;
    }
    let mut index: usize = 0;
    while index < length - 1
        invariant
            index < length == text@.len(),
            first_separator(text@, 0) == first_separator(text@, index as int),
        decreases length - index,
    {
        if text.get_char(index) == ':' && text.get_char(index + 1) == ':' {
            return Some(index);
        }
        index = index + 1;
    }
    None
}

} // verus!
