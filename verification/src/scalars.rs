//! The model of the scalar sub-parsers: strings, numbers and literals.

use vstd::prelude::*;
use crate::chars::ascii_digit;
use crate::chars::ascii_lower;
use crate::chars::emitted_scalar;
use crate::chars::structural;
use crate::chars::unicode_whitespace;
use crate::grammar::at;
use crate::grammar::whitespace_end;
use crate::grammar::Step;

verus! {

/// The left typographic quote, which opens a string that the right one closes.
pub open spec fn left_quote() -> char {
    '\u{201c}'
}

/// The right typographic quote.
pub open spec fn right_quote() -> char {
    '\u{201d}'
}

/// The delimiters that open a quoted string: `"`, `'` and the left
/// typographic quote.
pub open spec fn opens_string(c: char) -> bool {
    c == '"' || c == '\'' || c == left_quote()
}

/// The delimiter that closes a string opened by `open`.
pub open spec fn closer(open: char) -> char {
    if open == left_quote() {
        right_quote()
    } else {
        open
    }
}

/// The rest of a quoted string from `pos` on, up to and including the
/// delimiter `close`, with the closing `"` that is written for it. A
/// backslash is copied with the scalar after it; a `"` that does not close
/// the string is escaped; at the end of the input the string is closed.
pub open spec fn quoted_body(input: Seq<char>, pos: int, close: char, ensure_ascii: bool) -> Step
    decreases input.len() - pos,
{
    if 0 <= pos < input.len() {
        let c = input[pos];
        if c == close {
            Step { text: seq!['"'], end: pos + 1 }
        } else if c == '\\' {
            if pos + 1 < input.len() {
                let rest = quoted_body(input, pos + 2, close, ensure_ascii);
                Step { text: seq!['\\', input[pos + 1]] + rest.text, end: rest.end }
            } else {
                let rest = quoted_body(input, pos + 1, close, ensure_ascii);
                Step { text: seq!['\\'] + rest.text, end: rest.end }
            }
        } else if c == '"' {
            let rest = quoted_body(input, pos + 1, close, ensure_ascii);
            Step { text: seq!['\\', '"'] + rest.text, end: rest.end }
        } else {
            let rest = quoted_body(input, pos + 1, close, ensure_ascii);
            Step { text: emitted_scalar(c, ensure_ascii) + rest.text, end: rest.end }
        }
    } else {
        Step { text: seq!['"'], end: pos }
    }
}

/// The quoted string whose opening delimiter stands at `pos`.
pub open spec fn quoted_string(input: Seq<char>, pos: int, ensure_ascii: bool) -> Step {
    let rest = quoted_body(input, pos + 1, closer(input[pos]), ensure_ascii);
    Step { text: seq!['"'] + rest.text, end: rest.end }
}

/// The whitespace at `pos` runs up to a structural scalar, so that it
/// belongs to no unquoted token.
pub open spec fn blank_before_structural(input: Seq<char>, pos: int) -> bool {
    let w = whitespace_end(input, pos);
    0 <= w < input.len() && structural(input[w])
}

/// The rest of an unquoted string from `pos` on, with its closing `"`. It
/// ends before the first structural scalar and before whitespace that runs
/// up to one; `"` and `\` are escaped.
pub open spec fn unquoted_body(input: Seq<char>, pos: int, ensure_ascii: bool) -> Step
    decreases input.len() - pos,
{
    if 0 <= pos < input.len() {
        let c = input[pos];
        if structural(c) {
            Step { text: seq!['"'], end: pos }
        } else if c == '"' {
            let rest = unquoted_body(input, pos + 1, ensure_ascii);
            Step { text: seq!['\\', '"'] + rest.text, end: rest.end }
        } else if c == '\\' {
            let rest = unquoted_body(input, pos + 1, ensure_ascii);
            Step { text: seq!['\\', '\\'] + rest.text, end: rest.end }
        } else if unicode_whitespace(c) && blank_before_structural(input, pos) {
            Step { text: seq!['"'], end: pos }
        } else {
            let rest = unquoted_body(input, pos + 1, ensure_ascii);
            Step { text: emitted_scalar(c, ensure_ascii) + rest.text, end: rest.end }
        }
    } else {
        Step { text: seq!['"'], end: pos }
    }
}

/// The unquoted string that begins at `pos`.
pub open spec fn unquoted_string(input: Seq<char>, pos: int, ensure_ascii: bool) -> Step {
    let rest = unquoted_body(input, pos, ensure_ascii);
    Step { text: seq!['"'] + rest.text, end: rest.end }
}

/// The first position at or after `pos` that holds no decimal digit.
pub open spec fn digits_end(input: Seq<char>, pos: int) -> int
    decreases input.len() - pos,
{
    if 0 <= pos < input.len() && ascii_digit(input[pos]) {
        digits_end(input, pos + 1)
    } else {
        pos
    }
}

/// Where the integer part of the number at `pos` begins: after its sign.
pub open spec fn integer_start(input: Seq<char>, pos: int) -> int {
    if at(input, pos, '-') {
        pos + 1
    } else {
        pos
    }
}

/// Where the integer part of the number at `pos` ends: after a single `0`,
/// or after a run of digits.
pub open spec fn integer_end(input: Seq<char>, pos: int) -> int {
    let a = integer_start(input, pos);
    if at(input, a, '0') {
        a + 1
    } else {
        digits_end(input, a)
    }
}

/// `digits` where it holds any, else a single `0`.
pub open spec fn zero_filled(digits: Seq<char>) -> Seq<char> {
    if digits.len() == 0 {
        seq!['0']
    } else {
        digits
    }
}

/// The fraction that begins at `pos`: a `.` and the digits after it, or a
/// `0` where none follows. Nothing where no `.` stands at `pos`.
pub open spec fn fraction(input: Seq<char>, pos: int) -> Step {
    if at(input, pos, '.') {
        let d = digits_end(input, pos + 1);
        Step { text: seq!['.'] + zero_filled(input.subrange(pos + 1, d)), end: d }
    } else {
        Step { text: Seq::<char>::empty(), end: pos }
    }
}

/// Where the digits of the exponent at `pos` begin: after its letter and
/// its sign.
pub open spec fn exponent_digits(input: Seq<char>, pos: int) -> int {
    if at(input, pos + 1, '+') || at(input, pos + 1, '-') {
        pos + 2
    } else {
        pos + 1
    }
}

/// The exponent that begins at `pos`: `e` for `e` or `E`, the sign where
/// there is one, and the digits after it, or a `0` where none follows.
/// Nothing where neither `e` nor `E` stands at `pos`.
pub open spec fn exponent(input: Seq<char>, pos: int) -> Step {
    if at(input, pos, 'e') || at(input, pos, 'E') {
        let s = exponent_digits(input, pos);
        let d = digits_end(input, s);
        Step {
            text: seq!['e'] + input.subrange(pos + 1, s) + zero_filled(input.subrange(s, d)),
            end: d,
        }
    } else {
        Step { text: Seq::<char>::empty(), end: pos }
    }
}

/// The number scanned at `pos`: sign and integer part as they stand, then
/// the fraction and the exponent.
pub open spec fn number_scan(input: Seq<char>, pos: int) -> Step {
    let b = integer_end(input, pos);
    let f = fraction(input, b);
    let e = exponent(input, f.end);
    Step { text: input.subrange(pos, b) + f.text + e.text, end: e.end }
}

/// The scan at `pos` is a number: it holds a digit before its exponent.
pub open spec fn numeric(input: Seq<char>, pos: int) -> bool {
    let a = integer_start(input, pos);
    let b = integer_end(input, pos);
    b > a || at(input, b, '.')
}

/// The number sub-parser: the scanned number, or the unquoted string from
/// `pos` where the scan is no number.
pub open spec fn number(input: Seq<char>, pos: int, ensure_ascii: bool) -> Step {
    if numeric(input, pos) {
        number_scan(input, pos)
    } else {
        unquoted_string(input, pos, ensure_ascii)
    }
}

/// The first position at or after `pos` that holds a structural scalar or
/// whitespace.
pub open spec fn run_end(input: Seq<char>, pos: int) -> int
    decreases input.len() - pos,
{
    if 0 <= pos < input.len() && !structural(input[pos]) && !unicode_whitespace(input[pos]) {
        run_end(input, pos + 1)
    } else {
        pos
    }
}

/// `word` with its letters `A` to `Z` in lower case.
pub open spec fn lowered(word: Seq<char>) -> Seq<char> {
    Seq::new(word.len(), |i: int| ascii_lower(word[i]))
}

pub open spec fn word_true() -> Seq<char> {
    seq!['t', 'r', 'u', 'e']
}

pub open spec fn word_false() -> Seq<char> {
    seq!['f', 'a', 'l', 's', 'e']
}

pub open spec fn word_null() -> Seq<char> {
    seq!['n', 'u', 'l', 'l']
}

pub open spec fn word_none() -> Seq<char> {
    seq!['n', 'o', 'n', 'e']
}

pub open spec fn word_undefined() -> Seq<char> {
    seq!['u', 'n', 'd', 'e', 'f', 'i', 'n', 'e', 'd']
}

/// The JSON literal that `word` spells, whatever its case: `true`, `false`,
/// or `null` for `null`, `none` and `undefined`.
pub open spec fn literal_of(word: Seq<char>) -> Option<Seq<char>> {
    let w = lowered(word);
    if w == word_true() {
        Some(word_true())
    } else if w == word_false() {
        Some(word_false())
    } else if w == word_null() || w == word_none() || w == word_undefined() {
        Some(word_null())
    } else {
        None
    }
}

/// The literal sub-parser: the literal that the run at `pos` spells, or the
/// unquoted string from `pos` where it spells none.
pub open spec fn literal(input: Seq<char>, pos: int, ensure_ascii: bool) -> Step {
    let e = run_end(input, pos);
    match literal_of(input.subrange(pos, e)) {
        Some(text) => Step { text, end: e },
        None => unquoted_string(input, pos, ensure_ascii),
    }
}

pub proof fn lemma_quoted_body(input: Seq<char>, pos: int, close: char, ensure_ascii: bool)
    requires
        0 <= pos <= input.len(),
    ensures
        pos <= quoted_body(input, pos, close, ensure_ascii).end <= input.len(),
    decreases input.len() - pos,
{
    if pos < input.len() {
        let c = input[pos];
        if c == close {
        } else if c == '\\' && pos + 1 < input.len() {
            lemma_quoted_body(input, pos + 2, close, ensure_ascii);
        } else {
            lemma_quoted_body(input, pos + 1, close, ensure_ascii);
        }
    }
}

/// A quoted string consumes at least its opening delimiter.
pub proof fn lemma_quoted_string(input: Seq<char>, pos: int, ensure_ascii: bool)
    requires
        0 <= pos < input.len(),
    ensures
        pos < quoted_string(input, pos, ensure_ascii).end <= input.len(),
{
    lemma_quoted_body(input, pos + 1, closer(input[pos]), ensure_ascii);
}

/// An unquoted string stays inside the input, and consumes a first scalar
/// that is neither structural nor whitespace.
pub proof fn lemma_unquoted_body(input: Seq<char>, pos: int, ensure_ascii: bool)
    requires
        0 <= pos <= input.len(),
    ensures
        pos <= unquoted_body(input, pos, ensure_ascii).end <= input.len(),
        pos < input.len() && !structural(input[pos]) && !unicode_whitespace(input[pos]) ==> pos
            < unquoted_body(input, pos, ensure_ascii).end,
    decreases input.len() - pos,
{
    if pos < input.len() {
        let c = input[pos];
        if structural(c) {
        } else if c != '"' && c != '\\' && unicode_whitespace(c) && blank_before_structural(
            input,
            pos,
        ) {
        } else {
            lemma_unquoted_body(input, pos + 1, ensure_ascii);
        }
    }
}

pub proof fn lemma_digits_end(input: Seq<char>, pos: int)
    requires
        0 <= pos <= input.len(),
    ensures
        pos <= digits_end(input, pos) <= input.len(),
    decreases input.len() - pos,
{
    if pos < input.len() && ascii_digit(input[pos]) {
        lemma_digits_end(input, pos + 1);
    }
}

/// A fraction stays inside the input and consumes its `.`.
pub proof fn lemma_fraction(input: Seq<char>, pos: int)
    requires
        0 <= pos <= input.len(),
    ensures
        pos <= fraction(input, pos).end <= input.len(),
        at(input, pos, '.') ==> pos < fraction(input, pos).end,
{
    if at(input, pos, '.') {
        lemma_digits_end(input, pos + 1);
    }
}

/// An exponent stays inside the input.
pub proof fn lemma_exponent(input: Seq<char>, pos: int)
    requires
        0 <= pos <= input.len(),
    ensures
        pos <= exponent(input, pos).end <= input.len(),
{
    if at(input, pos, 'e') || at(input, pos, 'E') {
        lemma_digits_end(input, exponent_digits(input, pos));
    }
}

/// The positions that the number scan passes lie in order inside the input.
pub proof fn lemma_number_scan(input: Seq<char>, pos: int)
    requires
        0 <= pos <= input.len(),
    ensures
        pos <= integer_start(input, pos) <= integer_end(input, pos) <= fraction(
            input,
            integer_end(input, pos),
        ).end <= number_scan(input, pos).end <= input.len(),
{
    let a = integer_start(input, pos);
    lemma_digits_end(input, a);
    let b = integer_end(input, pos);
    lemma_fraction(input, b);
    lemma_exponent(input, fraction(input, b).end);
}

/// The number sub-parser consumes a first scalar that is no whitespace and
/// is a digit or `-`.
pub proof fn lemma_number(input: Seq<char>, pos: int, ensure_ascii: bool)
    requires
        0 <= pos < input.len(),
        ascii_digit(input[pos]) || input[pos] == '-',
        !unicode_whitespace(input[pos]),
    ensures
        pos < number(input, pos, ensure_ascii).end <= input.len(),
{
    lemma_number_scan(input, pos);
    lemma_unquoted_body(input, pos, ensure_ascii);
}

pub proof fn lemma_run_end(input: Seq<char>, pos: int)
    requires
        0 <= pos <= input.len(),
    ensures
        pos <= run_end(input, pos) <= input.len(),
    decreases input.len() - pos,
{
    if pos < input.len() && !structural(input[pos]) && !unicode_whitespace(input[pos]) {
        lemma_run_end(input, pos + 1);
    }
}

/// The literal sub-parser consumes a first scalar that is neither structural
/// nor whitespace.
pub proof fn lemma_literal(input: Seq<char>, pos: int, ensure_ascii: bool)
    requires
        0 <= pos < input.len(),
        !structural(input[pos]),
        !unicode_whitespace(input[pos]),
    ensures
        pos < literal(input, pos, ensure_ascii).end <= input.len(),
{
    lemma_run_end(input, pos + 1);
    lemma_unquoted_body(input, pos, ensure_ascii);
}

} // verus!
