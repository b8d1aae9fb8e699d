//! What holds of the engine's output for every input.

use vstd::prelude::*;
use crate::chars::all_ascii;
use crate::chars::ascii;
use crate::chars::ascii_digit;
use crate::chars::emitted_scalar;
use crate::chars::structural;
use crate::chars::alphabetic;
use crate::chars::unicode_whitespace;
use crate::chars::unit_escape;
use crate::context::ContextValues;
use crate::document::array;
use crate::document::elements;
use crate::document::fence;
use crate::document::fence_open;
use crate::document::fenced;
use crate::document::first_occurrence;
use crate::document::last_occurrence;
use crate::document::occurs_at;
use crate::document::key;
use crate::document::lemma_elements;
use crate::document::lemma_key;
use crate::document::lemma_members;
use crate::document::lemma_payload_start;
use crate::document::lemma_settled;
use crate::document::lemma_value;
use crate::document::member_key;
use crate::document::members;
use crate::document::object;
use crate::document::payload_start;
use crate::document::repaired;
use crate::document::separator;
use crate::document::splits;
use crate::document::unknown_key;
use crate::document::value;
use crate::grammar::at;
use crate::grammar::lemma_skip_end;
use crate::grammar::skip_end;
use crate::grammar::MAX_DEPTH;
use crate::scalars::blank_before_structural;
use crate::scalars::closer;
use crate::scalars::digits_end;
use crate::scalars::exponent;
use crate::scalars::exponent_digits;
use crate::scalars::fraction;
use crate::scalars::integer_end;
use crate::scalars::integer_start;
use crate::scalars::lemma_digits_end;
use crate::scalars::lemma_number_scan;
use crate::scalars::lemma_quoted_body;
use crate::scalars::lemma_quoted_string;
use crate::scalars::lemma_run_end;
use crate::scalars::lemma_unquoted_body;
use crate::scalars::lowered;
use crate::scalars::literal;
use crate::scalars::literal_of;
use crate::scalars::number;
use crate::scalars::number_scan;
use crate::scalars::opens_string;
use crate::scalars::quoted_body;
use crate::scalars::quoted_string;
use crate::scalars::run_end;
use crate::scalars::unquoted_body;
use crate::scalars::unquoted_string;

verus! {

/// Every scalar of `text` is ASCII, but for those that stand directly
/// after a backslash.
pub open spec fn ascii_outside_escapes(text: Seq<char>) -> bool {
    forall|i: int|
        0 <= i < text.len() && !ascii(#[trigger] text[i]) ==> i > 0 && text[i - 1] == '\\'
}

/// Every backslash of `input` that has a scalar after it has an ASCII one.
pub open spec fn escapes_are_ascii(input: Seq<char>) -> bool {
    forall|i: int|
        0 <= i && i + 1 < input.len() && #[trigger] input[i] == '\\' ==> ascii(input[i + 1])
}

/// Every scalar of `text` is ASCII; where `lax`, but for those that stand
/// directly after a backslash.
#[verifier::opaque]
pub open spec fn held_to_ascii(text: Seq<char>, lax: bool) -> bool {
    forall|i: int|
        0 <= i < text.len() && !ascii(#[trigger] text[i]) ==> lax && i > 0 && text[i - 1]
            == '\\'
}

proof fn lemma_join(a: Seq<char>, b: Seq<char>, lax: bool)
    requires
        held_to_ascii(a, lax),
        held_to_ascii(b, lax),
    ensures
        held_to_ascii(a + b, lax),
{
    reveal(held_to_ascii);
    let s = a + b;
    assert forall|i: int| 0 <= i < s.len() && !ascii(#[trigger] s[i]) implies lax && i > 0 && s[i
        - 1] == '\\' by {
        if i < a.len() {
            assert(s[i] == a[i]);
        } else {
            assert(s[i] == b[i - a.len()]);
            assert(i - a.len() > 0);
            assert(s[i - 1] == b[i - a.len() - 1]);
        }
    }
}

/// A text of ASCII scalars is ASCII outside escapes.
proof fn lemma_plain(text: Seq<char>, lax: bool)
    requires
        all_ascii(text),
    ensures
        held_to_ascii(text, lax),
{
    reveal(held_to_ascii);
}

/// A backslash and the scalar after it: an escape, whatever the scalar
/// is, where `lax`; else the scalar has to be ASCII.
proof fn lemma_escape(c: char, lax: bool)
    requires
        lax || ascii(c),
    ensures
        held_to_ascii(seq!['\\', c], lax),
{
    reveal(held_to_ascii);
}

proof fn lemma_unit_escape_ascii(v: int)
    ensures
        all_ascii(unit_escape(v)),
{
}

/// What is written for a scalar under `ensure_ascii` is ASCII.
pub proof fn lemma_emitted_scalar_ascii(c: char)
    ensures
        all_ascii(emitted_scalar(c, true)),
{
    if !ascii(c) {
        let v = c as int;
        if v >= 0x10000 {
            lemma_unit_escape_ascii(0xd800 + (v - 0x10000) / 1024);
            lemma_unit_escape_ascii(0xdc00 + (v - 0x10000) % 1024);
        } else {
            lemma_unit_escape_ascii(v);
        }
    }
}

proof fn lemma_quoted_body_ascii(input: Seq<char>, pos: int, close: char, lax: bool)
    requires
        lax || escapes_are_ascii(input),
        0 <= pos <= input.len(),
    ensures
        held_to_ascii(quoted_body(input, pos, close, true).text, lax),
    decreases input.len() - pos,
{
    lemma_plain(seq!['"'], lax);
    if pos < input.len() {
        let c = input[pos];
        if c == close {
        } else if c == '\\' {
            if pos + 1 < input.len() {
                lemma_quoted_body_ascii(input, pos + 2, close, lax);
                lemma_escape(input[pos + 1], lax);
                lemma_join(
                    seq!['\\', input[pos + 1]],
                    quoted_body(input, pos + 2, close, true).text,
                    lax,
                );
            } else {
                lemma_quoted_body_ascii(input, pos + 1, close, lax);
                lemma_plain(seq!['\\'], lax);
                lemma_join(seq!['\\'], quoted_body(input, pos + 1, close, true).text, lax);
            }
        } else if c == '"' {
            lemma_quoted_body_ascii(input, pos + 1, close, lax);
            lemma_plain(seq!['\\', '"'], lax);
            lemma_join(seq!['\\', '"'], quoted_body(input, pos + 1, close, true).text, lax);
        } else {
            lemma_quoted_body_ascii(input, pos + 1, close, lax);
            lemma_emitted_scalar_ascii(c);
            lemma_plain(emitted_scalar(c, true), lax);
            lemma_join(
                emitted_scalar(c, true),
                quoted_body(input, pos + 1, close, true).text,
                lax,
            );
        }
    }
}

proof fn lemma_unquoted_body_ascii(input: Seq<char>, pos: int, lax: bool)
    requires
        0 <= pos <= input.len(),
    ensures
        held_to_ascii(unquoted_body(input, pos, true).text, lax),
    decreases input.len() - pos,
{
    lemma_plain(seq!['"'], lax);
    if pos < input.len() {
        let c = input[pos];
        if structural(c) {
        } else if c == '"' {
            lemma_unquoted_body_ascii(input, pos + 1, lax);
            lemma_plain(seq!['\\', '"'], lax);
            lemma_join(seq!['\\', '"'], unquoted_body(input, pos + 1, true).text, lax);
        } else if c == '\\' {
            lemma_unquoted_body_ascii(input, pos + 1, lax);
            lemma_plain(seq!['\\', '\\'], lax);
            lemma_join(seq!['\\', '\\'], unquoted_body(input, pos + 1, true).text, lax);
        } else if unicode_whitespace(c) && blank_before_structural(input, pos) {
        } else {
            lemma_unquoted_body_ascii(input, pos + 1, lax);
            lemma_emitted_scalar_ascii(c);
            lemma_plain(emitted_scalar(c, true), lax);
            lemma_join(emitted_scalar(c, true), unquoted_body(input, pos + 1, true).text, lax);
        }
    }
}

proof fn lemma_key_ascii(input: Seq<char>, pos: int, lax: bool)
    requires
        lax || escapes_are_ascii(input),
        0 <= pos <= input.len(),
    ensures
        held_to_ascii(key(input, pos, true).text, lax),
        held_to_ascii(unquoted_string(input, pos, true).text, lax),
        pos < input.len() ==> held_to_ascii(quoted_string(input, pos, true).text, lax),
{
    lemma_plain(seq!['"'], lax);
    lemma_unquoted_body_ascii(input, pos, lax);
    lemma_join(seq!['"'], unquoted_body(input, pos, true).text, lax);
    if pos < input.len() {
        lemma_quoted_body_ascii(input, pos + 1, closer(input[pos]), lax);
        lemma_join(seq!['"'], quoted_body(input, pos + 1, closer(input[pos]), true).text, lax);
    }
}

/// The scalars from `pos` up to the end of the digits there are digits.
proof fn lemma_digits(input: Seq<char>, pos: int)
    requires
        0 <= pos <= input.len(),
    ensures
        forall|i: int| pos <= i < digits_end(input, pos) ==> ascii_digit(#[trigger] input[i]),
    decreases input.len() - pos,
{
    if pos < input.len() && ascii_digit(input[pos]) {
        lemma_digits(input, pos + 1);
    }
}

proof fn lemma_number_ascii(input: Seq<char>, pos: int, lax: bool)
    requires
        0 <= pos <= input.len(),
    ensures
        held_to_ascii(number_scan(input, pos).text, lax),
{
    let a = integer_start(input, pos);
    let b = integer_end(input, pos);
    lemma_digits_end(input, a);
    lemma_digits(input, a);
    let f = fraction(input, b);
    if at(input, b, '.') {
        lemma_digits_end(input, b + 1);
        lemma_digits(input, b + 1);
    }
    let e = exponent(input, f.end);
    if at(input, f.end, 'e') || at(input, f.end, 'E') {
        let s = exponent_digits(input, f.end);
        lemma_digits_end(input, s);
        lemma_digits(input, s);
    }
    let head = input.subrange(pos, b);
    assert(all_ascii(head));
    assert(all_ascii(f.text));
    assert(all_ascii(e.text));
    lemma_plain(number_scan(input, pos).text, lax);
}

proof fn lemma_literal_ascii(input: Seq<char>, pos: int, lax: bool)
    requires
        lax || escapes_are_ascii(input),
        0 <= pos <= input.len(),
    ensures
        held_to_ascii(literal(input, pos, true).text, lax),
{
    lemma_key_ascii(input, pos, lax);
    match literal_of(input.subrange(pos, run_end(input, pos))) {
        Some(text) => {
            lemma_plain(text, lax);
        },
        None => {},
    }
}

/// What a scalar value writes under `ensure_ascii` is ASCII outside
/// escapes.
proof fn lemma_scalar_ascii(input: Seq<char>, p: int, lax: bool)
    requires
        lax || escapes_are_ascii(input),
        0 <= p < input.len(),
    ensures
        held_to_ascii(quoted_string(input, p, true).text, lax),
        held_to_ascii(unquoted_string(input, p, true).text, lax),
        held_to_ascii(number(input, p, true).text, lax),
        held_to_ascii(literal(input, p, true).text, lax),
{
    lemma_key_ascii(input, p, lax);
    lemma_number_ascii(input, p, lax);
    lemma_literal_ascii(input, p, lax);
}

/// A member that is ASCII outside escapes in its parts is so as a whole.
proof fn lemma_member_ascii(
    head: Seq<char>,
    name: Seq<char>,
    v: Seq<char>,
    rest: Seq<char>,
    lax: bool,
)
    requires
        all_ascii(head),
        held_to_ascii(name, lax),
        held_to_ascii(v, lax),
        held_to_ascii(rest, lax),
    ensures
        held_to_ascii(head + name + seq![':'] + v + rest, lax),
{
    lemma_plain(head, lax);
    lemma_plain(seq![':'], lax);
    lemma_join(head, name, lax);
    lemma_join(head + name, seq![':'], lax);
    lemma_join(head + name + seq![':'], v, lax);
    lemma_join(head + name + seq![':'] + v, rest, lax);
}

/// A member with a key is ASCII outside escapes where its value and what
/// follows it are.
proof fn lemma_keyed_ascii(
    input: Seq<char>,
    p: int,
    stack: Seq<ContextValues>,
    keys: Seq<Seq<char>>,
    v: Seq<char>,
    rest: Seq<char>,
    lax: bool,
)
    requires
        lax || escapes_are_ascii(input),
        0 <= p < input.len(),
        held_to_ascii(v, lax),
        held_to_ascii(rest, lax),
    ensures
        held_to_ascii(
            separator(stack, keys, key(input, p, true).text) + key(input, p, true).text
                + seq![':'] + v + rest,
            lax,
        ),
{
    lemma_key_ascii(input, p, lax);
    lemma_member_ascii(
        separator(stack, keys, key(input, p, true).text),
        key(input, p, true).text,
        v,
        rest,
        lax,
    );
}

/// A member without a key is ASCII outside escapes where its value and
/// what follows it are.
proof fn lemma_unknown_ascii(v: Seq<char>, rest: Seq<char>, lax: bool)
    requires
        held_to_ascii(v, lax),
        held_to_ascii(rest, lax),
    ensures
        held_to_ascii(seq![','] + unknown_key() + seq![':'] + v + rest, lax),
{
    lemma_plain(unknown_key(), lax);
    lemma_member_ascii(seq![','], unknown_key(), v, rest, lax);
}

/// Under `ensure_ascii`, what a value writes is ASCII outside escapes.
proof fn lemma_value_ascii(input: Seq<char>, pos: int, stack: Seq<ContextValues>, lax: bool)
    requires
        lax || escapes_are_ascii(input),
        0 <= pos <= input.len(),
    ensures
        value(input, pos, stack, true) matches Some(v) ==> held_to_ascii(v.text, lax),
    decreases input.len() - pos, 1int,
{
    lemma_skip_end(input, pos);
    let p = skip_end(input, pos);
    if p < input.len() {
        let c = input[p];
        lemma_scalar_ascii(input, p, lax);
        if c == '{' && stack.len() < MAX_DEPTH {
            lemma_members_ascii(input, p + 1, stack, Seq::empty(), true, lax);
            match members(input, p + 1, stack, Seq::empty(), true, true) {
                Some(m) => {
                    lemma_plain(seq!['{'], lax);
                    lemma_join(seq!['{'], m.text, lax);
                },
                None => {},
            }
        } else if c == '[' && stack.len() < MAX_DEPTH {
            let inner = stack.push(ContextValues::Array);
            lemma_elements_ascii(input, p + 1, inner, false, lax);
            match elements(input, p + 1, inner, false, true) {
                Some(m) => {
                    lemma_plain(seq!['['], lax);
                    lemma_join(seq!['['], m.text, lax);
                },
                None => {},
            }
        }
    } else {
        lemma_plain(crate::scalars::word_null(), lax);
    }
}

/// Under `ensure_ascii`, what the members of an object write is ASCII
/// outside escapes.
#[verifier::rlimit(30)]
proof fn lemma_members_ascii(
    input: Seq<char>,
    pos: int,
    stack: Seq<ContextValues>,
    keys: Seq<Seq<char>>,
    fresh: bool,
    lax: bool,
)
    requires
        lax || escapes_are_ascii(input),
        0 <= pos <= input.len(),
    ensures
        members(input, pos, stack, keys, fresh, true) matches Some(m) ==> held_to_ascii(
            m.text,
            lax,
        ),
    decreases input.len() - pos, 2int,
{
    lemma_skip_end(input, pos);
    lemma_plain(seq!['}'], lax);
    let p = skip_end(input, pos);
    if p < input.len() {
        let c = input[p];
        let inner = stack.push(ContextValues::ObjectValue);
        if c == '}' {
        } else if c == ',' {
            lemma_members_ascii(input, p + 1, stack, keys, true, lax);
        } else if c == ':' || c == ']' {
            lemma_members_ascii(input, p + 1, stack, keys, fresh, lax);
        } else if fresh || opens_string(c) || alphabetic(c) {
            let k = member_key(input, p, true);
            lemma_key(input, p, true);
            lemma_skip_end(input, k.end);
            let q = skip_end(input, k.end);
            let r = if at(input, q, ':') {
                q + 1
            } else {
                q
            };
            lemma_value(input, r, inner, true);
            lemma_value_ascii(input, r, inner, lax);
            match value(input, r, inner, true) {
                Some(v) => {
                    let later = if splits(stack, keys, k.text) {
                        seq![k.text]
                    } else {
                        keys.push(k.text)
                    };
                    lemma_members_ascii(input, v.end, stack, later, false, lax);
                    match members(input, v.end, stack, later, false, true) {
                        Some(m) => {
                            lemma_keyed_ascii(input, p, stack, keys, v.text, m.text, lax);
                        },
                        None => {},
                    }
                },
                None => {},
            }
        } else {
            lemma_settled(input, p);
            lemma_value(input, p, inner, true);
            lemma_value_ascii(input, p, inner, lax);
            match value(input, p, inner, true) {
                Some(v) => {
                    lemma_members_ascii(input, v.end, stack, keys, false, lax);
                    match members(input, v.end, stack, keys, false, true) {
                        Some(m) => {
                            lemma_unknown_ascii(v.text, m.text, lax);
                        },
                        None => {},
                    }
                },
                None => {},
            }
        }
    }
}

/// Under `ensure_ascii`, what the elements of an array write is ASCII
/// outside escapes.
proof fn lemma_elements_ascii(
    input: Seq<char>,
    pos: int,
    stack: Seq<ContextValues>,
    nonempty: bool,
    lax: bool,
)
    requires
        lax || escapes_are_ascii(input),
        0 <= pos <= input.len(),
    ensures
        elements(input, pos, stack, nonempty, true) matches Some(m) ==> held_to_ascii(
            m.text,
            lax,
        ),
    decreases input.len() - pos, 2int,
{
    lemma_skip_end(input, pos);
    lemma_plain(seq![']'], lax);
    let p = skip_end(input, pos);
    if p < input.len() {
        let c = input[p];
        if c == ']' {
        } else if c == ',' || c == ':' || c == '}' {
            lemma_elements_ascii(input, p + 1, stack, nonempty, lax);
        } else {
            lemma_settled(input, p);
            lemma_value(input, p, stack, true);
            lemma_value_ascii(input, p, stack, lax);
            match value(input, p, stack, true) {
                Some(v) => {
                    lemma_elements_ascii(input, v.end, stack, true, lax);
                    match elements(input, v.end, stack, true, true) {
                        Some(m) => {
                            let sep = if nonempty {
                                seq![',']
                            } else {
                                Seq::<char>::empty()
                            };
                            lemma_plain(sep, lax);
                            lemma_join(sep, v.text, lax);
                            lemma_join(sep + v.text, m.text, lax);
                        },
                        None => {},
                    }
                },
                None => {},
            }
        }
    }
}

/// The fenced text keeps the property that its escapes are ASCII.
proof fn lemma_fenced_escapes(input: Seq<char>)
    requires
        escapes_are_ascii(input),
    ensures
        escapes_are_ascii(fenced(input)),
{
    lemma_first_occurrence(input, fence_open(), 0);
    lemma_last_occurrence(input, fence(), input.len() as int);
    let body = fenced(input);
    if body != input {
        let open = first_occurrence(input, fence_open(), 0)->0;
        assert forall|i: int|
            0 <= i && i + 1 < body.len() && #[trigger] body[i] == '\\' implies ascii(
            body[i + 1],
        ) by {
            assert(input[open + 7 + i] == '\\');
        }
    }
}

/// Under `ensure_ascii`, every scalar of the engine's text is ASCII, but
/// for one that a backslash of the input carries with it: such a scalar
/// stands directly after that backslash.
pub proof fn law_ascii_output(input: Seq<char>)
    ensures
        repaired(input, true) matches Some(text) ==> ascii_outside_escapes(text),
{
    reveal(held_to_ascii);
    let body = fenced(input);
    lemma_payload_start(body);
    lemma_value_ascii(body, payload_start(body), Seq::empty(), true);
}

/// Under `ensure_ascii`, the engine's text is ASCII where no backslash of
/// the input stands before a scalar that is not.
pub proof fn law_ascii_only(input: Seq<char>)
    requires
        escapes_are_ascii(input),
    ensures
        repaired(input, true) matches Some(text) ==> all_ascii(text),
{
    reveal(held_to_ascii);
    let body = fenced(input);
    lemma_fenced_escapes(input);
    lemma_payload_start(body);
    lemma_value_ascii(body, payload_start(body), Seq::empty(), false);
}

/// The most that a value may write for the scalars it consumes.
pub open spec fn budget(consumed: int) -> int {
    if consumed >= 1 {
        25 * consumed - 11
    } else {
        4
    }
}

proof fn lemma_emitted_len(c: char, ensure_ascii: bool)
    ensures
        emitted_scalar(c, ensure_ascii).len() <= 12,
{
}

proof fn lemma_quoted_body_len(input: Seq<char>, pos: int, close: char, ensure_ascii: bool)
    requires
        0 <= pos <= input.len(),
    ensures
        quoted_body(input, pos, close, ensure_ascii).text.len() <= 12 * (quoted_body(
            input,
            pos,
            close,
            ensure_ascii,
        ).end - pos) + 1,
    decreases input.len() - pos,
{
    lemma_quoted_body(input, pos, close, ensure_ascii);
    if pos < input.len() {
        let c = input[pos];
        if c == close {
        } else if c == '\\' && pos + 1 < input.len() {
            lemma_quoted_body_len(input, pos + 2, close, ensure_ascii);
        } else {
            lemma_quoted_body_len(input, pos + 1, close, ensure_ascii);
            lemma_emitted_len(c, ensure_ascii);
        }
    }
}

proof fn lemma_unquoted_body_len(input: Seq<char>, pos: int, ensure_ascii: bool)
    requires
        0 <= pos <= input.len(),
    ensures
        unquoted_body(input, pos, ensure_ascii).text.len() <= 12 * (unquoted_body(
            input,
            pos,
            ensure_ascii,
        ).end - pos) + 1,
    decreases input.len() - pos,
{
    lemma_unquoted_body(input, pos, ensure_ascii);
    if pos < input.len() {
        let c = input[pos];
        if structural(c) {
        } else if c != '"' && c != '\\' && unicode_whitespace(c) && blank_before_structural(
            input,
            pos,
        ) {
        } else {
            lemma_unquoted_body_len(input, pos + 1, ensure_ascii);
            lemma_emitted_len(c, ensure_ascii);
        }
    }
}

/// A string writes at most twelve scalars for each that it consumes, and
/// two more where it is unquoted.
proof fn lemma_string_len(input: Seq<char>, pos: int, ensure_ascii: bool)
    requires
        0 <= pos <= input.len(),
    ensures
        unquoted_string(input, pos, ensure_ascii).text.len() <= 12 * (unquoted_string(
            input,
            pos,
            ensure_ascii,
        ).end - pos) + 2,
        pos < input.len() ==> quoted_string(input, pos, ensure_ascii).text.len() <= 12 * (
        quoted_string(input, pos, ensure_ascii).end - pos) - 10,
        key(input, pos, ensure_ascii).text.len() <= 12 * (key(input, pos, ensure_ascii).end - pos)
            + 2,
{
    lemma_unquoted_body_len(input, pos, ensure_ascii);
    if pos < input.len() {
        lemma_quoted_body_len(input, pos + 1, closer(input[pos]), ensure_ascii);
    }
}

/// A number writes at most two scalars more than it consumes.
proof fn lemma_number_len(input: Seq<char>, pos: int)
    requires
        0 <= pos <= input.len(),
    ensures
        number_scan(input, pos).text.len() <= number_scan(input, pos).end - pos + 2,
{
    lemma_number_scan(input, pos);
    let b = integer_end(input, pos);
    let f = fraction(input, b);
    if at(input, b, '.') {
        lemma_digits_end(input, b + 1);
    }
    if at(input, f.end, 'e') || at(input, f.end, 'E') {
        lemma_digits_end(input, exponent_digits(input, f.end));
    }
}

/// A literal writes no more than it consumes.
proof fn lemma_literal_len(input: Seq<char>, pos: int, ensure_ascii: bool)
    requires
        0 <= pos <= input.len(),
    ensures
        literal(input, pos, ensure_ascii).text.len() <= 12 * (literal(
            input,
            pos,
            ensure_ascii,
        ).end - pos) + 2,
{
    lemma_run_end(input, pos);
    lemma_string_len(input, pos, ensure_ascii);
    let word = input.subrange(pos, run_end(input, pos));
    assert(lowered(word).len() == word.len());
}

/// A scalar value that consumes something writes within its budget.
proof fn lemma_scalar_len(input: Seq<char>, p: int, ensure_ascii: bool)
    requires
        0 <= p < input.len(),
    ensures
        quoted_string(input, p, ensure_ascii).text.len() <= budget(
            quoted_string(input, p, ensure_ascii).end - p,
        ),
        unquoted_string(input, p, ensure_ascii).text.len() <= budget(
            unquoted_string(input, p, ensure_ascii).end - p,
        ),
        number(input, p, ensure_ascii).text.len() <= budget(number(input, p, ensure_ascii).end - p),
        literal(input, p, ensure_ascii).text.len() <= budget(
            literal(input, p, ensure_ascii).end - p,
        ),
{
    lemma_string_len(input, p, ensure_ascii);
    lemma_quoted_string(input, p, ensure_ascii);
    lemma_unquoted_body(input, p, ensure_ascii);
    lemma_number_len(input, p);
    lemma_number_scan(input, p);
    lemma_literal_len(input, p, ensure_ascii);
    lemma_run_end(input, p);
}

/// A member with a key writes at most 25 scalars for each that it
/// consumes.
proof fn lemma_keyed_len(
    stack: Seq<ContextValues>,
    keys: Seq<Seq<char>>,
    name: Seq<char>,
    name_consumed: int,
    v: Seq<char>,
    v_consumed: int,
)
    requires
        name_consumed >= 1,
        v_consumed >= 0,
        name.len() <= 12 * name_consumed + 2,
        v.len() <= budget(v_consumed),
    ensures
        (separator(stack, keys, name) + name + seq![':'] + v).len() <= 25 * (name_consumed
            + v_consumed),
{
}

/// What a value writes lies within the budget of what it consumes.
proof fn lemma_value_len(
    input: Seq<char>,
    pos: int,
    stack: Seq<ContextValues>,
    ensure_ascii: bool,
)
    requires
        0 <= pos <= input.len(),
    ensures
        value(input, pos, stack, ensure_ascii) matches Some(v) ==> v.text.len() <= budget(
            v.end - pos,
        ),
    decreases input.len() - pos, 1int,
{
    lemma_skip_end(input, pos);
    lemma_value(input, pos, stack, ensure_ascii);
    let p = skip_end(input, pos);
    if p < input.len() {
        let c = input[p];
        lemma_scalar_len(input, p, ensure_ascii);
        if c == '{' && stack.len() < MAX_DEPTH {
            lemma_members_len(input, p + 1, stack, Seq::empty(), true, ensure_ascii);
            lemma_members(input, p + 1, stack, Seq::empty(), true, ensure_ascii);
        } else if c == '[' && stack.len() < MAX_DEPTH {
            let inner = stack.push(ContextValues::Array);
            lemma_elements_len(input, p + 1, inner, false, ensure_ascii);
            lemma_elements(input, p + 1, inner, false, ensure_ascii);
        }
    }
}

/// The members of an object write at most 25 scalars for each that they
/// consume, and the closing `}`.
#[verifier::rlimit(60)]
proof fn lemma_members_len(
    input: Seq<char>,
    pos: int,
    stack: Seq<ContextValues>,
    keys: Seq<Seq<char>>,
    fresh: bool,
    ensure_ascii: bool,
)
    requires
        0 <= pos <= input.len(),
    ensures
        members(input, pos, stack, keys, fresh, ensure_ascii) matches Some(m) ==> m.text.len()
            <= 25 * (m.end - pos) + 1,
    decreases input.len() - pos, 2int,
{
    lemma_skip_end(input, pos);
    let p = skip_end(input, pos);
    if p < input.len() {
        let c = input[p];
        let inner = stack.push(ContextValues::ObjectValue);
        if c == '}' {
        } else if c == ',' {
            lemma_members_len(input, p + 1, stack, keys, true, ensure_ascii);
        } else if c == ':' || c == ']' {
            lemma_members_len(input, p + 1, stack, keys, fresh, ensure_ascii);
        } else if fresh || opens_string(c) || alphabetic(c) {
            let k = member_key(input, p, ensure_ascii);
            lemma_key(input, p, ensure_ascii);
            lemma_string_len(input, p, ensure_ascii);
            lemma_skip_end(input, k.end);
            let q = skip_end(input, k.end);
            let r = if at(input, q, ':') {
                q + 1
            } else {
                q
            };
            lemma_value(input, r, inner, ensure_ascii);
            lemma_value_len(input, r, inner, ensure_ascii);
            match value(input, r, inner, ensure_ascii) {
                Some(v) => {
                    let later = if splits(stack, keys, k.text) {
                        seq![k.text]
                    } else {
                        keys.push(k.text)
                    };
                    lemma_members_len(input, v.end, stack, later, false, ensure_ascii);
                    lemma_keyed_len(stack, keys, k.text, k.end - p, v.text, v.end - r);
                },
                None => {},
            }
        } else {
            lemma_settled(input, p);
            lemma_value(input, p, inner, ensure_ascii);
            lemma_value_len(input, p, inner, ensure_ascii);
            match value(input, p, inner, ensure_ascii) {
                Some(v) => {
                    lemma_members_len(input, v.end, stack, keys, false, ensure_ascii);
                },
                None => {},
            }
        }
    }
}

/// The elements of an array write at most 25 scalars for each that they
/// consume, and the closing `]`.
proof fn lemma_elements_len(
    input: Seq<char>,
    pos: int,
    stack: Seq<ContextValues>,
    nonempty: bool,
    ensure_ascii: bool,
)
    requires
        0 <= pos <= input.len(),
    ensures
        elements(input, pos, stack, nonempty, ensure_ascii) matches Some(m) ==> m.text.len() <= 25
            * (m.end - pos) + 1,
    decreases input.len() - pos, 2int,
{
    lemma_skip_end(input, pos);
    let p = skip_end(input, pos);
    if p < input.len() {
        let c = input[p];
        if c == ']' {
        } else if c == ',' || c == ':' || c == '}' {
            lemma_elements_len(input, p + 1, stack, nonempty, ensure_ascii);
        } else {
            lemma_settled(input, p);
            lemma_value(input, p, stack, ensure_ascii);
            lemma_value_len(input, p, stack, ensure_ascii);
            match value(input, p, stack, ensure_ascii) {
                Some(v) => {
                    lemma_elements_len(input, v.end, stack, true, ensure_ascii);
                },
                None => {},
            }
        }
    }
}

/// Where a pattern is found, it stands inside the input.
proof fn lemma_first_occurrence(input: Seq<char>, pattern: Seq<char>, from: int)
    ensures
        first_occurrence(input, pattern, from) matches Some(i) ==> from <= i && i + pattern.len()
            <= input.len(),
    decreases input.len() - from + 1,
{
    if !(from < 0 || from + pattern.len() > input.len()) && !occurs_at(input, pattern, from) {
        lemma_first_occurrence(input, pattern, from + 1);
    }
}

proof fn lemma_last_occurrence(input: Seq<char>, pattern: Seq<char>, upto: int)
    ensures
        last_occurrence(input, pattern, upto) matches Some(i) ==> 0 <= i <= upto && i
            + pattern.len() <= input.len(),
    decreases upto + 1,
{
    if upto >= 0 && !occurs_at(input, pattern, upto) {
        lemma_last_occurrence(input, pattern, upto - 1);
    }
}

/// The fenced text is no longer than the input.
pub proof fn lemma_fenced(input: Seq<char>)
    ensures
        fenced(input).len() <= input.len(),
{
    lemma_first_occurrence(input, fence_open(), 0);
    lemma_last_occurrence(input, fence(), input.len() as int);
}

/// The engine's text is at most 25 times as long as the input, and four
/// scalars more.
pub proof fn law_output_length(input: Seq<char>, ensure_ascii: bool)
    ensures
        repaired(input, ensure_ascii) matches Some(text) ==> text.len() <= 25 * input.len() + 4,
{
    let body = fenced(input);
    lemma_fenced(input);
    lemma_payload_start(body);
    let start = payload_start(body);
    lemma_value(body, start, Seq::empty(), ensure_ascii);
    lemma_value_len(body, start, Seq::empty(), ensure_ascii);
}

proof fn lemma_contains_head(a: Seq<char>, b: Seq<char>, c: char)
    requires
        a.contains(c),
    ensures
        (a + b).contains(c),
{
    let i = choose|i: int| 0 <= i < a.len() && a[i] == c;
    assert((a + b)[i] == c);
}

proof fn lemma_contains_tail(a: Seq<char>, b: Seq<char>, c: char)
    requires
        b.contains(c),
    ensures
        (a + b).contains(c),
{
    let i = choose|i: int| 0 <= i < b.len() && b[i] == c;
    assert((a + b)[a.len() + i] == c);
}

proof fn lemma_quoted_body_keeps(input: Seq<char>, pos: int, close: char, i: int)
    requires
        0 <= pos <= i < quoted_body(input, pos, close, false).end,
        pos <= input.len(),
        input[i] != close,
    ensures
        quoted_body(input, pos, close, false).text.contains(input[i]),
    decreases input.len() - pos,
{
    lemma_quoted_body(input, pos, close, false);
    let c = input[pos];
    let x = input[i];
    if c == close {
    } else if c == '\\' && pos + 1 < input.len() {
        let head = seq!['\\', input[pos + 1]];
        let rest = quoted_body(input, pos + 2, close, false).text;
        if i == pos {
            assert(head[0] == x);
            lemma_contains_head(head, rest, x);
        } else if i == pos + 1 {
            assert(head[1] == x);
            lemma_contains_head(head, rest, x);
        } else {
            lemma_quoted_body_keeps(input, pos + 2, close, i);
            lemma_contains_tail(head, rest, x);
        }
    } else {
        let head = if c == '\\' {
            seq!['\\']
        } else if c == '"' {
            seq!['\\', '"']
        } else {
            emitted_scalar(c, false)
        };
        let rest = quoted_body(input, pos + 1, close, false).text;
        if i == pos {
            if c == '"' {
                assert(head[1] == x);
            } else {
                assert(head[0] == x);
            }
            lemma_contains_head(head, rest, x);
        } else {
            lemma_quoted_body_keeps(input, pos + 1, close, i);
            lemma_contains_tail(head, rest, x);
        }
    }
}

proof fn lemma_unquoted_body_keeps(input: Seq<char>, pos: int, i: int)
    requires
        0 <= pos <= i < unquoted_body(input, pos, false).end,
        pos <= input.len(),
    ensures
        unquoted_body(input, pos, false).text.contains(input[i]),
    decreases input.len() - pos,
{
    lemma_unquoted_body(input, pos, false);
    let c = input[pos];
    let x = input[i];
    let head = if c == '"' {
        seq!['\\', '"']
    } else if c == '\\' {
        seq!['\\', '\\']
    } else {
        emitted_scalar(c, false)
    };
    let rest = unquoted_body(input, pos + 1, false).text;
    if i == pos {
        if c == '"' {
            assert(head[1] == x);
        } else {
            assert(head[0] == x);
        }
        lemma_contains_head(head, rest, x);
    } else {
        lemma_unquoted_body_keeps(input, pos + 1, i);
        lemma_contains_tail(head, rest, x);
    }
}

/// Without `ensure_ascii`, every scalar between the delimiters of a quoted
/// string stands in the text written for it, but for the closing
/// delimiter itself.
pub proof fn law_quoted_keeps_scalars(input: Seq<char>, pos: int, i: int)
    requires
        0 <= pos < i < quoted_string(input, pos, false).end,
        pos < input.len(),
        input[i] != closer(input[pos]),
    ensures
        quoted_string(input, pos, false).text.contains(input[i]),
{
    let close = closer(input[pos]);
    lemma_quoted_body_keeps(input, pos + 1, close, i);
    lemma_contains_tail(seq!['"'], quoted_body(input, pos + 1, close, false).text, input[i]);
}

/// Without `ensure_ascii`, every scalar that an unquoted string consumes
/// stands in the text written for it.
pub proof fn law_unquoted_keeps_scalars(input: Seq<char>, pos: int, i: int)
    requires
        0 <= pos <= i < unquoted_string(input, pos, false).end,
        pos <= input.len(),
    ensures
        unquoted_string(input, pos, false).text.contains(input[i]),
{
    lemma_unquoted_body_keeps(input, pos, i);
    lemma_contains_tail(seq!['"'], unquoted_body(input, pos, false).text, input[i]);
}

/// The number of scalars `{` and `[` from `from` up to `to`.
pub open spec fn openers(input: Seq<char>, from: int, to: int) -> int
    decreases to - from,
{
    if from < to {
        openers(input, from + 1, to) + if input[from] == '{' || input[from] == '[' {
            1int
        } else {
            0int
        }
    } else {
        0
    }
}

/// Fewer scalars hold no more openers.
proof fn lemma_openers(input: Seq<char>, from: int, mid: int, to: int)
    requires
        from <= mid <= to,
    ensures
        0 <= openers(input, mid, to) <= openers(input, from, to),
        openers(input, from, mid) <= openers(input, from, to),
    decreases to - from,
{
    if from < mid {
        lemma_openers(input, from + 1, mid, to);
    } else if from < to {
        lemma_openers(input, from + 1, from + 1, to);
    }
}

/// A part of a text holds the openers of the text between its ends.
proof fn lemma_openers_part(input: Seq<char>, a: int, b: int, from: int)
    requires
        0 <= a <= b <= input.len(),
        0 <= from <= b - a,
    ensures
        openers(input.subrange(a, b), from, b - a) == openers(input, a + from, b),
    decreases b - a - from,
{
    if from < b - a {
        lemma_openers_part(input, a, b, from + 1);
    }
}

/// A value is repaired where the roles around it and the openers after
/// its position stay within the limit together.
proof fn lemma_value_shallow(
    input: Seq<char>,
    pos: int,
    stack: Seq<ContextValues>,
    ensure_ascii: bool,
)
    requires
        0 <= pos <= input.len(),
        stack.len() + openers(input, pos, input.len() as int) <= MAX_DEPTH,
    ensures
        value(input, pos, stack, ensure_ascii) is Some,
    decreases input.len() - pos, 1int,
{
    let n = input.len() as int;
    lemma_skip_end(input, pos);
    let p = skip_end(input, pos);
    lemma_openers(input, pos, p, n);
    if p < n {
        let c = input[p];
        lemma_openers(input, p, p + 1, n);
        if c == '{' {
            assert(openers(input, p, n) == openers(input, p + 1, n) + 1);
            lemma_members_shallow(input, p + 1, stack, Seq::empty(), true, ensure_ascii);
        } else if c == '[' {
            assert(openers(input, p, n) == openers(input, p + 1, n) + 1);
            let inner = stack.push(ContextValues::Array);
            lemma_elements_shallow(input, p + 1, inner, false, ensure_ascii);
        }
    }
}

proof fn lemma_members_shallow(
    input: Seq<char>,
    pos: int,
    stack: Seq<ContextValues>,
    keys: Seq<Seq<char>>,
    fresh: bool,
    ensure_ascii: bool,
)
    requires
        0 <= pos <= input.len(),
        stack.len() + 1 + openers(input, pos, input.len() as int) <= MAX_DEPTH,
    ensures
        members(input, pos, stack, keys, fresh, ensure_ascii) is Some,
    decreases input.len() - pos, 2int,
{
    let n = input.len() as int;
    lemma_skip_end(input, pos);
    let p = skip_end(input, pos);
    lemma_openers(input, pos, p, n);
    if p < n {
        let c = input[p];
        let inner = stack.push(ContextValues::ObjectValue);
        if c == '}' {
        } else if c == ',' {
            lemma_members_shallow(input, p + 1, stack, keys, true, ensure_ascii);
        } else if c == ':' || c == ']' {
            lemma_members_shallow(input, p + 1, stack, keys, fresh, ensure_ascii);
        } else if fresh || opens_string(c) || alphabetic(c) {
            let k = member_key(input, p, ensure_ascii);
            lemma_key(input, p, ensure_ascii);
            lemma_skip_end(input, k.end);
            let q = skip_end(input, k.end);
            let r = if at(input, q, ':') {
                q + 1
            } else {
                q
            };
            lemma_openers(input, p, r, n);
            lemma_value(input, r, inner, ensure_ascii);
            lemma_value_shallow(input, r, inner, ensure_ascii);
            let v = value(input, r, inner, ensure_ascii)->0;
            let later = if splits(stack, keys, k.text) {
                seq![k.text]
            } else {
                keys.push(k.text)
            };
            lemma_openers(input, r, v.end, n);
            lemma_members_shallow(input, v.end, stack, later, false, ensure_ascii);
        } else {
            lemma_settled(input, p);
            lemma_value(input, p, inner, ensure_ascii);
            lemma_value_shallow(input, p, inner, ensure_ascii);
            let v = value(input, p, inner, ensure_ascii)->0;
            lemma_openers(input, p, v.end, n);
            lemma_members_shallow(input, v.end, stack, keys, false, ensure_ascii);
        }
    }
}

proof fn lemma_elements_shallow(
    input: Seq<char>,
    pos: int,
    stack: Seq<ContextValues>,
    nonempty: bool,
    ensure_ascii: bool,
)
    requires
        0 <= pos <= input.len(),
        stack.len() + openers(input, pos, input.len() as int) <= MAX_DEPTH,
    ensures
        elements(input, pos, stack, nonempty, ensure_ascii) is Some,
    decreases input.len() - pos, 2int,
{
    let n = input.len() as int;
    lemma_skip_end(input, pos);
    let p = skip_end(input, pos);
    lemma_openers(input, pos, p, n);
    if p < n {
        let c = input[p];
        if c == ']' {
        } else if c == ',' || c == ':' || c == '}' {
            lemma_elements_shallow(input, p + 1, stack, nonempty, ensure_ascii);
        } else {
            lemma_settled(input, p);
            lemma_value(input, p, stack, ensure_ascii);
            lemma_value_shallow(input, p, stack, ensure_ascii);
            let v = value(input, p, stack, ensure_ascii)->0;
            lemma_openers(input, p, v.end, n);
            lemma_elements_shallow(input, v.end, stack, true, ensure_ascii);
        }
    }
}

/// The engine repairs every input that holds no more than `MAX_DEPTH`
/// scalars `{` and `[`.
pub proof fn law_shallow_input(input: Seq<char>, ensure_ascii: bool)
    requires
        openers(input, 0, input.len() as int) <= MAX_DEPTH,
    ensures
        repaired(input, ensure_ascii) is Some,
{
    let n = input.len() as int;
    let body = fenced(input);
    lemma_first_occurrence(input, fence_open(), 0);
    lemma_last_occurrence(input, fence(), n);
    if body != input {
        let open = first_occurrence(input, fence_open(), 0)->0;
        let close = last_occurrence(input, fence(), n)->0;
        lemma_openers_part(input, open + 7, close, 0);
        lemma_openers(input, 0, open + 7, close);
        lemma_openers(input, 0, close, n);
    }
    lemma_payload_start(body);
    let start = payload_start(body);
    lemma_openers(body, 0, start, body.len() as int);
    lemma_value_shallow(body, start, Seq::empty(), ensure_ascii);
}

} // verus!
