//! The model of the repair engine: values, objects and arrays, the preamble,
//! and the text that the engine produces for an input.

use vstd::prelude::*;
use crate::chars::ascii_digit;
use crate::chars::structural;
use crate::chars::alphabetic;
use crate::chars::unicode_whitespace;
use crate::context::top_of;
use crate::context::ContextValues;
use crate::grammar::at;
use crate::grammar::comment_end;
use crate::grammar::lemma_skip_end;
use crate::grammar::skip_end;
use crate::grammar::Step;
use crate::grammar::MAX_DEPTH;
use crate::scalars::lemma_literal;
use crate::scalars::lemma_number;
use crate::scalars::lemma_quoted_string;
use crate::scalars::lemma_run_end;
use crate::scalars::lemma_unquoted_body;
use crate::scalars::literal;
use crate::scalars::number;
use crate::scalars::closer;
use crate::scalars::opens_string;
use crate::scalars::quoted_string;
use crate::scalars::unquoted_string;
use crate::scalars::word_null;

verus! {

/// `end`, held between `least` and `most`: no step moves the cursor back or
/// past the end of the input.
pub open spec fn resume(end: int, least: int, most: int) -> int {
    if end < least {
        least
    } else if end > most {
        most
    } else {
        end
    }
}

/// The key that is written for a value that stands where a key is due.
pub open spec fn unknown_key() -> Seq<char> {
    seq!['"', 'u', 'n', 'k', 'n', 'o', 'w', 'n', '"']
}

/// The key that begins at `pos`: a quoted string where a delimiter opens
/// it, else an unquoted one. A key is never read as a literal.
pub open spec fn key(input: Seq<char>, pos: int, ensure_ascii: bool) -> Step {
    if 0 <= pos < input.len() && opens_string(input[pos]) {
        quoted_string(input, pos, ensure_ascii)
    } else {
        unquoted_string(input, pos, ensure_ascii)
    }
}

/// Where a key ends that was read from `pos` up to `end`. An empty quoted
/// key takes with it a stray closing delimiter that stands before a `:`,
/// or else a second empty pair of its delimiters; nothing is written for
/// either.
pub open spec fn key_end(input: Seq<char>, pos: int, end: int) -> int {
    if 0 <= pos && end == pos + 2 && end <= input.len() && opens_string(input[pos]) && input[pos
        + 1] == closer(input[pos]) {
        if at(input, end, closer(input[pos])) && at(input, end + 1, ':') {
            end + 1
        } else if at(input, end, input[pos]) && at(input, end + 1, closer(input[pos])) {
            end + 2
        } else {
            end
        }
    } else {
        end
    }
}

/// The key of a member that begins at `pos`: the text of the key, and the
/// end that `key_end` gives it.
pub open spec fn member_key(input: Seq<char>, pos: int, ensure_ascii: bool) -> Step {
    let k = key(input, pos, ensure_ascii);
    Step { text: k.text, end: key_end(input, pos, k.end) }
}

/// A key consumes its first scalar where that is no whitespace and neither
/// `,` nor `}` nor `:` nor `]`.
pub proof fn lemma_key(input: Seq<char>, pos: int, ensure_ascii: bool)
    requires
        0 <= pos < input.len(),
        !unicode_whitespace(input[pos]),
        !structural(input[pos]),
    ensures
        pos < key(input, pos, ensure_ascii).end <= member_key(input, pos, ensure_ascii).end
            <= input.len(),
{
    lemma_quoted_string(input, pos, ensure_ascii);
    lemma_unquoted_body(input, pos, ensure_ascii);
}

/// What is written between two members before the key `name`: `},{` where
/// the object is an element of an array and has that key already, which
/// ends it and begins its sibling; else `,` after a member, and nothing
/// before the first.
pub open spec fn separator(
    stack: Seq<ContextValues>,
    keys: Seq<Seq<char>>,
    name: Seq<char>,
) -> Seq<char> {
    if splits(stack, keys, name) {
        seq!['}', ',', '{']
    } else if keys.len() > 0 {
        seq![',']
    } else {
        Seq::<char>::empty()
    }
}

/// The key `name` recurs in an object that is an element of an array.
pub open spec fn splits(stack: Seq<ContextValues>, keys: Seq<Seq<char>>, name: Seq<char>) -> bool {
    top_of(stack) == Some(ContextValues::Array) && keys.contains(name)
}

/// The value that begins at or after `pos`, under the roles `stack`:
/// `null` at the end of the input, else the string, number, object, array
/// or literal that the first scalar after whitespace and comments selects,
/// and an unquoted string for any other scalar. `None` where an object or
/// array would nest deeper than `MAX_DEPTH`.
pub open spec fn value(
    input: Seq<char>,
    pos: int,
    stack: Seq<ContextValues>,
    ensure_ascii: bool,
) -> Option<Step>
    decreases input.len() - pos, 1int,
{
    let p = skip_end(input, pos);
    if 0 <= pos <= p && p < input.len() {
        let c = input[p];
        if opens_string(c) {
            Some(quoted_string(input, p, ensure_ascii))
        } else if ascii_digit(c) || c == '-' {
            Some(number(input, p, ensure_ascii))
        } else if c == '{' {
            object(input, p, stack, ensure_ascii)
        } else if c == '[' {
            array(input, p, stack, ensure_ascii)
        } else if alphabetic(c) {
            Some(literal(input, p, ensure_ascii))
        } else {
            Some(unquoted_string(input, p, ensure_ascii))
        }
    } else {
        Some(Step { text: word_null(), end: p })
    }
}

/// The object whose `{` stands at `pos`, under the roles `stack`: `{` and
/// its members. `None` where it would nest deeper than `MAX_DEPTH`, and
/// where `pos` lies outside the input.
pub open spec fn object(
    input: Seq<char>,
    pos: int,
    stack: Seq<ContextValues>,
    ensure_ascii: bool,
) -> Option<Step>
    decreases input.len() - pos, 0int,
{
    if stack.len() >= MAX_DEPTH || !(0 <= pos < input.len()) {
        None
    } else {
        match members(input, pos + 1, stack, Seq::empty(), true, ensure_ascii) {
            Some(m) => Some(Step { text: seq!['{'] + m.text, end: m.end }),
            None => None,
        }
    }
}

/// The array whose `[` stands at `pos`, under the roles `stack`: `[` and
/// its elements. `None` where it would nest deeper than `MAX_DEPTH`, and
/// where `pos` lies outside the input.
pub open spec fn array(
    input: Seq<char>,
    pos: int,
    stack: Seq<ContextValues>,
    ensure_ascii: bool,
) -> Option<Step>
    decreases input.len() - pos, 0int,
{
    if stack.len() >= MAX_DEPTH || !(0 <= pos < input.len()) {
        None
    } else {
        match elements(input, pos + 1, stack.push(ContextValues::Array), false, ensure_ascii) {
            Some(m) => Some(Step { text: seq!['['] + m.text, end: m.end }),
            None => None,
        }
    }
}

/// The members of an object from `pos` on, with its closing `}`. `stack`
/// holds the roles around the object, `keys` the keys written so far, and
/// `fresh` says that a key is due: at the start and after a comma.
///
/// After whitespace and comments: the end of the input and `}` close the
/// object; `,` is consumed and makes a key due; a stray `:` or `]` is
/// consumed. Any other scalar begins a member. Where a key is due, or the
/// scalar is a string delimiter or alphabetic, the member is a key as
/// `member_key` reads it, a `:` (consumed where it is there) and a value.
/// Otherwise it is a value under the key `"unknown"`. Members are
/// separated as `separator` says.
pub open spec fn members(
    input: Seq<char>,
    pos: int,
    stack: Seq<ContextValues>,
    keys: Seq<Seq<char>>,
    fresh: bool,
    ensure_ascii: bool,
) -> Option<Step>
    decreases input.len() - pos, 2int,
{
    let p = skip_end(input, pos);
    if 0 <= pos <= p && p < input.len() {
        let c = input[p];
        if c == '}' {
            Some(Step { text: seq!['}'], end: p + 1 })
        } else if c == ',' {
            members(input, p + 1, stack, keys, true, ensure_ascii)
        } else if c == ':' || c == ']' {
            members(input, p + 1, stack, keys, fresh, ensure_ascii)
        } else if fresh || opens_string(c) || alphabetic(c) {
            let k = member_key(input, p, ensure_ascii);
            let q = skip_end(input, k.end);
            let r = if at(input, q, ':') {
                q + 1
            } else {
                q
            };
            proof {
                lemma_skip_end(input, pos);
                lemma_key(input, p, ensure_ascii);
                lemma_skip_end(input, k.end);
            }
            match value(input, r, stack.push(ContextValues::ObjectValue), ensure_ascii) {
                Some(v) => {
                    let later = if splits(stack, keys, k.text) {
                        seq![k.text]
                    } else {
                        keys.push(k.text)
                    };
                    match members(
                        input,
                        resume(v.end, r, input.len() as int),
                        stack,
                        later,
                        false,
                        ensure_ascii,
                    ) {
                        Some(m) => Some(
                            Step {
                                text: separator(stack, keys, k.text) + k.text + seq![':'] + v.text
                                    + m.text,
                                end: m.end,
                            },
                        ),
                        None => None,
                    }
                },
                None => None,
            }
        } else {
            match value(input, p, stack.push(ContextValues::ObjectValue), ensure_ascii) {
                Some(v) => match members(
                    input,
                    resume(v.end, p + 1, input.len() as int),
                    stack,
                    keys,
                    false,
                    ensure_ascii,
                ) {
                    Some(m) => Some(
                        Step {
                            text: seq![','] + unknown_key() + seq![':'] + v.text + m.text,
                            end: m.end,
                        },
                    ),
                    None => None,
                },
                None => None,
            }
        }
    } else {
        Some(Step { text: seq!['}'], end: p })
    }
}

/// The elements of an array from `pos` on, with its closing `]`. `stack`
/// holds the roles down to the array itself, and `nonempty` says that an
/// element has been written.
///
/// After whitespace and comments: the end of the input and `]` close the
/// array; `,` and a stray `:` or `}` are consumed. Any other scalar begins
/// a value, written after a `,` where it is not the first.
pub open spec fn elements(
    input: Seq<char>,
    pos: int,
    stack: Seq<ContextValues>,
    nonempty: bool,
    ensure_ascii: bool,
) -> Option<Step>
    decreases input.len() - pos, 2int,
{
    let p = skip_end(input, pos);
    if 0 <= pos <= p && p < input.len() {
        let c = input[p];
        if c == ']' {
            Some(Step { text: seq![']'], end: p + 1 })
        } else if c == ',' || c == ':' || c == '}' {
            elements(input, p + 1, stack, nonempty, ensure_ascii)
        } else {
            match value(input, p, stack, ensure_ascii) {
                Some(v) => match elements(
                    input,
                    resume(v.end, p + 1, input.len() as int),
                    stack,
                    true,
                    ensure_ascii,
                ) {
                    Some(m) => Some(
                        Step {
                            text: (if nonempty {
                                seq![',']
                            } else {
                                Seq::<char>::empty()
                            }) + v.text + m.text,
                            end: m.end,
                        },
                    ),
                    None => None,
                },
                None => None,
            }
        }
    } else {
        Some(Step { text: seq![']'], end: p })
    }
}

/// The cursor rests where the skip pass leaves it: on a scalar that is no
/// whitespace and begins no comment.
pub open spec fn settled(input: Seq<char>, pos: int) -> bool {
    &&& 0 <= pos < input.len()
    &&& !unicode_whitespace(input[pos])
    &&& comment_end(input, pos) == pos
}

/// Where the skip pass has ended, it moves no further.
pub proof fn lemma_settled(input: Seq<char>, pos: int)
    requires
        settled(input, pos),
    ensures
        skip_end(input, pos) == pos,
{
}

/// A value ends inside the input, at or after the position where it was
/// looked for, and it consumes a scalar that is not structural.
pub proof fn lemma_value(input: Seq<char>, pos: int, stack: Seq<ContextValues>, ensure_ascii: bool)
    requires
        0 <= pos <= input.len(),
    ensures
        value(input, pos, stack, ensure_ascii) matches Some(v) ==> {
            &&& pos <= skip_end(input, pos) <= v.end <= input.len()
            &&& skip_end(input, pos) < input.len() && !structural(input[skip_end(input, pos)])
                ==> skip_end(input, pos) < v.end
        },
    decreases input.len() - pos, 1int,
{
    lemma_skip_end(input, pos);
    let p = skip_end(input, pos);
    if p < input.len() {
        let c = input[p];
        if opens_string(c) {
            lemma_quoted_string(input, p, ensure_ascii);
        } else if ascii_digit(c) || c == '-' {
            lemma_number(input, p, ensure_ascii);
        } else if c == '{' {
            if stack.len() < MAX_DEPTH {
                lemma_members(input, p + 1, stack, Seq::empty(), true, ensure_ascii);
            }
        } else if c == '[' {
            if stack.len() < MAX_DEPTH {
                lemma_elements(input, p + 1, stack.push(ContextValues::Array), false, ensure_ascii);
            }
        } else if alphabetic(c) {
            lemma_unquoted_body(input, p, ensure_ascii);
            lemma_run_end(input, p);
            if !structural(c) {
                lemma_literal(input, p, ensure_ascii);
            }
        } else {
            lemma_unquoted_body(input, p, ensure_ascii);
        }
    }
}

/// The members of an object end inside the input, at or after the
/// position where they were looked for.
pub proof fn lemma_members(
    input: Seq<char>,
    pos: int,
    stack: Seq<ContextValues>,
    keys: Seq<Seq<char>>,
    fresh: bool,
    ensure_ascii: bool,
)
    requires
        0 <= pos <= input.len(),
    ensures
        members(input, pos, stack, keys, fresh, ensure_ascii) matches Some(m) ==> pos <= m.end
            <= input.len(),
    decreases input.len() - pos, 2int,
{
    lemma_skip_end(input, pos);
    let p = skip_end(input, pos);
    if p < input.len() {
        let c = input[p];
        if c == '}' {
        } else if c == ',' {
            lemma_members(input, p + 1, stack, keys, true, ensure_ascii);
        } else if c == ':' || c == ']' {
            lemma_members(input, p + 1, stack, keys, fresh, ensure_ascii);
        } else if fresh || opens_string(c) || alphabetic(c) {
            let k = member_key(input, p, ensure_ascii);
            lemma_key(input, p, ensure_ascii);
            lemma_skip_end(input, k.end);
            let q = skip_end(input, k.end);
            let r = if at(input, q, ':') {
                q + 1
            } else {
                q
            };
            let inner = stack.push(ContextValues::ObjectValue);
            lemma_value(input, r, inner, ensure_ascii);
            match value(input, r, inner, ensure_ascii) {
                Some(v) => {
                    let later = if splits(stack, keys, k.text) {
                        seq![k.text]
                    } else {
                        keys.push(k.text)
                    };
                    lemma_members(input, v.end, stack, later, false, ensure_ascii);
                },
                None => {},
            }
        } else {
            let inner = stack.push(ContextValues::ObjectValue);
            lemma_value(input, p, inner, ensure_ascii);
            lemma_settled(input, p);
            match value(input, p, inner, ensure_ascii) {
                Some(v) => {
                    lemma_members(input, v.end, stack, keys, false, ensure_ascii);
                },
                None => {},
            }
        }
    }
}

/// The elements of an array end inside the input, at or after the
/// position where they were looked for.
pub proof fn lemma_elements(
    input: Seq<char>,
    pos: int,
    stack: Seq<ContextValues>,
    nonempty: bool,
    ensure_ascii: bool,
)
    requires
        0 <= pos <= input.len(),
    ensures
        elements(input, pos, stack, nonempty, ensure_ascii) matches Some(m) ==> pos <= m.end
            <= input.len(),
    decreases input.len() - pos, 2int,
{
    lemma_skip_end(input, pos);
    let p = skip_end(input, pos);
    if p < input.len() {
        let c = input[p];
        if c == ']' {
        } else if c == ',' || c == ':' || c == '}' {
            lemma_elements(input, p + 1, stack, nonempty, ensure_ascii);
        } else {
            lemma_value(input, p, stack, ensure_ascii);
            lemma_settled(input, p);
            match value(input, p, stack, ensure_ascii) {
                Some(v) => {
                    lemma_elements(input, v.end, stack, true, ensure_ascii);
                },
                None => {},
            }
        }
    }
}

/// The marker that opens a fenced block of JSON.
pub open spec fn fence_open() -> Seq<char> {
    seq!['`', '`', '`', 'j', 's', 'o', 'n']
}

/// The marker that closes a fenced block.
pub open spec fn fence() -> Seq<char> {
    seq!['`', '`', '`']
}

/// `pattern` stands in `input` at position `i`.
pub open spec fn occurs_at(input: Seq<char>, pattern: Seq<char>, i: int) -> bool {
    0 <= i && i + pattern.len() <= input.len() && input.subrange(i, i + pattern.len()) == pattern
}

/// The first position at or after `from` where `pattern` stands.
pub open spec fn first_occurrence(input: Seq<char>, pattern: Seq<char>, from: int) -> Option<int>
    decreases input.len() - from + 1,
{
    if from < 0 || from + pattern.len() > input.len() {
        None
    } else if occurs_at(input, pattern, from) {
        Some(from)
    } else {
        first_occurrence(input, pattern, from + 1)
    }
}

/// The last position at or before `upto` where `pattern` stands.
pub open spec fn last_occurrence(input: Seq<char>, pattern: Seq<char>, upto: int) -> Option<int>
    decreases upto + 1,
{
    if upto < 0 {
        None
    } else if occurs_at(input, pattern, upto) {
        Some(upto)
    } else {
        last_occurrence(input, pattern, upto - 1)
    }
}

/// The text that is repaired: what lies between the first opening fence
/// and the last closing fence where the input holds both with something
/// between them, else the whole input.
pub open spec fn fenced(input: Seq<char>) -> Seq<char> {
    match first_occurrence(input, fence_open(), 0) {
        Some(open) => match last_occurrence(input, fence(), input.len() as int) {
            Some(close) => if close > open + 7 {
                input.subrange(open + 7, close)
            } else {
                input
            },
            None => input,
        },
        None => input,
    }
}

/// A scalar that may begin a JSON value: `{`, `[`, `"`, `'`, `-`, a digit
/// or an alphabetic scalar.
pub open spec fn plausible_start(c: char) -> bool {
    c == '{' || c == '[' || c == '"' || c == '\'' || c == '-' || ascii_digit(c)
        || alphabetic(c)
}

/// The first position at or after `pos` that holds a plausible start.
pub open spec fn prose_end(input: Seq<char>, pos: int) -> int
    decreases input.len() - pos,
{
    if 0 <= pos < input.len() && !plausible_start(input[pos]) {
        prose_end(input, pos + 1)
    } else {
        pos
    }
}

/// The first position at or after `pos` that holds `{` or `[`; the end of
/// the input where none does.
pub open spec fn first_bracket(input: Seq<char>, pos: int) -> int
    decreases input.len() - pos,
{
    if 0 <= pos < input.len() && input[pos] != '{' && input[pos] != '[' {
        first_bracket(input, pos + 1)
    } else {
        pos
    }
}

/// Where the value of a document begins: at the first `{` or `[` after the
/// leading prose where there is one, else at the first plausible start.
pub open spec fn payload_start(input: Seq<char>) -> int {
    let p = prose_end(input, 0);
    let b = first_bracket(input, p);
    if b < input.len() {
        b
    } else {
        p
    }
}

/// The value of a document whose fenced text is `body`: the value that
/// begins at the payload's start, under no role.
pub open spec fn root(body: Seq<char>, ensure_ascii: bool) -> Option<Step> {
    value(body, payload_start(body), Seq::empty(), ensure_ascii)
}

/// The text that the engine produces for `input`: the value of the fenced
/// text; what follows that value is dropped. `None` where the input nests
/// deeper than `MAX_DEPTH`.
pub open spec fn repaired(input: Seq<char>, ensure_ascii: bool) -> Option<Seq<char>> {
    match root(fenced(input), ensure_ascii) {
        Some(v) => Some(v.text),
        None => None,
    }
}

pub proof fn lemma_prose_end(input: Seq<char>, pos: int)
    requires
        0 <= pos <= input.len(),
    ensures
        pos <= prose_end(input, pos) <= input.len(),
    decreases input.len() - pos,
{
    if pos < input.len() && !plausible_start(input[pos]) {
        lemma_prose_end(input, pos + 1);
    }
}

pub proof fn lemma_first_bracket(input: Seq<char>, pos: int)
    requires
        0 <= pos <= input.len(),
    ensures
        pos <= first_bracket(input, pos) <= input.len(),
    decreases input.len() - pos,
{
    if pos < input.len() && input[pos] != '{' && input[pos] != '[' {
        lemma_first_bracket(input, pos + 1);
    }
}

/// The payload begins inside the input.
pub proof fn lemma_payload_start(input: Seq<char>)
    ensures
        0 <= payload_start(input) <= input.len(),
{
    lemma_prose_end(input, 0);
    lemma_first_bracket(input, prose_end(input, 0));
}

} // verus!
