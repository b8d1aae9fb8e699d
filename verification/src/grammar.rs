//! The repair rules as a mathematical model: what each sub-parser appends to
//! the output, and where it leaves the cursor, as functions of the input.

use vstd::prelude::*;
use crate::chars::unicode_whitespace;

verus! {

/// The deepest nesting of objects and arrays that is repaired.
pub const MAX_DEPTH: usize = 1024;

/// What one sub-parser does: the text it appends to the output and the
/// position of the cursor after it.
pub struct Step {
    pub text: Seq<char>,
    pub end: int,
}

/// The scalar at `pos` is `c`.
pub open spec fn at(input: Seq<char>, pos: int, c: char) -> bool {
    0 <= pos < input.len() && input[pos] == c
}

/// The first position at or after `pos` that holds no whitespace.
pub open spec fn whitespace_end(input: Seq<char>, pos: int) -> int
    decreases input.len() - pos,
{
    if 0 <= pos < input.len() && unicode_whitespace(input[pos]) {
        whitespace_end(input, pos + 1)
    } else {
        pos
    }
}

/// The position after the first newline at or after `pos`, the end of the
/// input where there is none.
pub open spec fn line_end(input: Seq<char>, pos: int) -> int
    decreases input.len() - pos,
{
    if 0 <= pos < input.len() {
        if input[pos] == '\n' {
            pos + 1
        } else {
            line_end(input, pos + 1)
        }
    } else {
        pos
    }
}

/// The position after the first `*/` at or after `pos`, the end of the input
/// where there is none.
pub open spec fn block_end(input: Seq<char>, pos: int) -> int
    decreases input.len() - pos,
{
    if 0 <= pos < input.len() {
        if input[pos] == '*' && at(input, pos + 1, '/') {
            pos + 2
        } else {
            block_end(input, pos + 1)
        }
    } else {
        pos
    }
}

/// The end of the comment that begins at `pos`; `pos` itself where none
/// begins there. A line comment begins with `//` or `#`, a block comment
/// with `/*`.
pub open spec fn comment_end(input: Seq<char>, pos: int) -> int {
    if at(input, pos, '#') {
        line_end(input, pos + 1)
    } else if at(input, pos, '/') && at(input, pos + 1, '/') {
        line_end(input, pos + 2)
    } else if at(input, pos, '/') && at(input, pos + 1, '*') {
        block_end(input, pos + 2)
    } else {
        pos
    }
}

/// The first position at or after `pos` that begins neither whitespace nor
/// a comment.
pub open spec fn skip_end(input: Seq<char>, pos: int) -> int
    decreases input.len() - pos,
{
    let w = whitespace_end(input, pos);
    let c = comment_end(input, w);
    if pos <= w < c <= input.len() {
        skip_end(input, c)
    } else {
        w
    }
}

pub proof fn lemma_whitespace_end(input: Seq<char>, pos: int)
    requires
        0 <= pos <= input.len(),
    ensures
        pos <= whitespace_end(input, pos) <= input.len(),
        whitespace_end(input, pos) < input.len() ==> !unicode_whitespace(
            input[whitespace_end(input, pos)],
        ),
    decreases input.len() - pos,
{
    if pos < input.len() && unicode_whitespace(input[pos]) {
        lemma_whitespace_end(input, pos + 1);
    }
}

pub proof fn lemma_line_end(input: Seq<char>, pos: int)
    requires
        0 <= pos <= input.len(),
    ensures
        pos <= line_end(input, pos) <= input.len(),
    decreases input.len() - pos,
{
    if pos < input.len() && input[pos] != '\n' {
        lemma_line_end(input, pos + 1);
    }
}

pub proof fn lemma_block_end(input: Seq<char>, pos: int)
    requires
        0 <= pos <= input.len(),
    ensures
        pos <= block_end(input, pos) <= input.len(),
    decreases input.len() - pos,
{
    if pos < input.len() && !(input[pos] == '*' && at(input, pos + 1, '/')) {
        lemma_block_end(input, pos + 1);
    }
}

pub proof fn lemma_comment_end(input: Seq<char>, pos: int)
    requires
        0 <= pos <= input.len(),
    ensures
        pos <= comment_end(input, pos) <= input.len(),
{
    if at(input, pos, '#') {
        lemma_line_end(input, pos + 1);
    } else if at(input, pos, '/') && at(input, pos + 1, '/') {
        lemma_line_end(input, pos + 2);
    } else if at(input, pos, '/') && at(input, pos + 1, '*') {
        lemma_block_end(input, pos + 2);
    }
}

/// The skip pass moves forward, stays inside the input and stops at a
/// scalar that is no whitespace.
pub proof fn lemma_skip_end(input: Seq<char>, pos: int)
    requires
        0 <= pos <= input.len(),
    ensures
        pos <= skip_end(input, pos) <= input.len(),
        skip_end(input, pos) < input.len() ==> !unicode_whitespace(input[skip_end(input, pos)]),
        comment_end(input, skip_end(input, pos)) == skip_end(input, pos),
    decreases input.len() - pos,
{
    let w = whitespace_end(input, pos);
    lemma_whitespace_end(input, pos);
    lemma_comment_end(input, w);
    let c = comment_end(input, w);
    if w < c {
        lemma_skip_end(input, c);
    }
}

} // verus!
