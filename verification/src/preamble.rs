//! The preamble scanner and the entry point of the engine.

use vstd::prelude::*;
use crate::chars::is_alphabetic;
use crate::chars::is_ascii_digit;
use crate::context::ContextValues;
use crate::document::fence;
use crate::document::fence_open;
use crate::document::fenced;
use crate::document::first_bracket;
use crate::document::first_occurrence;
use crate::document::last_occurrence;
use crate::document::occurs_at;
use crate::document::payload_start;
use crate::document::plausible_start;
use crate::document::prose_end;
use crate::document::repaired;
use crate::document::root;
use crate::error::JsonRepairError;
use crate::parser::JsonRepairParser;
use crate::text::text_of;

verus! {

/// Whether `c` may begin a JSON value.
pub fn is_plausible_start(c: char) -> (b: bool)
    ensures
        b == plausible_start(c),
{
    c == '{' || c == '[' || c == '"' || c == '\'' || c == '-' || is_ascii_digit(c)
        || is_alphabetic(c)
}

/// Whether a closing fence stands in `input` at `i`.
fn fence_at(input: &Vec<char>, i: usize) -> (b: bool)
    requires
        i <= input@.len(),
    ensures
        b == occurs_at(input@, fence(), i as int),
{
    if input.len() - i < 3 {
        return false;
    }
    let b = input[i] == '`' && input[i + 1] == '`' && input[i + 2] == '`';
    proof {
        let found = input@.subrange(i as int, i + 3);
        if b {
            assert(found =~= fence());
        } else {
            assert(found[0] == input@[i as int]);
            assert(found[1] == input@[i + 1]);
            assert(found[2] == input@[i + 2]);
        }
    }
    b
}

/// Whether an opening fence stands in `input` at `i`.
fn fence_open_at(input: &Vec<char>, i: usize) -> (b: bool)
    requires
        i <= input@.len(),
    ensures
        b == occurs_at(input@, fence_open(), i as int),
{
    if input.len() - i < 7 {
        return false;
    }
    let b = input[i] == '`' && input[i + 1] == '`' && input[i + 2] == '`' && input[i + 3] == 'j'
        && input[i + 4] == 's' && input[i + 5] == 'o' && input[i + 6] == 'n';
    proof {
        let found = input@.subrange(i as int, i + 7);
        if b {
            assert(found =~= fence_open());
        } else {
            assert(found[0] == input@[i as int]);
            assert(found[1] == input@[i + 1]);
            assert(found[2] == input@[i + 2]);
            assert(found[3] == input@[i + 3]);
            assert(found[4] == input@[i + 4]);
            assert(found[5] == input@[i + 5]);
            assert(found[6] == input@[i + 6]);
        }
    }
    b
}

/// The first position where an opening fence stands.
fn find_fence_open(input: &Vec<char>) -> (found: Option<usize>)
    ensures
        match found {
            Some(i) => first_occurrence(input@, fence_open(), 0) == Some(i as int) && i + 7
                <= input@.len(),
            None => first_occurrence(input@, fence_open(), 0) is None,
        },
{
    let mut i: usize = 0;
    while i < input.len()
        invariant
            i <= input@.len(),
            first_occurrence(input@, fence_open(), i as int) == first_occurrence(
                input@,
                fence_open(),
                0,
            ),
        decreases input@.len() - i,
    {
        if fence_open_at(input, i) {
            return Some(i);
        }
        i = i + 1;
    }
    None
}

/// The last position where a closing fence stands.
fn find_fence(input: &Vec<char>) -> (found: Option<usize>)
    ensures
        match found {
            Some(i) => last_occurrence(input@, fence(), input@.len() as int) == Some(i as int)
                && i + 3 <= input@.len(),
            None => last_occurrence(input@, fence(), input@.len() as int) is None,
        },
{
    let mut i: usize = input.len();
    loop
        invariant
            i <= input@.len(),
            last_occurrence(input@, fence(), i as int) == last_occurrence(
                input@,
                fence(),
                input@.len() as int,
            ),
        decreases i,
    {
        if fence_at(input, i) {
            return Some(i);
        }
        if i == 0 {
            return None;
        }
        i = i - 1;
    }
}

/// The text that is repaired: the content of the fenced block where
/// `input` holds one, else `input`.
pub fn take_fenced(input: Vec<char>) -> (body: Vec<char>)
    ensures
        body@ == fenced(input@),
{
    let open = match find_fence_open(&input) {
        Some(i) => i,
        None => {
            return input;
        },
    };
    let close = match find_fence(&input) {
        Some(i) => i,
        None => {
            return input;
        },
    };
    if close < 7 || close - 7 <= open {
        return input;
    }
    let mut body: Vec<char> = Vec::new();
    let mut i: usize = open + 7;
    while i < close
        invariant
            open + 7 <= i <= close <= input@.len(),
            body@ == input@.subrange(open + 7, i as int),
        decreases close - i,
    {
        body.push(input[i]);
        i = i + 1;
        assert(body@ =~= input@.subrange(open + 7, i as int));
    }
    body
}

impl JsonRepairParser {
    /// Repairs the whole input into the output.
    pub fn parse(&mut self) -> (result: Result<(), JsonRepairError>)
        requires
            old(self).wf(),
            old(self).pos == 0,
            old(self).output@ == Seq::<char>::empty(),
            old(self).context@ == Seq::<ContextValues>::empty(),
        ensures
            final(self).wf(),
            final(self).input@ == fenced(old(self).input@),
            final(self).options == old(self).options,
            match repaired(old(self).input@, old(self).options.ensure_ascii) {
                Some(text) => {
                    &&& result is Ok
                    &&& final(self).output@ == text
                    &&& final(self).context@ == old(self).context@
                    &&& final(self).pos == root(
                        fenced(old(self).input@),
                        old(self).options.ensure_ascii,
                    )->0.end
                },
                None => result matches Err(JsonRepairError::NestingLimitExceeded),
            },
    {
        let mut whole: Vec<char> = Vec::new();
        std::mem::swap(&mut whole, &mut self.input);
        self.input = take_fenced(whole);
        let ghost body = self.input@;
        while self.pos < self.input.len() && !is_plausible_start(self.input[self.pos])
            invariant
                self.wf(),
                self.input@ == body,
                self.options == old(self).options,
                self.output@ == Seq::<char>::empty(),
                self.context@ == Seq::<ContextValues>::empty(),
                prose_end(body, self.pos as int) == prose_end(body, 0),
            decreases self.input@.len() - self.pos,
        {
            self.pos += 1;
        }
        let mut bracket: usize = self.pos;
        while bracket < self.input.len() && self.input[bracket] != '{' && self.input[bracket]
            != '['
            invariant
                self.pos <= bracket <= body.len(),
                self.input@ == body,
                first_bracket(body, bracket as int) == first_bracket(body, self.pos as int),
            decreases self.input@.len() - bracket,
        {
            bracket = bracket + 1;
        }
        if bracket < self.input.len() {
            self.pos = bracket;
        }
        assert(self.pos == payload_start(body));
        let result = self.parse_value();
        assert(Seq::<char>::empty() + self.output@ =~= self.output@);
        result
    }

    /// The output as text.
    pub fn get_result(self) -> (text: String)
        ensures
            text@ == self.output@,
    {
        text_of(&self.output)
    }
}

} // verus!
