//! The repair engine: a cursor over the input, the output buffer, and one
//! method for each sub-parser.

use vstd::prelude::*;
use crate::chars::is_whitespace;
use crate::context::ContextValues;
use crate::context::JsonContext;
use crate::error::JsonRepairError;
use crate::grammar::at;
use crate::grammar::block_end;
use crate::grammar::comment_end;
use crate::grammar::lemma_comment_end;
use crate::grammar::lemma_whitespace_end;
use crate::grammar::line_end;
use crate::grammar::skip_end;
use crate::grammar::whitespace_end;
use crate::grammar::Step;
use crate::options::RepairOptions;
use crate::text::scalars_of;

verus! {

/// The state of one repair.
pub struct JsonRepairParser {
    pub input: Vec<char>,
    pub pos: usize,
    pub output: Vec<char>,
    pub context: JsonContext,
    pub options: RepairOptions,
}

impl JsonRepairParser {
    /// The cursor stands inside the input or at its end, and the roles are
    /// well formed.
    pub open spec fn wf(&self) -> bool {
        &&& self.pos <= self.input@.len()
        &&& self.context.wf()
    }

    /// `next` is this parser with the cursor moved to `pos` and nothing
    /// else changed.
    pub open spec fn moved_to(&self, next: Self, pos: int) -> bool {
        &&& next.wf()
        &&& next.input@ == self.input@
        &&& next.options == self.options
        &&& next.context@ == self.context@
        &&& next.output@ == self.output@
        &&& next.pos == pos
    }

    /// `next` is this parser after a sub-parser that did `step`: the text
    /// is appended to the output and the cursor stands at the step's end.
    pub open spec fn stepped(&self, next: Self, step: Step) -> bool {
        &&& next.wf()
        &&& next.input@ == self.input@
        &&& next.options == self.options
        &&& next.context@ == self.context@
        &&& next.output@ == self.output@ + step.text
        &&& next.pos == step.end
    }

    /// `next` is this parser after a sub-parser that failed: well formed,
    /// with the input and the options as they were.
    pub open spec fn failed(&self, next: Self) -> bool {
        &&& next.wf()
        &&& next.input@ == self.input@
        &&& next.options == self.options
    }

    /// `next` and `result` are what a sub-parser that may fail leaves: the
    /// step done where there is one, else the error of the nesting limit.
    pub open spec fn outcome(
        &self,
        next: Self,
        result: Result<(), JsonRepairError>,
        step: Option<Step>,
    ) -> bool {
        match step {
            Some(s) => result is Ok && self.stepped(next, s),
            None => result matches Err(JsonRepairError::NestingLimitExceeded) && self.failed(
                next,
            ),
        }
    }

    pub fn new(input: &str, options: RepairOptions) -> (parser: Self)
        ensures
            parser.wf(),
            parser.input@ == input@,
            parser.pos == 0,
            parser.output@ == Seq::<char>::empty(),
            parser.context@ == Seq::<ContextValues>::empty(),
            parser.options == options,
    {
        JsonRepairParser {
            input: scalars_of(input),
            pos: 0,
            output: Vec::new(),
            context: JsonContext::new(),
            options,
        }
    }

    /// The scalar under the cursor.
    pub fn current_char(&self) -> (c: Option<char>)
        requires
            self.wf(),
        ensures
            c == if self.pos < self.input@.len() {
                Some(self.input@[self.pos as int])
            } else {
                None
            },
    {
        if self.pos < self.input.len() {
            Some(self.input[self.pos])
        } else {
            None
        }
    }

    /// The scalar `offset` places after the cursor.
    pub fn peek_char(&self, offset: usize) -> (c: Option<char>)
        requires
            self.wf(),
        ensures
            c == if self.pos + offset < self.input@.len() {
                Some(self.input@[self.pos + offset])
            } else {
                None
            },
    {
        if offset < self.input.len() - self.pos {
            Some(self.input[self.pos + offset])
        } else {
            None
        }
    }

    /// Moves the cursor over one scalar and returns it.
    pub fn advance(&mut self) -> (c: Option<char>)
        requires
            old(self).wf(),
        ensures
            c == if old(self).pos < old(self).input@.len() {
                Some(old(self).input@[old(self).pos as int])
            } else {
                None
            },
            old(self).moved_to(
                *final(self),
                if old(self).pos < old(self).input@.len() {
                    old(self).pos + 1
                } else {
                    old(self).pos as int
                },
            ),
    {
        if self.pos < self.input.len() {
            let c = self.input[self.pos];
            self.pos += 1;
            Some(c)
        } else {
            None
        }
    }

    /// The role of the value that is parsed next, `None` at the root.
    pub fn current_state(&self) -> (role: Option<ContextValues>)
        ensures
            role == self.context.current,
    {
        self.context.current
    }

    /// Enters a role.
    pub fn push_state(&mut self, role: ContextValues)
        requires
            old(self).wf(),
        ensures
            final(self).wf(),
            final(self).input@ == old(self).input@,
            final(self).options == old(self).options,
            final(self).output@ == old(self).output@,
            final(self).pos == old(self).pos,
            final(self).context@ == old(self).context@.push(role),
    {
        self.context.set(role);
    }

    /// Leaves the innermost role; at the root nothing changes.
    pub fn pop_state(&mut self)
        requires
            old(self).wf(),
        ensures
            final(self).wf(),
            final(self).input@ == old(self).input@,
            final(self).options == old(self).options,
            final(self).output@ == old(self).output@,
            final(self).pos == old(self).pos,
            final(self).context@ == if old(self).context@.len() == 0 {
                old(self).context@
            } else {
                old(self).context@.drop_last()
            },
    {
        self.context.reset();
    }

    /// Moves the cursor over whitespace.
    pub fn skip_whitespace(&mut self)
        requires
            old(self).wf(),
        ensures
            old(self).moved_to(
                *final(self),
                whitespace_end(old(self).input@, old(self).pos as int),
            ),
    {
        while self.pos < self.input.len() && is_whitespace(self.input[self.pos])
            invariant
                old(self).moved_to(*self, self.pos as int),
                whitespace_end(self.input@, self.pos as int) == whitespace_end(
                    old(self).input@,
                    old(self).pos as int,
                ),
            decreases self.input@.len() - self.pos,
        {
            self.pos += 1;
        }
    }

    /// Moves the cursor to the position after the next newline, or to the
    /// end of the input.
    fn skip_line(&mut self)
        requires
            old(self).wf(),
        ensures
            old(self).moved_to(*final(self), line_end(old(self).input@, old(self).pos as int)),
    {
        while self.pos < self.input.len()
            invariant
                old(self).moved_to(*self, self.pos as int),
                line_end(self.input@, self.pos as int) == line_end(
                    old(self).input@,
                    old(self).pos as int,
                ),
            decreases self.input@.len() - self.pos,
        {
            let c = self.input[self.pos];
            self.pos += 1;
            if c == '\n' {
                return ;
            }
        }
    }

    /// Moves the cursor to the position after the next `*/`, or to the end
    /// of the input.
    fn skip_block(&mut self)
        requires
            old(self).wf(),
        ensures
            old(self).moved_to(*final(self), block_end(old(self).input@, old(self).pos as int)),
    {
        while self.pos < self.input.len()
            invariant
                old(self).moved_to(*self, self.pos as int),
                block_end(self.input@, self.pos as int) == block_end(
                    old(self).input@,
                    old(self).pos as int,
                ),
            decreases self.input@.len() - self.pos,
        {
            let c = self.input[self.pos];
            self.pos += 1;
            if c == '*' && self.pos < self.input.len() && self.input[self.pos] == '/' {
                self.pos += 1;
                return ;
            }
        }
    }

    /// Moves the cursor over the comment that begins under it, if one does.
    pub fn skip_comments(&mut self)
        requires
            old(self).wf(),
        ensures
            old(self).moved_to(*final(self), comment_end(old(self).input@, old(self).pos as int)),
    {
        let first = self.current_char();
        let second = self.peek_char(1);
        assert(self.input@.len() <= usize::MAX) by {
            let n = self.input.len();
        }
        if first == Some('#') {
            self.pos += 1;
            self.skip_line();
        } else if first == Some('/') && second == Some('/') {
            self.pos += 2;
            self.skip_line();
        } else if first == Some('/') && second == Some('*') {
            self.pos += 2;
            self.skip_block();
        }
    }

    /// Moves the cursor over whitespace and comments, until neither begins
    /// under it.
    pub fn skip_ignored(&mut self)
        requires
            old(self).wf(),
        ensures
            old(self).moved_to(*final(self), skip_end(old(self).input@, old(self).pos as int)),
    {
        loop
            invariant
                old(self).moved_to(*self, self.pos as int),
                skip_end(self.input@, self.pos as int) == skip_end(
                    old(self).input@,
                    old(self).pos as int,
                ),
            ensures
                old(self).moved_to(*self, skip_end(old(self).input@, old(self).pos as int)),
            decreases self.input@.len() - self.pos,
        {
            let ghost before = self.pos as int;
            self.skip_whitespace();
            let mark = self.pos;
            proof {
                lemma_whitespace_end(self.input@, before);
                lemma_comment_end(self.input@, mark as int);
            }
            self.skip_comments();
            if self.pos == mark {
                break ;
            }
        }
    }
}

} // verus!
