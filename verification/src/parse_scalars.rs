//! The scalar sub-parsers of the engine: strings, numbers and literals.

use vstd::prelude::*;
use crate::chars::is_ascii_digit;
use crate::chars::is_structural;
use crate::chars::is_whitespace;
use crate::chars::lower;
use crate::chars::push_all;
use crate::chars::push_scalar;
use crate::chars::structural;
use crate::document::key;
use crate::grammar::whitespace_end;
use crate::grammar::Step;
use crate::parser::JsonRepairParser;
use crate::scalars::digits_end;
use crate::scalars::literal;
use crate::scalars::lowered;
use crate::scalars::number;
use crate::scalars::number_scan;
use crate::scalars::exponent;
use crate::scalars::fraction;
use crate::scalars::quoted_body;
use crate::scalars::run_end;
use crate::scalars::unquoted_body;
use crate::scalars::unquoted_string;
use crate::scalars::word_false;
use crate::scalars::word_none;
use crate::scalars::word_null;
use crate::scalars::word_true;
use crate::scalars::word_undefined;
use crate::text::scalars_of;

verus! {

impl JsonRepairParser {
    /// Appends one scalar to the output.
    pub fn append_char(&mut self, c: char)
        requires
            old(self).wf(),
        ensures
            old(self).stepped(*final(self), Step { text: seq![c], end: old(self).pos as int }),
    {
        self.output.push(c);
        assert(self.output@ =~= old(self).output@ + seq![c]);
    }

    /// Appends a text to the output.
    pub fn append_str(&mut self, text: &str)
        requires
            old(self).wf(),
        ensures
            old(self).stepped(*final(self), Step { text: text@, end: old(self).pos as int }),
    {
        let scalars = scalars_of(text);
        push_all(&mut self.output, &scalars);
    }

    /// Appends the scalars of the input from `from` up to `to`.
    pub fn append_range(&mut self, from: usize, to: usize)
        requires
            old(self).wf(),
            from <= to <= old(self).input@.len(),
        ensures
            old(self).stepped(
                *final(self),
                Step {
                    text: old(self).input@.subrange(from as int, to as int),
                    end: old(self).pos as int,
                },
            ),
    {
        let mut i: usize = from;
        while i < to
            invariant
                from <= i <= to <= self.input@.len(),
                old(self).stepped(
                    *self,
                    Step {
                        text: old(self).input@.subrange(from as int, i as int),
                        end: old(self).pos as int,
                    },
                ),
            decreases to - i,
        {
            self.output.push(self.input[i]);
            i = i + 1;
            assert(self.output@ =~= old(self).output@ + old(self).input@.subrange(
                from as int,
                i as int,
            ));
        }
    }

    /// The first position at or after `from` that holds no whitespace.
    fn whitespace_end_from(&self, from: usize) -> (end: usize)
        requires
            from <= self.input@.len(),
        ensures
            end == whitespace_end(self.input@, from as int),
            from <= end <= self.input@.len(),
    {
        let mut i: usize = from;
        while i < self.input.len() && is_whitespace(self.input[i])
            invariant
                from <= i <= self.input@.len(),
                whitespace_end(self.input@, i as int) == whitespace_end(self.input@, from as int),
            decreases self.input@.len() - i,
        {
            i = i + 1;
        }
        i
    }

    /// The first position at or after `from` that holds no digit.
    fn digits_end_from(&self, from: usize) -> (end: usize)
        requires
            from <= self.input@.len(),
        ensures
            end == digits_end(self.input@, from as int),
            from <= end <= self.input@.len(),
    {
        let mut i: usize = from;
        while i < self.input.len() && is_ascii_digit(self.input[i])
            invariant
                from <= i <= self.input@.len(),
                digits_end(self.input@, i as int) == digits_end(self.input@, from as int),
            decreases self.input@.len() - i,
        {
            i = i + 1;
        }
        i
    }

    /// The first position at or after `from` that holds a structural
    /// scalar or whitespace.
    fn run_end_from(&self, from: usize) -> (end: usize)
        requires
            from <= self.input@.len(),
        ensures
            end == run_end(self.input@, from as int),
            from <= end <= self.input@.len(),
    {
        let mut i: usize = from;
        while i < self.input.len() && !is_structural(self.input[i]) && !is_whitespace(
            self.input[i],
        )
            invariant
                from <= i <= self.input@.len(),
                run_end(self.input@, i as int) == run_end(self.input@, from as int),
            decreases self.input@.len() - i,
        {
            i = i + 1;
        }
        i
    }

    /// The string under the cursor: quoted where a delimiter opens it,
    /// else unquoted.
    pub fn parse_string(&mut self)
        requires
            old(self).wf(),
        ensures
            old(self).stepped(
                *final(self),
                key(old(self).input@, old(self).pos as int, old(self).options.ensure_ascii),
            ),
    {
        let open = match self.current_char() {
            Some(c) => c,
            None => {
                self.parse_unquoted_string();
                return ;
            },
        };
        if !(open == '"' || open == '\'' || open == '\u{201c}') {
            self.parse_unquoted_string();
            return ;
        }
        let close = if open == '\u{201c}' {
            '\u{201d}'
        } else {
            open
        };
        let ensure_ascii = self.options.ensure_ascii;
        assert(self.pos < self.input.len());
        self.output.push('"');
        self.pos += 1;
        let ghost input = self.input@;
        let ghost base = self.output@;
        let ghost whole = quoted_body(input, self.pos as int, close, ensure_ascii);
        while self.pos < self.input.len()
            invariant
                self.wf(),
                self.input@ == input,
                input == old(self).input@,
                self.options == old(self).options,
                ensure_ascii == self.options.ensure_ascii,
                self.context@ == old(self).context@,
                base == old(self).output@ + seq!['"'],
                base + whole.text == self.output@ + quoted_body(
                    input,
                    self.pos as int,
                    close,
                    ensure_ascii,
                ).text,
                whole.end == quoted_body(input, self.pos as int, close, ensure_ascii).end,
                whole == quoted_body(input, old(self).pos + 1, close, ensure_ascii),
                close == crate::scalars::closer(input[old(self).pos as int]),
                old(self).pos < input.len(),
                crate::scalars::opens_string(input[old(self).pos as int]),
            decreases self.input@.len() - self.pos,
        {
            let ghost before = self.output@;
            let ghost here = self.pos as int;
            let c = self.input[self.pos];
            if c == close {
                self.pos += 1;
                self.output.push('"');
                assert(self.output@ =~= old(self).output@ + (seq!['"'] + whole.text)) by {
                    assert(self.output@ == before + seq!['"']);
                    assert(base + whole.text == before + seq!['"']);
                }
                return ;
            } else if c == '\\' {
                self.output.push(c);
                self.pos += 1;
                if self.pos < self.input.len() {
                    let escaped = self.input[self.pos];
                    self.output.push(escaped);
                    self.pos += 1;
                    assert(self.output@ =~= before + seq!['\\', escaped]);
                } else {
                    assert(self.output@ =~= before + seq!['\\']);
                }
            } else if c == '"' {
                self.output.push('\\');
                self.output.push('"');
                self.pos += 1;
                assert(self.output@ =~= before + seq!['\\', '"']);
            } else {
                push_scalar(&mut self.output, c, ensure_ascii);
                self.pos += 1;
            }
            proof {
                let now = quoted_body(input, here, close, ensure_ascii);
                let rest = quoted_body(input, self.pos as int, close, ensure_ascii);
                assert(base + whole.text == before + now.text);
                assert(before + now.text =~= self.output@ + rest.text);
            }
        }
        let ghost before = self.output@;
        self.output.push('"');
        assert(self.output@ =~= old(self).output@ + (seq!['"'] + whole.text)) by {
            assert(self.output@ == before + seq!['"']);
            assert(base + whole.text == before + seq!['"']);
        }
    }

    /// The unquoted string that begins under the cursor.
    pub fn parse_unquoted_string(&mut self)
        requires
            old(self).wf(),
        ensures
            old(self).stepped(
                *final(self),
                unquoted_string(
                    old(self).input@,
                    old(self).pos as int,
                    old(self).options.ensure_ascii,
                ),
            ),
    {
        let ensure_ascii = self.options.ensure_ascii;
        self.output.push('"');
        let ghost input = self.input@;
        let ghost base = self.output@;
        let ghost whole = unquoted_body(input, self.pos as int, ensure_ascii);
        while self.pos < self.input.len()
            invariant
                self.wf(),
                self.input@ == input,
                input == old(self).input@,
                self.options == old(self).options,
                ensure_ascii == self.options.ensure_ascii,
                self.context@ == old(self).context@,
                base == old(self).output@ + seq!['"'],
                base + whole.text == self.output@ + unquoted_body(
                    input,
                    self.pos as int,
                    ensure_ascii,
                ).text,
                whole.end == unquoted_body(input, self.pos as int, ensure_ascii).end,
                whole == unquoted_body(input, old(self).pos as int, ensure_ascii),
            ensures
                unquoted_body(input, self.pos as int, ensure_ascii) == (Step {
                    text: seq!['"'],
                    end: self.pos as int,
                }),
            decreases self.input@.len() - self.pos,
        {
            let ghost before = self.output@;
            let ghost here = self.pos as int;
            let c = self.input[self.pos];
            if is_structural(c) {
                break ;
            } else if c == '"' {
                self.output.push('\\');
                self.output.push('"');
                assert(self.output@ =~= before + seq!['\\', '"']);
            } else if c == '\\' {
                self.output.push('\\');
                self.output.push('\\');
                assert(self.output@ =~= before + seq!['\\', '\\']);
            } else {
                if is_whitespace(c) {
                    let w = self.whitespace_end_from(self.pos);
                    if w < self.input.len() && is_structural(self.input[w]) {
                        break ;
                    }
                }
                push_scalar(&mut self.output, c, ensure_ascii);
            }
            self.pos += 1;
            proof {
                let now = unquoted_body(input, here, ensure_ascii);
                let rest = unquoted_body(input, self.pos as int, ensure_ascii);
                assert(base + whole.text == before + now.text);
                assert(before + now.text =~= self.output@ + rest.text);
            }
        }
        let ghost before = self.output@;
        self.output.push('"');
        assert(self.output@ =~= old(self).output@ + (seq!['"'] + whole.text)) by {
            assert(self.output@ == before + seq!['"']);
            assert(base + whole.text == before + seq!['"']);
        }
    }
}

impl JsonRepairParser {
    /// The fraction under the cursor, if a `.` stands there.
    fn parse_fraction(&mut self)
        requires
            old(self).wf(),
        ensures
            old(self).stepped(*final(self), fraction(old(self).input@, old(self).pos as int)),
    {
        let b = self.pos;
        if b < self.input.len() && self.input[b] == '.' {
            let d = self.digits_end_from(b + 1);
            self.append_char('.');
            if d == b + 1 {
                self.append_char('0');
            } else {
                self.append_range(b + 1, d);
            }
            self.pos = d;
            assert(self.output@ =~= old(self).output@ + fraction(
                old(self).input@,
                old(self).pos as int,
            ).text);
        } else {
            assert(self.output@ =~= old(self).output@ + Seq::<char>::empty());
        }
    }

    /// The exponent under the cursor, if `e` or `E` stands there.
    fn parse_exponent(&mut self)
        requires
            old(self).wf(),
        ensures
            old(self).stepped(*final(self), exponent(old(self).input@, old(self).pos as int)),
    {
        let n = self.input.len();
        let c = self.pos;
        if c < n && (self.input[c] == 'e' || self.input[c] == 'E') {
            self.append_char('e');
            let s = if c + 1 < n && (self.input[c + 1] == '+' || self.input[c + 1] == '-') {
                c + 2
            } else {
                c + 1
            };
            self.append_range(c + 1, s);
            let d = self.digits_end_from(s);
            if d == s {
                self.append_char('0');
            } else {
                self.append_range(s, d);
            }
            self.pos = d;
            assert(self.output@ =~= old(self).output@ + exponent(
                old(self).input@,
                old(self).pos as int,
            ).text);
        } else {
            assert(self.output@ =~= old(self).output@ + Seq::<char>::empty());
        }
    }

    /// The number under the cursor, or the unquoted string from there
    /// where the scan holds no digit before its exponent.
    pub fn parse_number(&mut self)
        requires
            old(self).wf(),
        ensures
            old(self).stepped(
                *final(self),
                number(old(self).input@, old(self).pos as int, old(self).options.ensure_ascii),
            ),
    {
        let n = self.input.len();
        let start = self.pos;
        let a = if start < n && self.input[start] == '-' {
            start + 1
        } else {
            start
        };
        let b = if a < n && self.input[a] == '0' {
            a + 1
        } else {
            self.digits_end_from(a)
        };
        if !(b > a || (b < n && self.input[b] == '.')) {
            self.parse_unquoted_string();
            return ;
        }
        self.append_range(start, b);
        self.pos = b;
        self.parse_fraction();
        self.parse_exponent();
        assert(self.output@ =~= old(self).output@ + number_scan(
            old(self).input@,
            old(self).pos as int,
        ).text);
    }

    /// Whether the scalars from `start` up to `end` spell `word`, whatever
    /// their case.
    fn spells(&self, start: usize, end: usize, word: &Vec<char>) -> (b: bool)
        requires
            start <= end <= self.input@.len(),
        ensures
            b == (lowered(self.input@.subrange(start as int, end as int)) == word@),
    {
        let ghost run = lowered(self.input@.subrange(start as int, end as int));
        if end - start != word.len() {
            assert(run.len() != word@.len());
            return false;
        }
        let mut i: usize = 0;
        while i < word.len()
            invariant
                start <= end <= self.input@.len(),
                end - start == word@.len(),
                i <= word@.len(),
                run == lowered(self.input@.subrange(start as int, end as int)),
                forall|j: int| 0 <= j < i ==> run[j] == word@[j],
            decreases word@.len() - i,
        {
            if lower(self.input[start + i]) != word[i] {
                assert(run[i as int] != word@[i as int]);
                return false;
            }
            i = i + 1;
        }
        assert(run =~= word@);
        true
    }

    /// The literal that the run under the cursor spells, or the unquoted
    /// string from there where it spells none.
    pub fn parse_literal(&mut self)
        requires
            old(self).wf(),
        ensures
            old(self).stepped(
                *final(self),
                literal(old(self).input@, old(self).pos as int, old(self).options.ensure_ascii),
            ),
    {
        let start = self.pos;
        let end = self.run_end_from(start);
        let word_true = vec!['t', 'r', 'u', 'e'];
        let word_false = vec!['f', 'a', 'l', 's', 'e'];
        let word_null = vec!['n', 'u', 'l', 'l'];
        let word_none = vec!['n', 'o', 'n', 'e'];
        let word_undefined = vec!['u', 'n', 'd', 'e', 'f', 'i', 'n', 'e', 'd'];
        proof {
            assert(word_true@ =~= crate::scalars::word_true());
            assert(word_false@ =~= crate::scalars::word_false());
            assert(word_null@ =~= crate::scalars::word_null());
            assert(word_none@ =~= crate::scalars::word_none());
            assert(word_undefined@ =~= crate::scalars::word_undefined());
        }
        if self.spells(start, end, &word_true) {
            push_all(&mut self.output, &word_true);
            self.pos = end;
        } else if self.spells(start, end, &word_false) {
            push_all(&mut self.output, &word_false);
            self.pos = end;
        } else if self.spells(start, end, &word_null) || self.spells(start, end, &word_none)
            || self.spells(start, end, &word_undefined) {
            push_all(&mut self.output, &word_null);
            self.pos = end;
        } else {
            self.parse_unquoted_string();
        }
    }
}

} // verus!
