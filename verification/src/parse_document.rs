//! The structural sub-parsers of the engine: values, objects and arrays.

use vstd::prelude::*;
use crate::chars::is_alphabetic;
use crate::chars::is_ascii_digit;
use crate::chars::push_all;
use crate::chars::structural;
use crate::chars::unicode_whitespace;
use crate::context::top_of;
use crate::context::ContextValues;
use crate::document::array;
use crate::document::elements;
use crate::document::key;
use crate::document::key_end;
use crate::document::member_key;
use crate::document::lemma_key;
use crate::document::lemma_settled;
use crate::document::lemma_value;
use crate::document::members;
use crate::document::object;
use crate::document::separator;
use crate::document::settled;
use crate::document::splits;
use crate::document::unknown_key;
use crate::document::value;
use crate::error::JsonRepairError;
use crate::grammar::at;
use crate::grammar::lemma_skip_end;
use crate::grammar::skip_end;
use crate::grammar::Step;
use crate::grammar::MAX_DEPTH;
use crate::parser::JsonRepairParser;
use crate::scalars::opens_string;
use crate::scalars::word_null;

verus! {

/// The texts of a list of keys.
pub open spec fn names(keys: Seq<Vec<char>>) -> Seq<Seq<char>> {
    Seq::new(keys.len(), |i: int| keys[i]@)
}

/// Whether `c` opens a quoted string.
pub fn is_string_opener(c: char) -> (b: bool)
    ensures
        b == opens_string(c),
{
    c == '"' || c == '\'' || c == '\u{201c}'
}

/// Whether two texts hold the same scalars.
pub fn same_text(a: &Vec<char>, b: &Vec<char>) -> (same: bool)
    ensures
        same == (a@ == b@),
{
    if a.len() != b.len() {
        return false;
    }
    let mut i: usize = 0;
    while i < a.len()
        invariant
            a@.len() == b@.len(),
            i <= a@.len(),
            forall|j: int| 0 <= j < i ==> a@[j] == b@[j],
        decreases a@.len() - i,
    {
        if a[i] != b[i] {
            return false;
        }
        i = i + 1;
    }
    assert(a@ =~= b@);
    true
}

/// Whether `name` is among `keys`.
pub fn has_key(keys: &Vec<Vec<char>>, name: &Vec<char>) -> (found: bool)
    ensures
        found == names(keys@).contains(name@),
{
    let mut i: usize = 0;
    while i < keys.len()
        invariant
            i <= keys@.len(),
            forall|j: int| 0 <= j < i ==> names(keys@)[j] != name@,
        decreases keys@.len() - i,
    {
        if same_text(&keys[i], name) {
            assert(names(keys@)[i as int] == name@);
            return true;
        }
        i = i + 1;
    }
    false
}

impl JsonRepairParser {
    /// The value at or after the cursor, for the role on top of the
    /// context stack.
    pub fn parse_value(&mut self) -> (result: Result<(), JsonRepairError>)
        requires
            old(self).wf(),
        ensures
            old(self).outcome(
                *final(self),
                result,
                value(
                    old(self).input@,
                    old(self).pos as int,
                    old(self).context@,
                    old(self).options.ensure_ascii,
                ),
            ),
        decreases old(self).input@.len() - old(self).pos, 1int,
    {
        self.skip_ignored();
        proof {
            lemma_skip_end(old(self).input@, old(self).pos as int);
        }
        let c = match self.current_char() {
            Some(c) => c,
            None => {
                self.append_str("null");
                proof {
                    reveal_strlit("null");
                    assert("null"@ =~= word_null());
                }
                return Ok(());
            },
        };
        if is_string_opener(c) {
            self.parse_string();
            Ok(())
        } else if is_ascii_digit(c) || c == '-' {
            self.parse_number();
            Ok(())
        } else if c == '{' {
            self.parse_object()
        } else if c == '[' {
            self.parse_array()
        } else if is_alphabetic(c) {
            self.parse_literal();
            Ok(())
        } else {
            self.parse_unquoted_string();
            Ok(())
        }
    }

    /// The array whose `[` stands under the cursor: `[`, its elements
    /// with a `,` between them, and `]`.
    #[verifier::rlimit(30)]
    pub fn parse_array(&mut self) -> (result: Result<(), JsonRepairError>)
        requires
            old(self).wf(),
            at(old(self).input@, old(self).pos as int, '['),
        ensures
            old(self).outcome(
                *final(self),
                result,
                array(
                    old(self).input@,
                    old(self).pos as int,
                    old(self).context@,
                    old(self).options.ensure_ascii,
                ),
            ),
        decreases old(self).input@.len() - old(self).pos, 0int,
    {
        if self.context.depth() >= MAX_DEPTH {
            return Err(JsonRepairError::NestingLimitExceeded);
        }
        let ghost input = self.input@;
        let ghost outer = self.context@;
        let ghost stack = outer.push(ContextValues::Array);
        let ghost ensure_ascii = self.options.ensure_ascii;
        self.append_char('[');
        let _ = self.advance();
        self.push_state(ContextValues::Array);
        let ghost base = self.output@;
        let ghost whole = elements(input, self.pos as int, stack, false, ensure_ascii);
        let mut nonempty = false;
        loop
            invariant
                self.wf(),
                self.input@ == input,
                input == old(self).input@,
                self.options == old(self).options,
                ensure_ascii == self.options.ensure_ascii,
                self.context@ == stack,
                stack == outer.push(ContextValues::Array),
                outer == old(self).context@,
                outer.len() < MAX_DEPTH,
                old(self).pos < self.pos,
                base == old(self).output@ + seq!['['],
                whole == elements(input, old(self).pos + 1, stack, false, ensure_ascii),
                whole is None <==> elements(
                    input,
                    self.pos as int,
                    stack,
                    nonempty,
                    ensure_ascii,
                ) is None,
                whole matches Some(w) ==> {
                    let rest = elements(input, self.pos as int, stack, nonempty, ensure_ascii)->0;
                    &&& base + w.text == self.output@ + rest.text
                    &&& w.end == rest.end
                },
            decreases self.input@.len() - self.pos,
        {
            let ghost before = self.output@;
            let ghost here = self.pos as int;
            let ghost now = elements(input, here, stack, nonempty, ensure_ascii);
            self.skip_ignored();
            proof {
                lemma_skip_end(input, here);
            }
            let c = match self.current_char() {
                Some(c) => c,
                None => {
                    self.append_char(']');
                    self.pop_state();
                    proof {
                        assert(stack.drop_last() =~= outer);
                        assert(self.output@ =~= old(self).output@ + (seq!['['] + whole->0.text));
                    }
                    return Ok(());
                },
            };
            if c == ']' {
                let _ = self.advance();
                self.append_char(']');
                self.pop_state();
                proof {
                    assert(stack.drop_last() =~= outer);
                    assert(self.output@ =~= old(self).output@ + (seq!['['] + whole->0.text));
                }
                return Ok(());
            } else if c == ',' || c == ':' || c == '}' {
                let _ = self.advance();
            } else {
                let ghost p = self.pos as int;
                if nonempty {
                    self.append_char(',');
                }
                proof {
                    lemma_settled(input, p);
                    lemma_value(input, p, stack, ensure_ascii);
                }
                match self.parse_value() {
                    Ok(()) => {},
                    Err(e) => {
                        return Err(e);
                    },
                }
                nonempty = true;
                proof {
                    let rest = elements(input, self.pos as int, stack, true, ensure_ascii);
                    if rest is Some {
                        assert(before + now->0.text =~= self.output@ + rest->0.text);
                    }
                }
            }
        }
    }
}

impl JsonRepairParser {
    /// Moves the cursor over what an empty quoted key takes with it: a
    /// stray closing delimiter before a `:`, or a second empty pair of
    /// delimiters. `start` is where the key began.
    fn skip_doubled(&mut self, start: usize)
        requires
            old(self).wf(),
            start <= old(self).pos,
        ensures
            old(self).moved_to(
                *final(self),
                key_end(old(self).input@, start as int, old(self).pos as int),
            ),
    {
        let n = self.input.len();
        let end = self.pos;
        if end - start != 2 {
            return ;
        }
        let open = self.input[start];
        if !is_string_opener(open) {
            return ;
        }
        let close = if open == '\u{201c}' {
            '\u{201d}'
        } else {
            open
        };
        if self.input[start + 1] != close {
            return ;
        }
        if n - end >= 2 && self.input[end] == close && self.input[end + 1] == ':' {
            self.pos = end + 1;
        } else if n - end >= 2 && self.input[end] == open && self.input[end + 1] == close {
            self.pos = end + 2;
        }
    }

    /// The key of a member under the cursor, after the separator that is
    /// due before it, and the `:` after it, consumed where it is there.
    /// The key joins `keys`, which begin anew where it ends one object and
    /// begins the next.
    fn parse_key(&mut self, keys: &mut Vec<Vec<char>>, in_array: bool)
        requires
            old(self).wf(),
            old(self).pos < old(self).input@.len(),
            !unicode_whitespace(old(self).input@[old(self).pos as int]),
            !structural(old(self).input@[old(self).pos as int]),
            in_array == (top_of(old(self).context@) == Some(ContextValues::Array)),
        ensures
            ({
                let input = old(self).input@;
                let k = member_key(input, old(self).pos as int, old(self).options.ensure_ascii);
                let q = skip_end(input, k.end);
                let r = if at(input, q, ':') {
                    q + 1
                } else {
                    q
                };
                let stack = old(self).context@;
                let before = names(old(keys)@);
                &&& old(self).stepped(
                    *final(self),
                    Step { text: separator(stack, before, k.text) + k.text + seq![':'], end: r },
                )
                &&& names(final(keys)@) == if splits(stack, before, k.text) {
                    seq![k.text]
                } else {
                    before.push(k.text)
                }
            }),
    {
        let ghost input = self.input@;
        let ghost stack = self.context@;
        let ghost k = member_key(input, self.pos as int, self.options.ensure_ascii);
        let ghost before = names(keys@);
        let mark = self.output.len();
        let start = self.pos;
        self.push_state(ContextValues::ObjectKey);
        self.parse_string();
        proof {
            lemma_key(input, start as int, self.options.ensure_ascii);
        }
        self.skip_doubled(start);
        self.pop_state();
        let name = self.output.split_off(mark);
        proof {
            assert(stack.push(ContextValues::ObjectKey).drop_last() =~= stack);
            assert(name@ =~= k.text);
            assert(self.output@ =~= old(self).output@);
            lemma_key(input, old(self).pos as int, self.options.ensure_ascii);
            lemma_skip_end(input, k.end);
        }
        let split = in_array && has_key(keys, &name);
        if split {
            self.append_str("},{");
            proof {
                reveal_strlit("},{");
            }
        } else if keys.len() > 0 {
            self.append_char(',');
        }
        assert(self.output@ =~= old(self).output@ + separator(stack, before, k.text));
        push_all(&mut self.output, &name);
        self.skip_ignored();
        if self.pos < self.input.len() && self.input[self.pos] == ':' {
            let _ = self.advance();
        }
        self.append_char(':');
        assert(self.output@ =~= old(self).output@ + (separator(stack, before, k.text) + k.text
            + seq![':']));
        if split {
            keys.clear();
        }
        keys.push(name);
        proof {
            if split {
                assert(names(keys@) =~= seq![k.text]);
            } else {
                assert(names(keys@) =~= before.push(k.text));
            }
        }
    }

    /// A member with a key under the cursor: the separator, the key, `:`
    /// and the value.
    fn parse_keyed_member(&mut self, keys: &mut Vec<Vec<char>>, in_array: bool) -> (result: Result<
        (),
        JsonRepairError,
    >)
        requires
            old(self).wf(),
            old(self).pos < old(self).input@.len(),
            !unicode_whitespace(old(self).input@[old(self).pos as int]),
            !structural(old(self).input@[old(self).pos as int]),
            in_array == (top_of(old(self).context@) == Some(ContextValues::Array)),
        ensures
            ({
                let input = old(self).input@;
                let ensure_ascii = old(self).options.ensure_ascii;
                let k = member_key(input, old(self).pos as int, ensure_ascii);
                let q = skip_end(input, k.end);
                let r = if at(input, q, ':') {
                    q + 1
                } else {
                    q
                };
                let stack = old(self).context@;
                let before = names(old(keys)@);
                match value(input, r, stack.push(ContextValues::ObjectValue), ensure_ascii) {
                    Some(v) => {
                        &&& result is Ok
                        &&& old(self).stepped(
                            *final(self),
                            Step {
                                text: separator(stack, before, k.text) + k.text + seq![':']
                                    + v.text,
                                end: v.end,
                            },
                        )
                        &&& names(final(keys)@) == if splits(stack, before, k.text) {
                            seq![k.text]
                        } else {
                            before.push(k.text)
                        }
                        &&& old(self).pos < r <= v.end <= input.len()
                    },
                    None => result matches Err(JsonRepairError::NestingLimitExceeded) && old(
                        self,
                    ).failed(*final(self)),
                }
            }),
        decreases old(self).input@.len() - old(self).pos, 2int,
    {
        let ghost input = self.input@;
        let ghost stack = self.context@;
        let ghost inner = stack.push(ContextValues::ObjectValue);
        let ghost ensure_ascii = self.options.ensure_ascii;
        let ghost k = member_key(input, self.pos as int, ensure_ascii);
        let ghost before = names(keys@);
        self.parse_key(keys, in_array);
        let ghost r = self.pos as int;
        proof {
            lemma_key(input, old(self).pos as int, ensure_ascii);
            lemma_skip_end(input, k.end);
            lemma_value(input, r, inner, ensure_ascii);
        }
        self.push_state(ContextValues::ObjectValue);
        match self.parse_value() {
            Ok(()) => {},
            Err(e) => {
                return Err(e);
            },
        }
        self.pop_state();
        proof {
            assert(inner.drop_last() =~= stack);
            let v = value(input, r, inner, ensure_ascii)->0;
            assert(self.output@ =~= old(self).output@ + (separator(stack, before, k.text) + k.text
                + seq![':'] + v.text));
        }
        Ok(())
    }

    /// A member without a key under the cursor: `,`, the key `"unknown"`,
    /// `:` and the value.
    fn parse_unknown_member(&mut self) -> (result: Result<(), JsonRepairError>)
        requires
            old(self).wf(),
            settled(old(self).input@, old(self).pos as int),
            !structural(old(self).input@[old(self).pos as int]),
        ensures
            ({
                let input = old(self).input@;
                let inner = old(self).context@.push(ContextValues::ObjectValue);
                match value(input, old(self).pos as int, inner, old(self).options.ensure_ascii) {
                    Some(v) => {
                        &&& result is Ok
                        &&& old(self).stepped(
                            *final(self),
                            Step {
                                text: seq![','] + unknown_key() + seq![':'] + v.text,
                                end: v.end,
                            },
                        )
                        &&& old(self).pos < v.end <= input.len()
                    },
                    None => result matches Err(JsonRepairError::NestingLimitExceeded) && old(
                        self,
                    ).failed(*final(self)),
                }
            }),
        decreases old(self).input@.len() - old(self).pos, 2int,
    {
        let ghost input = self.input@;
        let ghost stack = self.context@;
        let ghost inner = stack.push(ContextValues::ObjectValue);
        let ghost ensure_ascii = self.options.ensure_ascii;
        let ghost p = self.pos as int;
        self.append_str(",\"unknown\":");
        proof {
            reveal_strlit(",\"unknown\":");
            assert(",\"unknown\":"@ =~= seq![','] + unknown_key() + seq![':']);
        }
        proof {
            lemma_settled(input, p);
            lemma_value(input, p, inner, ensure_ascii);
        }
        self.push_state(ContextValues::ObjectValue);
        match self.parse_value() {
            Ok(()) => {},
            Err(e) => {
                return Err(e);
            },
        }
        self.pop_state();
        proof {
            assert(inner.drop_last() =~= stack);
            let v = value(input, p, inner, ensure_ascii)->0;
            assert(self.output@ =~= old(self).output@ + (seq![','] + unknown_key() + seq![':']
                + v.text));
        }
        Ok(())
    }

    /// The object whose `{` stands under the cursor: `{`, its members
    /// with their separators, and `}`.
    #[verifier::rlimit(50)]
    pub fn parse_object(&mut self) -> (result: Result<(), JsonRepairError>)
        requires
            old(self).wf(),
            at(old(self).input@, old(self).pos as int, '{'),
        ensures
            old(self).outcome(
                *final(self),
                result,
                object(
                    old(self).input@,
                    old(self).pos as int,
                    old(self).context@,
                    old(self).options.ensure_ascii,
                ),
            ),
        decreases old(self).input@.len() - old(self).pos, 0int,
    {
        if self.context.depth() >= MAX_DEPTH {
            return Err(JsonRepairError::NestingLimitExceeded);
        }
        let in_array = match self.current_state() {
            Some(ContextValues::Array) => true,
            _ => false,
        };
        let ghost input = self.input@;
        let ghost stack = self.context@;
        let ghost inner = stack.push(ContextValues::ObjectValue);
        let ghost ensure_ascii = self.options.ensure_ascii;
        self.append_char('{');
        let _ = self.advance();
        let ghost base = self.output@;
        let ghost whole = members(input, self.pos as int, stack, Seq::empty(), true, ensure_ascii);
        let mut keys: Vec<Vec<char>> = Vec::new();
        let mut fresh = true;
        assert(names(keys@) =~= Seq::<Seq<char>>::empty());
        loop
            invariant
                self.wf(),
                self.input@ == input,
                input == old(self).input@,
                self.options == old(self).options,
                ensure_ascii == self.options.ensure_ascii,
                self.context@ == stack,
                stack == old(self).context@,
                inner == stack.push(ContextValues::ObjectValue),
                in_array == (top_of(stack) == Some(ContextValues::Array)),
                stack.len() < MAX_DEPTH,
                old(self).pos < self.pos,
                base == old(self).output@ + seq!['{'],
                whole == members(
                    input,
                    old(self).pos + 1,
                    stack,
                    Seq::empty(),
                    true,
                    ensure_ascii,
                ),
                whole is None <==> members(
                    input,
                    self.pos as int,
                    stack,
                    names(keys@),
                    fresh,
                    ensure_ascii,
                ) is None,
                whole matches Some(w) ==> {
                    let rest = members(
                        input,
                        self.pos as int,
                        stack,
                        names(keys@),
                        fresh,
                        ensure_ascii,
                    )->0;
                    &&& base + w.text == self.output@ + rest.text
                    &&& w.end == rest.end
                },
            decreases self.input@.len() - self.pos,
        {
            let ghost before = self.output@;
            let ghost here = self.pos as int;
            let ghost seen = names(keys@);
            let ghost now = members(input, here, stack, seen, fresh, ensure_ascii);
            self.skip_ignored();
            proof {
                lemma_skip_end(input, here);
            }
            let c = match self.current_char() {
                Some(c) => c,
                None => {
                    self.append_char('}');
                    proof {
                        assert(self.output@ =~= old(self).output@ + (seq!['{'] + whole->0.text));
                    }
                    return Ok(());
                },
            };
            if c == '}' {
                let _ = self.advance();
                self.append_char('}');
                proof {
                    assert(self.output@ =~= old(self).output@ + (seq!['{'] + whole->0.text));
                }
                return Ok(());
            } else if c == ',' {
                let _ = self.advance();
                fresh = true;
            } else if c == ':' || c == ']' {
                let _ = self.advance();
            } else if fresh || is_string_opener(c) || is_alphabetic(c) {
                match self.parse_keyed_member(&mut keys, in_array) {
                    Ok(()) => {},
                    Err(e) => {
                        return Err(e);
                    },
                }
                fresh = false;
                proof {
                    let rest = members(
                        input,
                        self.pos as int,
                        stack,
                        names(keys@),
                        false,
                        ensure_ascii,
                    );
                    if rest is Some {
                        assert(before + now->0.text =~= self.output@ + rest->0.text);
                    }
                }
            } else {
                let ghost p = self.pos as int;
                match self.parse_unknown_member() {
                    Ok(()) => {},
                    Err(e) => {
                        return Err(e);
                    },
                }
                fresh = false;
                proof {
                    lemma_settled(input, p);
                    let rest = members(input, self.pos as int, stack, seen, false, ensure_ascii);
                    if rest is Some {
                        assert(before + now->0.text =~= self.output@ + rest->0.text);
                    }
                }
            }
        }
    }
}

} // verus!
