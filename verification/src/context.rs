//! The stack of roles that tells the parser what the next value is for.

use vstd::prelude::*;

verus! {

/// The role of the value that the parser is about to produce.
#[derive(Debug, Clone, Copy, PartialEq, Eq, Structural)]
pub enum ContextValues {
    ObjectKey,
    ObjectValue,
    Array,
}

/// A stack of roles. The empty stack stands for the root of the document.
///
/// `current` is the top of the stack and `empty` says whether the stack is
/// empty; `wf` states both.
pub struct JsonContext {
    pub context: Vec<ContextValues>,
    pub current: Option<ContextValues>,
    pub empty: bool,
}

/// The top of a stack of roles, `None` for the empty stack.
pub open spec fn top_of(stack: Seq<ContextValues>) -> Option<ContextValues> {
    if stack.len() == 0 {
        None
    } else {
        Some(stack.last())
    }
}

impl View for JsonContext {
    type V = Seq<ContextValues>;

    open spec fn view(&self) -> Seq<ContextValues> {
        self.context@
    }
}

impl JsonContext {
    /// The cached fields agree with the stack.
    pub open spec fn wf(&self) -> bool {
        &&& self.current == top_of(self.context@)
        &&& self.empty == (self.context@.len() == 0)
    }

    pub fn new() -> (ctx: Self)
        ensures
            ctx.wf(),
            ctx@ == Seq::<ContextValues>::empty(),
    {
        JsonContext { context: Vec::new(), current: None, empty: true }
    }

    /// Enters a role: pushes it on the stack.
    pub fn set(&mut self, value: ContextValues)
        ensures
            final(self).wf(),
            final(self)@ == old(self)@.push(value),
            final(self).current == Some(value),
            !final(self).empty,
    {
        self.context.push(value);
        self.current = Some(value);
        self.empty = false;
    }

    /// Leaves the innermost role: pops the stack, and the role below it
    /// becomes current. On the empty stack nothing changes.
    pub fn reset(&mut self)
        ensures
            final(self).wf(),
            final(self)@ == if old(self)@.len() == 0 {
                old(self)@
            } else {
                old(self)@.drop_last()
            },
    {
        let _ = self.context.pop();
        let n = self.context.len();
        if n == 0 {
            self.current = None;
            self.empty = true;
        } else {
            self.current = Some(self.context[n - 1]);
            self.empty = false;
        }
    }

    /// The number of roles on the stack.
    pub fn depth(&self) -> (n: usize)
        ensures
            n == self@.len(),
    {
        self.context.len()
    }
}

} // verus!
