//! The emulated operand stack of WebAssembly, holding SSA values.

use crate::error::{IrError, WasmError};
use crate::primitive::{Type, Value};
use vstd::prelude::*;

verus! {

/// An entry of the emulated stack: a value and its type.
#[derive(Debug, Copy, Clone, PartialEq, Eq)]
pub struct ValueEntry {
    /// The value.
    pub value: Value,
    /// The type of the value.
    pub ty: Type,
}

/// The emulated operand stack.
///
/// The last entry is the top of the stack.
#[derive(Debug)]
pub struct ValueStack {
    entries: Vec<ValueEntry>,
}

impl View for ValueStack {
    type V = Seq<ValueEntry>;

    /// The entries from the bottom to the top.
    closed spec fn view(&self) -> Seq<ValueEntry> {
        self.entries@
    }
}

/// The error of an operator that needs more entries than the stack holds.
pub open spec fn missing(needed: u32, stack: Seq<ValueEntry>) -> IrError {
    IrError::Wasm(WasmError::MissingStackValue { needed, found: stack.len() as u32 })
}

impl ValueStack {
    /// Creates an empty stack.
    pub fn new() -> (stack: Self)
        ensures
            stack@ == Seq::<ValueEntry>::empty(),
    {
        Self { entries: Vec::new() }
    }

    /// Returns the number of entries.
    pub fn len(&self) -> (len: usize)
        ensures
            len == self@.len(),
    {
        self.entries.len()
    }

    /// Pushes the value of the given type.
    pub fn push(&mut self, value: Value, ty: Type)
        ensures
            final(self)@ == old(self)@.push(ValueEntry { value, ty }),
    {
        self.entries.push(ValueEntry { value, ty });
    }

    /// The error for a stack with fewer than `needed` entries.
    fn underflow(&self, needed: u32) -> (error: IrError)
        requires
            self@.len() < needed,
        ensures
            error == missing(needed, self@),
    {
        IrError::Wasm(WasmError::MissingStackValue { needed, found: self.entries.len() as u32 })
    }

    /// Returns the top entry without popping it.
    ///
    /// # Errors
    ///
    /// If the stack is empty.
    pub fn peek1(&self) -> (outcome: Result<ValueEntry, IrError>)
        ensures
            match outcome {
                Ok(top) => self@.len() >= 1 && top == self@.last(),
                Err(error) => self@.len() < 1 && error == missing(1, self@),
            },
    {
        if self.entries.len() < 1 {
            return Err(self.underflow(1));
        }
        Ok(self.entries[self.entries.len() - 1])
    }

    /// Pops the top entry.
    ///
    /// # Errors
    ///
    /// If the stack is empty. The stack is left as it is then.
    pub fn pop1(&mut self) -> (outcome: Result<ValueEntry, IrError>)
        ensures
            match outcome {
                Ok(top) => old(self)@.len() >= 1 && top == old(self)@.last() && final(self)@ == old(self)@.drop_last(),
                Err(error) => old(self)@.len() < 1 && error == missing(1, old(self)@) && final(self)@ == old(self)@,
            },
    {
        match self.entries.pop() {
            Some(top) => Ok(top),
            None => Err(self.underflow(1)),
        }
    }

    /// Pops the two top entries and returns them in the order in which
    /// they were pushed.
    ///
    /// # Errors
    ///
    /// If the stack holds fewer than two entries. The stack is left as it is then.
    pub fn pop2(&mut self) -> (outcome: Result<(ValueEntry, ValueEntry), IrError>)
        ensures
            match outcome {
                Ok((lhs, rhs)) => {
                    &&& old(self)@.len() >= 2
                    &&& lhs == old(self)@[old(self)@.len() - 2]
                    &&& rhs == old(self)@[old(self)@.len() - 1]
                    &&& final(self)@ == old(self)@.take(old(self)@.len() - 2)
                },
                Err(error) => old(self)@.len() < 2 && error == missing(2, old(self)@) && final(self)@ == old(self)@,
            },
    {
        if self.entries.len() < 2 {
            return Err(self.underflow(2));
        }
        let rhs = self.entries.pop().unwrap();
        let lhs = self.entries.pop().unwrap();
        assert(self@ =~= old(self)@.take(old(self)@.len() - 2));
        Ok((lhs, rhs))
    }

    /// Pops the three top entries and returns them in the order in which
    /// they were pushed.
    ///
    /// # Errors
    ///
    /// If the stack holds fewer than three entries. The stack is left as it is then.
    pub fn pop3(&mut self) -> (outcome: Result<(ValueEntry, ValueEntry, ValueEntry), IrError>)
        ensures
            match outcome {
                Ok((first, second, third)) => {
                    &&& old(self)@.len() >= 3
                    &&& first == old(self)@[old(self)@.len() - 3]
                    &&& second == old(self)@[old(self)@.len() - 2]
                    &&& third == old(self)@[old(self)@.len() - 1]
                    &&& final(self)@ == old(self)@.take(old(self)@.len() - 3)
                },
                Err(error) => old(self)@.len() < 3 && error == missing(3, old(self)@) && final(self)@ == old(self)@,
            },
    {
        if self.entries.len() < 3 {
            return Err(self.underflow(3));
        }
        let third = self.entries.pop().unwrap();
        let second = self.entries.pop().unwrap();
        let first = self.entries.pop().unwrap();
        assert(self@ =~= old(self)@.take(old(self)@.len() - 3));
        Ok((first, second, third))
    }

    /// Shortens the stack to the given height. A stack that is not higher
    /// is left as it is.
    pub fn truncate(&mut self, height: usize)
        ensures
            final(self)@ == if height <= old(self)@.len() {
                old(self)@.take(height as int)
            } else {
                old(self)@
            },
    {
        self.entries.truncate(height);
        proof {
            if height > old(self)@.len() {
                assert(self@ =~= old(self)@);
            }
        }
    }
}

} // verus!
