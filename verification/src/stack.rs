use vstd::prelude::*;

use crate::errors::EvmErrors;
use crate::word::Word;

verus! {

/// Fixed capacity of the evaluation stack.
pub const STACK_LIMIT: usize = 1024;

/// The LIFO evaluation stack of 256-bit words.  The sequence view grows at
/// its end: the last element is the top of the stack.  Its length never
/// exceeds the capacity: a push past it fails and leaves the stack
/// unchanged, and a pop of an empty stack fails and changes nothing.
#[derive(Debug, Clone)]
pub struct Stack {
    pub data: Vec<Word>,
}

impl Default for Stack {
    /// An empty stack.
    fn default() -> (r: Stack)
        ensures
            r.data@.len() == 0,
    {
        Stack { data: Vec::new() }
    }
}

impl Stack {
    /// Pushes a value on top.  Succeeds exactly when the stack is below its
    /// capacity; a full stack gives `StackTooDeep` and stays as it was.
    pub fn push(&mut self, value: Word) -> (r: Result<(), EvmErrors>)
        ensures
            match r {
                Ok(()) => old(self).data@.len() < STACK_LIMIT
                    && final(self).data@ == old(self).data@.push(value),
                Err(e) => e == EvmErrors::StackTooDeep && old(self).data@.len() >= STACK_LIMIT
                    && *final(self) == *old(self),
            },
    {
        if self.data.len() >= STACK_LIMIT {
            return Err(EvmErrors::StackTooDeep);
        }
        self.data.push(value);
        Ok(())
    }

    /// Pops the top value.  Returns `None` exactly when the stack is empty,
    /// leaving it unchanged; otherwise the top element leaves the stack.
    pub fn pop(&mut self) -> (r: Option<Word>)
        ensures
            match r {
                Some(w) => old(self).data@.len() > 0 && w == old(self).data@.last()
                    && final(self).data@ == old(self).data@.drop_last(),
                None => old(self).data@.len() == 0 && final(self).data@ == old(self).data@,
            },
    {
        self.data.pop()
    }

    /// Reads the value at `depth` below the top (depth 0 is the top) without
    /// removing it.  Fails with `StackUnderflow` exactly when the stack is
    /// too shallow.
    pub fn peek(&self, depth: usize) -> (r: Result<Word, EvmErrors>)
        ensures
            match r {
                Ok(w) => depth < self.data@.len() && w == self.data@[self.data@.len() - 1 - depth],
                Err(e) => e == EvmErrors::StackUnderflow && depth >= self.data@.len(),
            },
    {
        let n = self.data.len();
        if depth < n {
            Ok(self.data[n - 1 - depth])
        } else {
            Err(EvmErrors::StackUnderflow)
        }
    }

    /// Exchanges the top with the value at `depth` below it.  Fails with
    /// `StackUnderflow`, changing nothing, exactly when the stack is too
    /// shallow.
    pub fn swap(&mut self, depth: usize) -> (r: Result<(), EvmErrors>)
        ensures
            match r {
                Ok(()) => {
                    let n = old(self).data@.len() as int;
                    &&& depth < old(self).data@.len()
                    &&& final(self).data@ == old(self).data@.update(
                        n - 1,
                        old(self).data@[n - 1 - depth],
                    ).update(n - 1 - depth, old(self).data@[n - 1])
                },
                Err(e) => e == EvmErrors::StackUnderflow && depth >= old(self).data@.len()
                    && *final(self) == *old(self),
            },
    {
        let n = self.data.len();
        if depth >= n {
            return Err(EvmErrors::StackUnderflow);
        }
        let top = self.data[n - 1];
        let other = self.data[n - 1 - depth];
        self.data.set(n - 1, other);
        self.data.set(n - 1 - depth, top);
        Ok(())
    }

    /// Current number of stack items.
    pub fn len(&self) -> (r: usize)
        ensures
            r == self.data@.len(),
    {
        self.data.len()
    }

    /// Whether the stack holds nothing.
    pub fn is_empty(&self) -> (r: bool)
        ensures
            r == (self.data@.len() == 0),
    {
        self.data.len() == 0
    }
}

} // verus!
