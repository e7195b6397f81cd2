use vstd::prelude::*;
use crate::error::VmError;
use crate::word::Word;

verus! {

/// Fixed capacity of the operand stack: a push beyond this depth fails.
pub const STACK_LIMIT: usize = 1024;

/// The bounded last-in-first-out operand stack of the machine.
///
/// Its view is the sequence of words in push order, so the last element of
/// the view is the top of the stack. The length of the view never exceeds
/// `STACK_LIMIT`: `push` refuses to grow past it.
#[derive(Debug)]
pub struct Stack {
    stack: Vec<Word>,
}

impl View for Stack {
    type V = Seq<Word>;

    closed spec fn view(&self) -> Seq<Word> {
        self.stack@
    }
}

impl Stack {
    /// A new, empty stack.
    pub fn new() -> (r: Stack)
        ensures
            r@ == Seq::<Word>::empty(),
    {
        let stack: Vec<Word> = Vec::new();
        Stack { stack }
    }

    /// Number of words currently on the stack.
    pub fn len(&self) -> (r: usize)
        ensures
            r == self@.len(),
    {
        self.stack.len()
    }

    /// Read-only access to the word at position `i`, counted from the
    /// bottom of the stack; for diagnostics and tests only.
    pub fn read(&self, i: usize) -> (r: Word)
        requires
            i < self@.len(),
        ensures
            r == self@[i as int],
    {
        self.stack[i]
    }

    /// Appends `item` as the new top of the stack.
    ///
    /// Succeeds exactly when the stack holds fewer than `STACK_LIMIT` words;
    /// otherwise it fails with `StackOverflow` and leaves the stack unchanged.
    pub fn push(&mut self, item: Word) -> (r: Result<(), VmError>)
        ensures
            old(self)@.len() < STACK_LIMIT ==> r == Ok::<(), VmError>(())
                && final(self)@ == old(self)@.push(item),
            old(self)@.len() >= STACK_LIMIT ==> r == Err::<(), VmError>(VmError::StackOverflow)
                && final(self)@ == old(self)@,
    {
        if self.stack.len() >= STACK_LIMIT {
            return Err(VmError::StackOverflow);
        }
        self.stack.push(item);
        Ok(())
    }

    /// Removes and returns the current top of the stack.
    ///
    /// Succeeds exactly when the stack is non-empty, returning the most
    /// recently pushed word; on an empty stack it fails with
    /// `StackUnderflow` and leaves the stack unchanged.
    pub fn pop(&mut self) -> (r: Result<Word, VmError>)
        ensures
            old(self)@.len() == 0 ==> r == Err::<Word, VmError>(VmError::StackUnderflow)
                && final(self)@ == old(self)@,
            old(self)@.len() > 0 ==> r == Ok::<Word, VmError>(old(self)@.last())
                && final(self)@ == old(self)@.drop_last(),
    {
        if self.stack.len() == 0 {
            return Err(VmError::StackUnderflow);
        }
        match self.stack.pop() {
            Some(value) => Ok(value),
            None => Err(VmError::StackUnderflow),
        }
    }
}

/// Law: pushing a word and then immediately popping it returns exactly that
/// word, and the stack's contents afterwards are what they were before the
/// pair of operations. Stated over the stack's view: `push` appends the word
/// to the view, and a `pop` on the result returns the view's last element
/// and drops it.
pub proof fn lemma_push_then_pop(s: Seq<Word>, w: Word)
    requires
        s.len() < STACK_LIMIT,
    ensures
        s.push(w).last() == w,
        s.push(w).drop_last() == s,
{
    assert(s.push(w).drop_last() =~= s);
}

} // verus!
