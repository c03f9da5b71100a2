//! A fixed-capacity LIFO container with in-place top mutation.

use vstd::prelude::*;

verus! {

/// How many slots a [`Stack`] has.
pub const STACK_MAX: usize = 256;

/// A last-in, first-out container of at most [`STACK_MAX`] elements, with a
/// bounds-checked index in place of the raw cursor such a stack is often
/// built on.
pub struct Stack<T> {
    items: Vec<T>,
}

impl<T> View for Stack<T> {
    type V = Seq<T>;

    closed spec fn view(&self) -> Seq<T> {
        self.items@
    }
}

/// The capacity bound: a stack made by [`Stack::new`] keeps it through every
/// operation.
pub open spec fn within_capacity<T>(s: Seq<T>) -> bool {
    s.len() <= STACK_MAX
}

impl<T> Stack<T> {
    /// A new, empty stack.
    pub fn new() -> (s: Stack<T>)
        ensures
            s@ == Seq::<T>::empty(),
            within_capacity(s@),
    {
        Stack { items: Vec::new() }
    }

    /// Pushes `elem` on top and reports success, or reports overflow and
    /// leaves the stack unchanged when all slots are full.
    pub fn push(&mut self, elem: T) -> (ok: bool)
        ensures
            old(self)@.len() < STACK_MAX ==> ok && final(self)@ == old(self)@.push(elem),
            old(self)@.len() >= STACK_MAX ==> !ok && final(self)@ == old(self)@,
            within_capacity(old(self)@) ==> within_capacity(final(self)@),
    {
        if self.items.len() < STACK_MAX {
            self.items.push(elem);
            true
        } else {
            false
        }
    }

    /// Removes and returns the top element, or `None` when the stack is empty.
    pub fn pop(&mut self) -> (r: Option<T>)
        ensures
            old(self)@.len() == 0 ==> r is None && final(self)@ == old(self)@,
            old(self)@.len() > 0 ==> r == Some(old(self)@.last()) && final(self)@
                == old(self)@.drop_last(),
            within_capacity(old(self)@) ==> within_capacity(final(self)@),
    {
        if self.items.len() == 0 {
            None
        } else {
            Some(self.items.pop().unwrap())
        }
    }

    /// Borrows the top element without removing it, or `None` when empty.
    pub fn top(&self) -> (r: Option<&T>)
        ensures
            self@.len() == 0 ==> r is None,
            self@.len() > 0 ==> r == Some(&self@.last()),
    {
        if self.items.len() == 0 {
            None
        } else {
            Some(&self.items[self.items.len() - 1])
        }
    }

    /// Overwrites the top element in place, without a pop and push round
    /// trip; does nothing and reports `false` when the stack is empty.
    pub fn set_top(&mut self, elem: T) -> (ok: bool)
        ensures
            old(self)@.len() == 0 ==> !ok && final(self)@ == old(self)@,
            old(self)@.len() > 0 ==> ok && final(self)@ == old(self)@.update(
                old(self)@.len() - 1,
                elem,
            ),
            within_capacity(old(self)@) ==> within_capacity(final(self)@),
    {
        let n = self.items.len();
        if n == 0 {
            false
        } else {
            self.items.set(n - 1, elem);
            true
        }
    }

    /// Pops until nothing is left.
    pub fn empty(&mut self)
        ensures
            final(self)@ == Seq::<T>::empty(),
            within_capacity(final(self)@),
    {
        self.items.clear();
    }

    /// Whether the stack holds no elements.
    pub fn is_empty(&self) -> (r: bool)
        ensures
            r == (self@.len() == 0),
    {
        self.items.len() == 0
    }

    /// How many elements the stack holds: within the capacity on any stack
    /// that has kept it.
    pub fn size(&self) -> (n: usize)
        ensures
            n == self@.len(),
            within_capacity(self@) ==> n <= STACK_MAX,
    {
        self.items.len()
    }
}

} // verus!
