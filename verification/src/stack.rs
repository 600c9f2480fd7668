//! A small last-in-first-out stack over a vector.

use vstd::prelude::*;

verus! {

/// A stack of values; the view is the sequence of elements, bottom first.
pub struct Stack<T> {
    vec: Vec<T>,
}

impl<T> View for Stack<T> {
    type V = Seq<T>;

    closed spec fn view(&self) -> Seq<T> {
        self.vec@
    }
}

impl<T> Stack<T> {
    /// An empty stack.
    pub fn new() -> (r: Stack<T>)
        ensures
            r@ == Seq::<T>::empty(),
    {
        Stack { vec: Vec::new() }
    }

    /// A stack holding a single value.
    pub fn init(first: T) -> (r: Stack<T>)
        ensures
            r@ == Seq::<T>::empty().push(first),
    {
        let mut res = Stack::new();
        res.push(first);
        res
    }

    /// Pushes a value on top.
    pub fn push(&mut self, x: T)
        ensures
            final(self)@ == old(self)@.push(x),
    {
        self.vec.push(x);
    }

    /// Removes and returns the top value.
    pub fn pop(&mut self) -> (r: Option<T>)
        ensures
            old(self)@.len() == 0 ==> r is None && final(self)@ == old(self)@,
            old(self)@.len() > 0 ==> (r matches Some(v) && v == old(self)@.last() && final(self)@
                == old(self)@.drop_last()),
    {
        self.vec.pop()
    }

    /// The top value, if any.
    pub fn val(&self) -> (r: Option<&T>)
        ensures
            self@.len() == 0 ==> r is None,
            self@.len() > 0 ==> (r matches Some(v) && *v == self@.last()),
    {
        self.vec.last()
    }

    /// A mutable reference to the top value, if any.
    pub fn val_mut(&mut self) -> (r: Option<&mut T>)
        ensures
            old(self)@.len() == 0 ==> r is None && final(self)@ == old(self)@,
            old(self)@.len() > 0 ==> (r matches Some(v) && *v == old(self)@.last() && final(self)@
                == old(self)@.update(old(self)@.len() - 1, *final(v))),
    {
        if self.vec.len() == 0 {
            None
        } else {
            let n = self.vec.len();
            Some(&mut self.vec[n - 1])
        }
    }

    /// True when the stack holds nothing.
    pub fn is_empty(&self) -> (r: bool)
        ensures
            r == (self@.len() == 0),
    {
        self.vec.len() == 0
    }

    /// The number of values held.
    pub fn size(&self) -> (r: usize)
        ensures
            r == self@.len(),
    {
        self.vec.len()
    }

    /// Replaces the top value.
    pub fn change_top(&mut self, new: T)
        requires
            old(self)@.len() > 0,
        ensures
            final(self)@ == old(self)@.update(old(self)@.len() - 1, new),
    {
        let n = self.vec.len();
        self.vec[n - 1] = new;
    }
}

} // verus!
