//! A double-ended queue used as the undo side of the history: new entries
//! are pushed and popped at the back, and the oldest entry can be evicted
//! from the front. No operation fails; absence is an empty `Option`.

use std::collections::VecDeque;
use vstd::prelude::*;

verus! {

pub struct Deque<T> {
    data: VecDeque<T>,
}

impl<T> View for Deque<T> {
    type V = Seq<T>;

    closed spec fn view(&self) -> Seq<T> {
        self.data@
    }
}

impl<T> Default for Deque<T> {
    fn default() -> (d: Self)
        ensures
            d@ == Seq::<T>::empty(),
    {
        Deque { data: VecDeque::new() }
    }
}

impl<T> Deque<T> {
    /// Appends at the back.
    pub fn push(&mut self, value: T)
        ensures
            final(self)@ == old(self)@.push(value),
    {
        self.data.push_back(value);
    }

    /// Removes and returns the newest element, the one at the back.
    pub fn pop(&mut self) -> (r: Option<T>)
        ensures
            old(self)@.len() == 0 ==> r is None && final(self)@ == old(self)@,
            old(self)@.len() > 0 ==> (r == Some(old(self)@.last()) && final(self)@ == old(
                self,
            )@.drop_last()),
    {
        self.data.pop_back()
    }

    pub fn clear(&mut self)
        ensures
            final(self)@ == Seq::<T>::empty(),
    {
        self.data.clear()
    }

    pub fn is_empty(&self) -> (r: bool)
        ensures
            r == (self@.len() == 0),
    {
        self.data.len() == 0
    }

    /// A look at the newest element, the one at the back.
    pub fn peek(&self) -> (r: Option<&T>)
        ensures
            self@.len() == 0 ==> r is None,
            self@.len() > 0 ==> r == Some(&self@.last()),
    {
        if self.data.len() > 0 {
            Some(&self.data[self.data.len() - 1])
        } else {
            None
        }
    }

    /// Removes and returns the oldest element, the one at the front.
    pub fn remove_oldest(&mut self) -> (r: Option<T>)
        ensures
            old(self)@.len() == 0 ==> r is None && final(self)@ == old(self)@,
            old(self)@.len() > 0 ==> (r == Some(old(self)@.first()) && final(self)@ == old(
                self,
            )@.drop_first()),
    {
        self.data.pop_front()
    }

    pub fn len(&self) -> (n: usize)
        ensures
            n == self@.len(),
    {
        self.data.len()
    }
}

} // verus!
