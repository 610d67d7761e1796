//! A stack over a growable vector: push, pop and peek at the top in
//! constant time.
use vstd::prelude::*;

verus! {

/// A last-in-first-out stack backed by a vector; the vector's last element
/// is the top of the stack.
pub struct Stack<T> {
    data: Vec<T>,
}

impl<T> View for Stack<T> {
    type V = Seq<T>;

    closed spec fn view(&self) -> Seq<T> {
        self.data@
    }
}

impl<T> Stack<T> {
    /// An empty stack.
    pub fn new() -> (r: Self)
        ensures
            r@ == Seq::<T>::empty(),
    {
        Self { data: Vec::<T>::new() }
    }

    /// Put `item` on top of the stack.
    pub fn push(&mut self, item: T)
        ensures
            final(self)@ == old(self)@.push(item),
    {
        self.data.push(item);
    }

    /// Take the top of the stack, if there is one.
    pub fn pop(&mut self) -> (r: Option<T>)
        ensures
            old(self)@.len() == 0 ==> r is None && final(self)@ == old(self)@,
            old(self)@.len() > 0 ==> r == Option::Some(old(self)@.last()) && final(self)@ == old(
                self,
            )@.drop_last(),
    {
        self.data.pop()
    }

    /// The top of the stack, if there is one, without removing it.
    pub fn peek(&self) -> (r: Option<&T>)
        ensures
            match r {
                Option::Some(x) => self@.len() > 0 && *x == self@.last(),
                Option::None => self@.len() == 0,
            },
    {
        if !self.data.is_empty() {
            let n = self.data.len();
            return Option::Some(&self.data[n - 1]);
        }
        return Option::None;
    }

    /// A mutable borrow of the top of the stack, if there is one.
    pub fn peek_mut(&mut self) -> (r: Option<&mut T>)
        ensures
            old(self)@.len() == 0 ==> r is None && final(self)@ == old(self)@,
            old(self)@.len() > 0 ==> match r {
                Option::Some(x) => final(self)@ == old(self)@.update(
                    old(self)@.len() - 1,
                    *final(x),
                ) && *x == old(self)@.last(),
                Option::None => false,
            },
    {
        if !self.data.is_empty() {
            let n = self.data.len();
            return Option::Some(&mut self.data[n - 1]);
        }
        return Option::None;
    }

    /// Whether the stack holds nothing.
    pub fn is_empty(&self) -> (r: bool)
        ensures
            r == (self@.len() == 0),
    {
        self.data.is_empty()
    }
}

} // verus!
