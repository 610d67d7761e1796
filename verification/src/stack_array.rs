//! A stack over fixed-size storage: five slots, an index to the first free
//! one, and values that stay in place when popped — `pop` and `peek` hand
//! out references.
use vstd::prelude::*;

verus! {

/// How many slots the stack has.
pub const CAPACITY: usize = 5;

/// A bounded last-in-first-out stack.  `pop` hands out a reference, so the
/// value it removes moves into a side slot that the reference borrows.
pub struct Stack<T> {
    data: Vec<T>,
    popped: Option<T>,
}

impl<T> View for Stack<T> {
    type V = Seq<T>;

    closed spec fn view(&self) -> Seq<T> {
        self.data@
    }
}

impl<T> Stack<T> {
    /// An empty stack of five free slots.
    pub fn new() -> (r: Self)
        ensures
            r@ == Seq::<T>::empty(),
    {
        Stack::<T> { data: Vec::new(), popped: Option::None }
    }

    /// Put `item` on top, if a slot is free; reports whether it went in.
    pub fn push(&mut self, item: T) -> (r: bool)
        ensures
            old(self)@.len() < CAPACITY ==> r && final(self)@ == old(self)@.push(item),
            old(self)@.len() >= CAPACITY ==> !r && final(self)@ == old(self)@,
    {
        if self.is_full() {
            return false;
        }
        self.data.push(item);
        return true;
    }

    /// Step down over the top value and hand out a reference to it; the
    /// value itself stays in its slot.
    pub fn pop(&mut self) -> (r: Option<&T>)
        ensures
            old(self)@.len() == 0 ==> r is None && final(self)@ == old(self)@,
            old(self)@.len() > 0 ==> match r {
                Option::Some(x) => *x == old(self)@.last() && final(self)@ == old(
                    self,
                )@.drop_last(),
                Option::None => false,
            },
    {
        if self.is_empty() {
            return Option::None;
        }
        let v = self.data.pop();
        self.popped = v;
        match &self.popped {
            Option::Some(x) => Option::Some(x),
            Option::None => {
                proof {
                    assert(false);
                }
                Option::None
            },
        }
    }

    /// The top value, without removing it.
    pub fn peek(&self) -> (r: Option<&T>)
        ensures
            match r {
                Option::Some(x) => self@.len() > 0 && *x == self@.last(),
                Option::None => self@.len() == 0,
            },
    {
        if self.data.len() > 0 {
            let i = self.data.len() - 1;
            Option::Some(&self.data[i])
        } else {
            Option::None
        }
    }

    /// A mutable borrow of the top value.
    pub fn peek_mut(&mut self) -> (r: Option<&mut T>)
        ensures
            old(self)@.len() == 0 ==> r is None && final(self)@ == old(self)@,
            old(self)@.len() > 0 ==> match r {
                Option::Some(x) => *x == old(self)@.last() && final(self)@ == old(self)@.update(
                    old(self)@.len() - 1,
                    *final(x),
                ),
                Option::None => false,
            },
    {
        if self.data.len() > 0 {
            let i = self.data.len() - 1;
            Option::Some(&mut self.data[i])
        } else {
            Option::None
        }
    }

    /// Whether all five slots hold live values.
    pub fn is_full(&self) -> (r: bool)
        ensures
            r == (self@.len() >= CAPACITY),
    {
        self.data.len() >= CAPACITY
    }

    /// Whether the stack holds nothing.
    pub fn is_empty(&self) -> (r: bool)
        ensures
            r == (self@.len() == 0),
    {
        self.data.len() == 0
    }
}

} // verus!
