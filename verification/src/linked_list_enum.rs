//! A list as a three-state enum: empty, a tail node holding one value, or
//! a value linked to the rest.  `push` appends at the far end, `pop` takes
//! from the near end.
use vstd::prelude::*;

verus! {

/// One link of the list: nothing, a final value, or a value and the rest.
pub enum Link<T> {
    Empty,
    Tail { item: T },
    Link { item: T, next: Box<Link<T>> },
}

/// A cursor that steps through a list it owns, front to back.
pub struct Cursor<T> {
    curr: Link<T>,
}

impl<T> View for Cursor<T> {
    type V = Seq<T>;

    closed spec fn view(&self) -> Seq<T> {
        link_seq(self.curr)
    }
}

/// The values of a list, front first.
pub open spec fn link_seq<T>(l: Link<T>) -> Seq<T>
    decreases l,
{
    match l {
        Link::Empty => Seq::empty(),
        Link::Tail { item } => seq![item],
        Link::Link { item, next } => seq![item] + link_seq(*next),
    }
}

impl<T: Copy> Link<T> {
    /// An empty list.
    pub fn new() -> (r: Self)
        ensures
            link_seq(r) == Seq::<T>::empty(),
    {
        Self::Empty
    }

    /// Take the front value, if there is one.
    pub fn pop(&mut self) -> (r: Option<T>)
        ensures
            link_seq(*old(self)).len() == 0 ==> r is None && *final(self) == *old(self),
            link_seq(*old(self)).len() > 0 ==> r == Option::Some(link_seq(*old(self))[0])
                && link_seq(*final(self)) == link_seq(*old(self)).drop_first(),
    {
        let mut taken = Self::Empty;
        std::mem::swap(self, &mut taken);
        match taken {
            Self::Empty => Option::None,
            Self::Tail { item } => {
                proof {
                    assert(link_seq(*old(self)).drop_first() =~= link_seq(*self));
                }
                Option::Some(item)
            },
            Self::Link { item, next } => {
                *self = *next;
                proof {
                    assert(link_seq(*old(self)).drop_first() =~= link_seq(*self));
                }
                Option::Some(item)
            },
        }
    }

    /// Append `x` at the far end of the list.
    pub fn push(&mut self, x: T)
        ensures
            link_seq(*final(self)) == link_seq(*old(self)).push(x),
        decreases *old(self),
    {
        let mut taken = Self::Empty;
        std::mem::swap(self, &mut taken);
        match taken {
            Self::Empty => {
                *self = Self::Tail { item: x };
                proof {
                    assert(link_seq(*self) =~= link_seq(*old(self)).push(x));
                }
            },
            Self::Tail { item } => {
                *self = Self::Link { item, next: Box::new(Self::Tail { item: x }) };
                proof {
                    assert(link_seq(Self::Tail { item: x }) =~= seq![x]);
                    assert(link_seq(*self) =~= link_seq(*old(self)).push(x));
                }
            },
            Self::Link { item, next } => {
                let mut rest = *next;
                rest.push(x);
                *self = Self::Link { item, next: Box::new(rest) };
                proof {
                    assert(link_seq(*self) =~= link_seq(*old(self)).push(x));
                }
            },
        }
    }
}

impl<T: Copy> Cursor<T> {
    /// A cursor over the whole list.
    pub fn new(list: Link<T>) -> (r: Self)
        ensures
            r@ == link_seq(list),
    {
        Cursor { curr: list }
    }

    /// The value under the cursor; the cursor steps forward.
    pub fn next(&mut self) -> (r: Option<T>)
        ensures
            old(self)@.len() == 0 ==> r is None,
            old(self)@.len() > 0 ==> r == Option::Some(old(self)@[0]) && final(self)@ == old(
                self,
            )@.drop_first(),
    {
        self.curr.pop()
    }
}

} // verus!
