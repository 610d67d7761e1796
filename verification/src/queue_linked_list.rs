//! A first-in-first-out queue over a linked chain of nodes.  The queue
//! counts what it was handed, not what the chain holds: `length` reports
//! one for the initial head plus one per enqueue.
use vstd::prelude::*;

verus! {

/// One link of the chain: a value and an optional rest.
pub struct Node<T> {
    pub(crate) data: T,
    pub(crate) next: Option<Box<Node<T>>>,
}

/// The values hanging off a chain, front first.
pub open(crate) spec fn chain_seq<T>(n: Option<Box<Node<T>>>) -> Seq<T>
    decreases n,
{
    match n {
        Option::None => Seq::empty(),
        Option::Some(b) => seq![b.data] + chain_seq(b.next),
    }
}

impl<T> View for Node<T> {
    type V = Seq<T>;

    closed spec fn view(&self) -> Seq<T> {
        seq![self.data] + chain_seq(self.next)
    }
}

impl<T: Copy> Node<T> {
    /// A lone node holding `data`.
    pub fn new(data: T) -> (r: Self)
        ensures
            r@ == seq![data],
    {
        let r = Node { data, next: Option::None };
        proof {
            assert(r@ =~= seq![data]);
        }
        r
    }

    /// Hang `next` off the far end of this chain.  Reports whether the
    /// chain grew, which it always does.
    pub fn set_next(&mut self, next: Option<Box<Node<T>>>) -> (r: bool)
        ensures
            final(self)@ == old(self)@ + chain_seq(next),
            r,
        decreases old(self)@.len(),
    {
        let mut taken = Option::None;
        std::mem::swap(&mut taken, &mut self.next);
        match taken {
            Option::None => {
                self.next = next;
                proof {
                    assert(self@ =~= old(self)@ + chain_seq(next));
                }
                return true;
            },
            Option::Some(mut e) => {
                let r = e.set_next(next);
                self.next = Option::Some(e);
                proof {
                    assert(self@ =~= old(self)@ + chain_seq(next));
                }
                return r;
            },
        }
    }

    /// Push references to every value of this chain, front first.
    pub fn peek_all<'b>(&'b self, buf: &mut Vec<&'b T>)
        ensures
            final(buf)@.map_values(|x: &T| *x) == old(buf)@.map_values(|x: &T| *x) + self@,
        decreases self@.len(),
    {
        buf.push(&self.data);
        match &self.next {
            Option::Some(n) => {
                n.peek_all(buf);
                proof {
                    assert(final(buf)@.map_values(|x: &T| *x) =~= old(buf)@.map_values(
                        |x: &T| *x,
                    ) + self@);
                }
            },
            Option::None => {
                proof {
                    assert(final(buf)@.map_values(|x: &T| *x) =~= old(buf)@.map_values(
                        |x: &T| *x,
                    ) + self@);
                }
            },
        }
    }
}

/// The queue: a head chain and a running count.
pub struct Queue<T> {
    head: Option<Box<Node<T>>>,
    count: usize,
}

impl<T> View for Queue<T> {
    type V = Seq<T>;

    closed spec fn view(&self) -> Seq<T> {
        chain_seq(self.head)
    }
}

impl<T: Copy> Queue<T> {
    /// The running count; `length` reports it.
    pub closed spec fn spec_count(&self) -> usize {
        self.count
    }

    /// A queue over the given head chain.  The count starts at one,
    /// whatever the chain holds.
    pub fn new(head: Option<Box<Node<T>>>) -> (r: Self)
        ensures
            r@ == chain_seq(head),
            r.spec_count() == 1,
    {
        Self { head, count: 1 }
    }

    /// Hang `next` off the far end and count it; an empty queue ignores
    /// the call.
    pub fn enqueue(&mut self, next: Option<Box<Node<T>>>)
        requires
            old(self).spec_count() < usize::MAX,
        ensures
            old(self)@.len() == 0 ==> *final(self) == *old(self),
            old(self)@.len() > 0 ==> final(self)@ == old(self)@ + chain_seq(next)
                && final(self).spec_count() == old(self).spec_count() + 1,
    {
        let mut taken = Option::None;
        std::mem::swap(&mut taken, &mut self.head);
        match taken {
            Option::Some(mut e) => {
                e.set_next(next);
                self.head = Option::Some(e);
                self.count = self.count + 1;
                proof {
                    assert(self@ =~= old(self)@ + chain_seq(next));
                }
            },
            Option::None => {
                self.head = Option::None;
            },
        }
    }

    /// Take the front value; the count falls with it, to zero when the
    /// chain ends.
    pub fn dequeue(&mut self) -> (r: Option<T>)
        requires
            old(self)@.len() <= 1 || old(self).spec_count() > 0,
        ensures
            old(self)@.len() == 0 ==> r is None && *final(self) == *old(self),
            old(self)@.len() > 0 ==> r == Option::Some(old(self)@[0]) && final(self)@ == old(
                self,
            )@.drop_first(),
            old(self)@.len() > 1 ==> final(self).spec_count() == old(self).spec_count() - 1,
            old(self)@.len() == 1 ==> final(self).spec_count() == 0,
    {
        let mut taken = Option::None;
        std::mem::swap(&mut taken, &mut self.head);
        match taken {
            Option::Some(head) => {
                let data = head.data;
                match head.next {
                    Option::Some(e) => {
                        proof {
                            assert(old(self)@.len() >= 2) by {
                                assert(chain_seq(Option::Some(e)).len() >= 1);
                            }
                        }
                        self.head = Option::Some(e);
                        self.count = self.count - 1;
                    },
                    Option::None => {
                        self.head = Option::None;
                        self.count = 0;
                    },
                }
                proof {
                    assert(self@ =~= old(self)@.drop_first());
                }
                Option::Some(data)
            },
            Option::None => {
                self.head = Option::None;
                Option::None
            },
        }
    }

    /// The front value, without removing it.
    pub fn peek(&self) -> (r: Option<&T>)
        ensures
            match r {
                Option::Some(x) => self@.len() > 0 && *x == self@[0],
                Option::None => self@.len() == 0,
            },
    {
        match &self.head {
            Option::Some(h) => Option::Some(&h.data),
            Option::None => Option::None,
        }
    }

    /// Push references to every value, front first.
    pub fn peek_all<'b>(&'b self, buf: &mut Vec<&'b T>)
        ensures
            final(buf)@.map_values(|x: &T| *x) == old(buf)@.map_values(|x: &T| *x) + self@,
    {
        match &self.head {
            Option::Some(h) => {
                h.peek_all(buf);
            },
            Option::None => {
                proof {
                    assert(final(buf)@.map_values(|x: &T| *x) =~= old(buf)@.map_values(
                        |x: &T| *x,
                    ) + self@);
                }
            },
        }
    }

    /// The running count of nodes handed in, tracked beside the chain
    /// rather than measured from it.
    pub fn length(&self) -> (r: usize)
        ensures
            r == self.spec_count(),
    {
        self.count
    }

    /// Whether the running count is zero.
    pub fn is_empty(&self) -> (r: bool)
        ensures
            r == (self.spec_count() == 0),
    {
        self.count == 0
    }
}

} // verus!
