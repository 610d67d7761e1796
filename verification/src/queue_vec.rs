//! A first-in-first-out queue over a growable vector: enqueue at the back,
//! dequeue from the front.
use vstd::prelude::*;
use vstd::std_specs::cmp::PartialEqSpec;

verus! {

/// A queue backed by a vector; the vector's first element is the front of
/// the queue.
pub struct Queue<T> {
    queue: Vec<T>,
}

impl<T> View for Queue<T> {
    type V = Seq<T>;

    closed spec fn view(&self) -> Seq<T> {
        self.queue@
    }
}

impl<T: PartialEq + PartialEqSpec + Copy> Queue<T> {
    /// An empty queue.
    pub fn new() -> (r: Self)
        ensures
            r@ == Seq::<T>::empty(),
    {
        Queue { queue: Vec::new() }
    }

    /// Put `item` at the back of the queue.
    pub fn enqueue(&mut self, item: T)
        ensures
            final(self)@ == old(self)@.push(item),
    {
        self.queue.push(item);
    }

    /// Take the front of the queue, if there is one.
    pub fn dequeue(&mut self) -> (r: Option<T>)
        ensures
            old(self)@.len() == 0 ==> r is None && final(self)@ == old(self)@,
            old(self)@.len() > 0 ==> r == Option::Some(old(self)@[0]) && final(self)@ == old(
                self,
            )@.drop_first(),
    {
        if !self.is_empty() {
            let v = self.queue.remove(0);
            proof {
                assert(final(self)@ =~= old(self)@.drop_first());
            }
            return Option::Some(v);
        }
        Option::None
    }

    /// The front of the queue, without removing it.
    pub fn peek(&self) -> (r: Option<&T>)
        ensures
            match r {
                Option::Some(x) => self@.len() > 0 && *x == self@[0],
                Option::None => self@.len() == 0,
            },
    {
        if self.queue.len() > 0 {
            Option::Some(&self.queue[0])
        } else {
            Option::None
        }
    }

    /// A mutable borrow of the front of the queue.
    pub fn peek_mut(&mut self) -> (r: Option<&mut T>)
        ensures
            old(self)@.len() == 0 ==> r is None && final(self)@ == old(self)@,
            old(self)@.len() > 0 ==> match r {
                Option::Some(x) => *x == old(self)@[0] && final(self)@ == old(self)@.update(
                    0,
                    *final(x),
                ),
                Option::None => false,
            },
    {
        if self.queue.len() > 0 {
            Option::Some(&mut self.queue[0])
        } else {
            Option::None
        }
    }

    /// How many values the queue holds.
    pub fn length(&self) -> (r: usize)
        ensures
            r == self@.len(),
    {
        self.queue.len()
    }

    /// Whether the queue holds nothing.
    pub fn is_empty(&self) -> (r: bool)
        ensures
            r == (self@.len() == 0),
    {
        self.queue.is_empty()
    }

    /// A mutable borrow of the first value equal to `item`, scanning from
    /// the front.
    pub fn search(&mut self, item: T) -> (r: Option<&mut T>)
        ensures
            T::obeys_eq_spec() ==> match r {
                Option::Some(x) => exists|k: int|
                    0 <= k < old(self)@.len() && old(self)@[k].eq_spec(&item) && (forall|j: int|
                        0 <= j < k ==> !old(self)@[j].eq_spec(&item)) && *x == old(self)@[k]
                        && final(self)@ == old(self)@.update(k, *final(x)),
                Option::None => final(self)@ == old(self)@ && forall|j: int|
                    0 <= j < old(self)@.len() ==> !old(self)@[j].eq_spec(&item),
            },
    {
        let n = self.queue.len();
        let mut i: usize = 0;
        while i < n
            invariant
                n == self.queue@.len(),
                i <= n,
                self.queue@ == old(self)@,
                T::obeys_eq_spec() ==> forall|j: int|
                    0 <= j < i ==> !self.queue@[j].eq_spec(&item),
            decreases n - i,
        {
            let hit = self.queue[i] == item;
            if hit {
                return Option::Some(&mut self.queue[i]);
            }
            i = i + 1;
        }
        Option::None
    }
}

} // verus!
