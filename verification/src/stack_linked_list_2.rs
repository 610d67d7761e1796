//! A stack over a singly linked list, with a few extras beside the stack
//! discipline: positional insertion, removal and search by value, back-end
//! push and pop, and iteration.
use vstd::prelude::*;
use vstd::std_specs::cmp::PartialEqSpec;

verus! {

/// One link: a value and the rest of the list.
pub struct Node<T> {
    pub(crate) elem: T,
    pub(crate) next: Option<Box<Node<T>>>,
}

/// The values hanging off a link chain, front first.
pub open(crate) spec fn node_seq<T>(n: Option<Box<Node<T>>>) -> Seq<T>
    decreases n,
{
    match n {
        Option::None => Seq::empty(),
        Option::Some(b) => seq![b.elem] + node_seq(b.next),
    }
}

/// The list: an optional first link.
pub struct List<T> {
    head: Option<Box<Node<T>>>,
}

impl<T> View for List<T> {
    type V = Seq<T>;

    closed spec fn view(&self) -> Seq<T> {
        node_seq(self.head)
    }
}

impl<T> View for Node<T> {
    type V = Seq<T>;

    open(crate) spec fn view(&self) -> Seq<T> {
        seq![self.elem] + node_seq(self.next)
    }
}

impl<T: PartialEq + PartialEqSpec> Node<T> {
    /// Whether some value of this chain equals `elem`.
    pub fn contains(&self, elem: &T) -> (r: bool)
        ensures
            T::obeys_eq_spec() ==> r == exists|k: int|
                0 <= k < self@.len() && elem.eq_spec(&self@[k]),
        decreases self@.len(),
    {
        if *elem == self.elem {
            proof {
                if T::obeys_eq_spec() {
                    assert(elem.eq_spec(&self@[0]));
                }
            }
            return true;
        }
        match &self.next {
            Option::Some(next) => {
                let r = next.contains(elem);
                proof {
                    if T::obeys_eq_spec() {
                        if r {
                            let k = choose|k: int|
                                0 <= k < next@.len() && elem.eq_spec(&next@[k]);
                            assert(elem.eq_spec(&self@[k + 1]));
                        } else {
                            assert forall|k: int|
                                0 <= k < self@.len() && k != 0 implies !elem.eq_spec(
                                &self@[k],
                            ) by {
                                assert(self@[k] == next@[k - 1]);
                            }
                        }
                    }
                }
                r
            },
            Option::None => false,
        }
    }

    /// Put `new_elem` right after the first link equal to `left_elem`;
    /// nothing moves when that link is the last one, though the call still
    /// reports success, an oddity this list keeps.
    pub fn insert(&mut self, left_elem: &T, new_elem: T) -> (r: bool)
        ensures
            T::obeys_eq_spec() ==> match r {
                true => exists|k: int|
                    0 <= k < old(self)@.len() && left_elem.eq_spec(&old(self)@[k]) && (
                    forall|j: int| 0 <= j < k ==> !left_elem.eq_spec(&old(self)@[j])) && (if k
                        + 1 < old(self)@.len() {
                        final(self)@ == old(self)@.insert(k + 1, new_elem)
                    } else {
                        final(self)@ == old(self)@
                    }),
                false => final(self)@ == old(self)@ && forall|j: int|
                    0 <= j < old(self)@.len() ==> !left_elem.eq_spec(&old(self)@[j]),
            },
        decreases old(self)@.len(),
    {
        let hit = *left_elem == self.elem;
        if hit {
            let mut taken = Option::None;
            std::mem::swap(&mut taken, &mut self.next);
            match taken {
                Option::Some(node) => {
                    self.next = Option::Some(
                        Box::new(Node { elem: new_elem, next: Option::Some(node) }),
                    );
                    proof {
                        if T::obeys_eq_spec() {
                            assert(left_elem.eq_spec(&old(self)@[0]));
                            assert(self@ =~= old(self)@.insert(1, new_elem));
                        }
                    }
                },
                Option::None => {
                    self.next = Option::None;
                    proof {
                        if T::obeys_eq_spec() {
                            assert(left_elem.eq_spec(&old(self)@[0]));
                            assert(self@ =~= old(self)@);
                        }
                    }
                },
            }
            return true;
        }
        let mut taken = Option::None;
        std::mem::swap(&mut taken, &mut self.next);
        match taken {
            Option::Some(mut next) => {
                let r = next.insert(left_elem, new_elem);
                let ghost next_old = node_seq(old(self).next);
                self.next = Option::Some(next);
                proof {
                    if T::obeys_eq_spec() {
                        if r {
                            let k = choose|k: int|
                                0 <= k < next_old.len() && left_elem.eq_spec(&next_old[k]) && (
                                forall|j: int| 0 <= j < k ==> !left_elem.eq_spec(&next_old[j]));
                            assert(left_elem.eq_spec(&old(self)@[k + 1]));
                            assert forall|j: int|
                                0 <= j < k + 1 implies !left_elem.eq_spec(&old(self)@[j]) by {
                                if j > 0 {
                                    assert(old(self)@[j] == next_old[j - 1]);
                                }
                            }
                            if k + 2 < old(self)@.len() {
                                assert(self@ =~= old(self)@.insert(k + 2, new_elem));
                            } else {
                                assert(self@ =~= old(self)@);
                            }
                        } else {
                            assert(self@ =~= old(self)@);
                            assert forall|j: int|
                                0 <= j < old(self)@.len() implies !left_elem.eq_spec(
                                &old(self)@[j],
                            ) by {
                                if j > 0 {
                                    assert(old(self)@[j] == next_old[j - 1]);
                                }
                            }
                        }
                    }
                }
                r
            },
            Option::None => {
                self.next = Option::None;
                proof {
                    if T::obeys_eq_spec() {
                        assert(self@ =~= old(self)@);
                    }
                }
                false
            },
        }
    }

    /// Detach and return the first value equal to `elem` among this link's
    /// followers; the link's own value is the caller's business.
    pub fn remove(&mut self, elem: &T) -> (r: Option<T>)
        ensures
            T::obeys_eq_spec() ==> match r {
                Option::Some(v) => exists|k: int|
                    1 <= k < old(self)@.len() && elem.eq_spec(&old(self)@[k]) && (forall|j: int|
                        1 <= j < k ==> !elem.eq_spec(&old(self)@[j])) && v == old(self)@[k]
                        && final(self)@ == old(self)@.remove(k),
                Option::None => final(self)@ == old(self)@ && forall|j: int|
                    1 <= j < old(self)@.len() ==> !elem.eq_spec(&old(self)@[j]),
            },
        decreases old(self)@.len(),
    {
        let mut taken = Option::None;
        std::mem::swap(&mut taken, &mut self.next);
        match taken {
            Option::Some(mut next) => {
                let hit = *elem == next.elem;
                if hit {
                    let mut next_next = Option::None;
                    std::mem::swap(&mut next_next, &mut next.next);
                    self.next = next_next;
                    let v = next.elem;
                    proof {
                        if T::obeys_eq_spec() {
                            assert(elem.eq_spec(&old(self)@[1]));
                            assert(self@ =~= old(self)@.remove(1));
                        }
                    }
                    return Option::Some(v);
                }
                let r = next.remove(elem);
                let ghost next_old = node_seq(old(self).next);
                self.next = Option::Some(next);
                proof {
                    if T::obeys_eq_spec() {
                        match &r {
                            Option::Some(_) => {
                                let k = choose|k: int|
                                    1 <= k < next_old.len() && elem.eq_spec(&next_old[k]) && (
                                    forall|j: int|
                                        1 <= j < k ==> !elem.eq_spec(&next_old[j])) && r
                                        == Option::Some(next_old[k]);
                                assert(elem.eq_spec(&old(self)@[k + 1]));
                                assert forall|j: int|
                                    1 <= j < k + 1 implies !elem.eq_spec(&old(self)@[j]) by {
                                    assert(old(self)@[j] == next_old[j - 1]);
                                }
                                assert(self@ =~= old(self)@.remove(k + 1));
                            },
                            Option::None => {
                                assert(self@ =~= old(self)@);
                                assert forall|j: int|
                                    1 <= j < old(self)@.len() implies !elem.eq_spec(
                                    &old(self)@[j],
                                ) by {
                                    assert(old(self)@[j] == next_old[j - 1]);
                                }
                            },
                        }
                    }
                }
                r
            },
            Option::None => {
                self.next = Option::None;
                proof {
                    assert(self@ =~= old(self)@);
                }
                Option::None
            },
        }
    }

    /// Append `elem` at the far end of the chain.
    pub fn push_back(&mut self, elem: T)
        ensures
            final(self)@ == old(self)@.push(elem),
        decreases old(self)@.len(),
    {
        let mut taken = Option::None;
        std::mem::swap(&mut taken, &mut self.next);
        match taken {
            Option::None => {
                self.next = Option::Some(Box::new(Node { elem, next: Option::None }));
                proof {
                    assert(self@ =~= old(self)@.push(elem));
                }
            },
            Option::Some(mut next) => {
                next.push_back(elem);
                self.next = Option::Some(next);
                proof {
                    assert(self@ =~= old(self)@.push(elem));
                }
            },
        }
    }

    /// Detach and return the last value among this link's followers, if
    /// there is one.
    pub fn pop_back(&mut self) -> (r: Option<T>)
        ensures
            old(self)@.len() <= 1 ==> r is None && *final(self) == *old(self),
            old(self)@.len() > 1 ==> r == Option::Some(old(self)@.last()) && final(self)@ == old(
                self,
            )@.drop_last(),
        decreases old(self)@.len(),
    {
        let mut taken = Option::None;
        std::mem::swap(&mut taken, &mut self.next);
        match taken {
            Option::Some(mut next) => {
                match &next.next {
                    Option::Some(_) => {
                        let r = next.pop_back();
                        self.next = Option::Some(next);
                        proof {
                            assert(self@ =~= old(self)@.drop_last());
                        }
                        r
                    },
                    Option::None => {
                        self.next = Option::None;
                        proof {
                            assert(old(self)@.len() == 2) by {
                                assert(node_seq(old(self).next).len() == 1);
                            }
                            assert(self@ =~= old(self)@.drop_last());
                            assert(next@[0] == old(self)@.last());
                        }
                        Option::Some(next.elem)
                    },
                }
            },
            Option::None => {
                self.next = Option::None;
                proof {
                    assert(*self == *old(self));
                }
                Option::None
            },
        }
    }

    /// A reference to the first value of this chain equal to `elem`.
    pub fn search<'a>(&'a self, elem: &T) -> (r: Option<&'a T>)
        ensures
            T::obeys_eq_spec() ==> match r {
                Option::Some(x) => exists|k: int|
                    0 <= k < self@.len() && elem.eq_spec(&self@[k]) && (forall|j: int|
                        0 <= j < k ==> !elem.eq_spec(&self@[j])) && *x == self@[k],
                Option::None => forall|j: int|
                    0 <= j < self@.len() ==> !elem.eq_spec(&self@[j]),
            },
        decreases self@.len(),
    {
        if *elem == self.elem {
            proof {
                if T::obeys_eq_spec() {
                    assert(elem.eq_spec(&self@[0]));
                }
            }
            return Option::Some(&self.elem);
        }
        match &self.next {
            Option::Some(next) => {
                let r = next.search(elem);
                proof {
                    if T::obeys_eq_spec() {
                        match r {
                            Option::Some(x) => {
                                let k = choose|k: int|
                                    0 <= k < next@.len() && elem.eq_spec(&next@[k]) && (forall|
                                        j: int,
                                    |
                                        0 <= j < k ==> !elem.eq_spec(&next@[j])) && *x == next@[k];
                                assert(elem.eq_spec(&self@[k + 1]));
                                assert forall|j: int|
                                    0 <= j < k + 1 implies !elem.eq_spec(&self@[j]) by {
                                    if j > 0 {
                                        assert(self@[j] == next@[j - 1]);
                                    }
                                }
                            },
                            Option::None => {
                                assert forall|j: int|
                                    0 <= j < self@.len() implies !elem.eq_spec(&self@[j]) by {
                                    if j > 0 {
                                        assert(self@[j] == next@[j - 1]);
                                    }
                                }
                            },
                        }
                    }
                }
                r
            },
            Option::None => Option::None,
        }
    }
}

impl<T: PartialEq + PartialEqSpec> List<T> {
    /// An empty list.
    pub fn new() -> (r: Self)
        ensures
            r@ == Seq::<T>::empty(),
    {
        List { head: Option::None }
    }

    /// Whether some value of the list equals `elem`.
    pub fn contains(&self, elem: &T) -> (r: bool)
        ensures
            T::obeys_eq_spec() ==> r == exists|k: int|
                0 <= k < self@.len() && elem.eq_spec(&self@[k]),
    {
        match &self.head {
            Option::None => false,
            Option::Some(node) => {
                let r = node.contains(elem);
                proof {
                    assert(self@ =~= node@);
                }
                r
            },
        }
    }

    /// Put `new_elem` right after the first value equal to `left_elem`; an
    /// empty list takes it at the front instead.
    pub fn insert(&mut self, left_elem: &T, new_elem: T) -> (r: bool)
        ensures
            T::obeys_eq_spec() ==> match r {
                true => (old(self)@.len() == 0 && final(self)@ == seq![new_elem]) || exists|
                    k: int,
                |
                    0 <= k < old(self)@.len() && left_elem.eq_spec(&old(self)@[k]) && (forall|
                        j: int,
                    |
                        0 <= j < k ==> !left_elem.eq_spec(&old(self)@[j])) && (if k + 1 < old(
                        self,
                    )@.len() {
                        final(self)@ == old(self)@.insert(k + 1, new_elem)
                    } else {
                        final(self)@ == old(self)@
                    }),
                false => final(self)@ == old(self)@ && forall|j: int|
                    0 <= j < old(self)@.len() ==> !left_elem.eq_spec(&old(self)@[j]),
            },
    {
        let mut taken = Option::None;
        std::mem::swap(&mut taken, &mut self.head);
        match taken {
            Option::None => {
                self.head = Option::None;
                self.push_front(new_elem);
                proof {
                    assert(self@ =~= seq![new_elem]);
                }
                return true;
            },
            Option::Some(mut head) => {
                let r = head.insert(left_elem, new_elem);
                self.head = Option::Some(head);
                r
            },
        }
    }

    /// Detach and return the first value equal to `elem`.
    pub fn remove(&mut self, elem: &T) -> (r: Option<T>)
        ensures
            T::obeys_eq_spec() ==> match r {
                Option::Some(v) => exists|k: int|
                    0 <= k < old(self)@.len() && elem.eq_spec(&old(self)@[k]) && (forall|j: int|
                        0 <= j < k ==> !elem.eq_spec(&old(self)@[j])) && v == old(self)@[k]
                        && final(self)@ == old(self)@.remove(k),
                Option::None => final(self)@ == old(self)@ && forall|j: int|
                    0 <= j < old(self)@.len() ==> !elem.eq_spec(&old(self)@[j]),
            },
    {
        let mut taken = Option::None;
        std::mem::swap(&mut taken, &mut self.head);
        match taken {
            Option::Some(mut head) => {
                let hit = *elem == head.elem;
                if hit {
                    let mut rest = Option::None;
                    std::mem::swap(&mut rest, &mut head.next);
                    self.head = rest;
                    let v = head.elem;
                    proof {
                        if T::obeys_eq_spec() {
                            assert(elem.eq_spec(&old(self)@[0]));
                            assert(self@ =~= old(self)@.remove(0));
                        }
                    }
                    return Option::Some(v);
                }
                let r = head.remove(elem);
                let ghost head_old = old(self)@;
                self.head = Option::Some(head);
                proof {
                    if T::obeys_eq_spec() {
                        match &r {
                            Option::Some(_) => {},
                            Option::None => {
                                assert forall|j: int|
                                    0 <= j < old(self)@.len() implies !elem.eq_spec(
                                    &old(self)@[j],
                                ) by {}
                            },
                        }
                    }
                }
                r
            },
            Option::None => {
                self.head = Option::None;
                Option::None
            },
        }
    }

    /// Append `elem` at the far end.
    pub fn push_back(&mut self, elem: T)
        ensures
            final(self)@ == old(self)@.push(elem),
    {
        let mut taken = Option::None;
        std::mem::swap(&mut taken, &mut self.head);
        match taken {
            Option::None => {
                self.head = Option::Some(Box::new(Node { elem, next: Option::None }));
                proof {
                    assert(self@ =~= old(self)@.push(elem));
                }
            },
            Option::Some(mut head) => {
                head.push_back(elem);
                self.head = Option::Some(head);
                proof {
                    assert(self@ =~= old(self)@.push(elem));
                }
            },
        }
    }

    /// Detach and return the last value, if there is one.
    pub fn pop_back(&mut self) -> (r: Option<T>)
        ensures
            old(self)@.len() == 0 ==> r is None && *final(self) == *old(self),
            old(self)@.len() > 0 ==> r == Option::Some(old(self)@.last()) && final(self)@ == old(
                self,
            )@.drop_last(),
    {
        let mut taken = Option::None;
        std::mem::swap(&mut taken, &mut self.head);
        match taken {
            Option::Some(mut head) => {
                match &head.next {
                    Option::Some(_) => {
                        let r = head.pop_back();
                        self.head = Option::Some(head);
                        proof {
                            assert(self@ =~= old(self)@.drop_last());
                        }
                        r
                    },
                    Option::None => {
                        self.head = Option::None;
                        proof {
                            assert(self@ =~= old(self)@.drop_last());
                        }
                        Option::Some(head.elem)
                    },
                }
            },
            Option::None => {
                self.head = Option::None;
                Option::None
            },
        }
    }

    /// A reference to the first value equal to `elem`.
    pub fn search<'a>(&'a self, elem: &T) -> (r: Option<&'a T>)
        ensures
            T::obeys_eq_spec() ==> match r {
                Option::Some(x) => exists|k: int|
                    0 <= k < self@.len() && elem.eq_spec(&self@[k]) && (forall|j: int|
                        0 <= j < k ==> !elem.eq_spec(&self@[j])) && *x == self@[k],
                Option::None => forall|j: int|
                    0 <= j < self@.len() ==> !elem.eq_spec(&self@[j]),
            },
    {
        match &self.head {
            Option::None => Option::None,
            Option::Some(node) => {
                let r = node.search(elem);
                proof {
                    assert(self@ =~= node@);
                }
                r
            },
        }
    }

    /// Put `elem` at the front.
    pub fn push_front(&mut self, elem: T)
        ensures
            final(self)@ == seq![elem] + old(self)@,
    {
        let mut taken = Option::None;
        std::mem::swap(&mut taken, &mut self.head);
        self.head = Option::Some(Box::new(Node { elem, next: taken }));
        proof {
            assert(self@ =~= seq![elem] + old(self)@);
        }
    }

    /// Take the front value, if there is one.
    pub fn pop_front(&mut self) -> (r: Option<T>)
        ensures
            old(self)@.len() == 0 ==> r is None && *final(self) == *old(self),
            old(self)@.len() > 0 ==> r == Option::Some(old(self)@[0]) && final(self)@ == old(
                self,
            )@.drop_first(),
    {
        let mut taken = Option::None;
        std::mem::swap(&mut taken, &mut self.head);
        match taken {
            Option::Some(mut head) => {
                let mut rest = Option::None;
                std::mem::swap(&mut rest, &mut head.next);
                self.head = rest;
                proof {
                    assert(self@ =~= old(self)@.drop_first());
                }
                Option::Some(head.elem)
            },
            Option::None => {
                self.head = Option::None;
                Option::None
            },
        }
    }

    /// The front value, without removing it.
    pub fn peek(&self) -> (r: Option<&T>)
        ensures
            match r {
                Option::Some(x) => self@.len() > 0 && *x == self@[0],
                Option::None => self@.len() == 0,
            },
    {
        match &self.head {
            Option::Some(node) => Option::Some(&node.elem),
            Option::None => Option::None,
        }
    }

    /// A mutable borrow of the front value.
    pub fn peek_mut(&mut self) -> (r: Option<&mut T>)
        ensures
            old(self)@.len() == 0 ==> r is None && final(self)@ == old(self)@,
            old(self)@.len() > 0 ==> match r {
                Option::Some(x) => *x == old(self)@[0] && final(self)@ == old(self)@.update(
                    0,
                    *final(x),
                ),
                Option::None => false,
            },
    {
        match &mut self.head {
            Option::Some(node) => Option::Some(&mut node.elem),
            Option::None => Option::None,
        }
    }

    /// Turn the list into a consuming front-to-back iterator.
    pub fn into_iter(self) -> (r: IntoIter<T>)
        ensures
            r@ == self@,
    {
        IntoIter(self)
    }

    /// An iterator of references, front to back.
    pub fn iter<'a>(&'a self) -> (r: Iter<'a, T>)
        ensures
            r@ == self@,
    {
        let mut items: Vec<&'a T> = Vec::new();
        collect_refs(&self.head, &mut items);
        proof {
            assert(items@.map_values(|x: &T| *x) =~= self@);
        }
        Iter { items, pos: 0 }
    }
}

/// Push references to every value of a chain, front first.
fn collect_refs<'a, T>(node: &'a Option<Box<Node<T>>>, out: &mut Vec<&'a T>)
    ensures
        final(out)@.map_values(|x: &T| *x) == old(out)@.map_values(|x: &T| *x) + node_seq(*node),
    decreases *node,
{
    match node {
        Option::None => {
            proof {
                assert(final(out)@.map_values(|x: &T| *x) =~= old(out)@.map_values(|x: &T| *x)
                    + node_seq(*node));
            }
        },
        Option::Some(b) => {
            out.push(&b.elem);
            collect_refs(&b.next, out);
            proof {
                assert(final(out)@.map_values(|x: &T| *x) =~= old(out)@.map_values(|x: &T| *x)
                    + node_seq(*node));
            }
        },
    }
}

/// A consuming iterator over a list, front to back.
pub struct IntoIter<T>(pub(crate) List<T>);

impl<T> View for IntoIter<T> {
    type V = Seq<T>;

    closed spec fn view(&self) -> Seq<T> {
        self.0@
    }
}

impl<T: PartialEq + PartialEqSpec> IntoIter<T> {
    /// The next value, front first.
    pub fn next(&mut self) -> (r: Option<T>)
        ensures
            old(self)@.len() == 0 ==> r is None && final(self)@ == old(self)@,
            old(self)@.len() > 0 ==> r == Option::Some(old(self)@[0]) && final(self)@ == old(
                self,
            )@.drop_first(),
    {
        self.0.pop_front()
    }
}

/// A borrowing iterator over a list, front to back.
pub struct Iter<'a, T> {
    items: Vec<&'a T>,
    pos: usize,
}

impl<'a, T> View for Iter<'a, T> {
    type V = Seq<T>;

    closed spec fn view(&self) -> Seq<T> {
        self.items@.map_values(|x: &T| *x).skip(self.pos as int)
    }
}

impl<'a, T> Iter<'a, T> {
    #[verifier::type_invariant]
    spec fn in_bounds(self) -> bool {
        self.pos <= self.items@.len()
    }

    /// The next reference, front first.
    pub fn next(&mut self) -> (r: Option<&'a T>)
        ensures
            old(self)@.len() == 0 ==> r is None && final(self)@ == old(self)@,
            old(self)@.len() > 0 ==> match r {
                Option::Some(x) => *x == old(self)@[0] && final(self)@ == old(self)@.skip(1),
                Option::None => false,
            },
    {
        proof {
            use_type_invariant(&*self);
        }
        if self.pos < self.items.len() {
            let v = self.items[self.pos];
            self.pos = self.pos + 1;
            proof {
                assert(final(self)@ =~= old(self)@.skip(1));
            }
            Option::Some(v)
        } else {
            Option::None
        }
    }
}

/// The separated tail of a joined key string: an arrow and a value, for
/// every value of a sequence.
pub open(crate) spec fn tails_join(s: Seq<String>) -> Seq<char>
    decreases s.len(),
{
    if s.len() == 0 {
        Seq::empty()
    } else {
        "->"@ + s[0]@ + tails_join(s.drop_first())
    }
}

/// A sequence of values joined with arrows.
pub open(crate) spec fn strs_join(s: Seq<String>) -> Seq<char> {
    if s.len() == 0 {
        Seq::empty()
    } else {
        s[0]@ + tails_join(s.drop_first())
    }
}

impl List<String> {
    /// The values of the list joined with arrows, front first.
    pub fn get_keys(&self) -> (r: String)
        ensures
            r@ == strs_join(self@),
    {
        let mut buff = String::from_str("");
        match &self.head {
            Option::None => {
                proof {
                    reveal_strlit("");
                    assert(buff@ =~= strs_join(self@));
                }
            },
            Option::Some(b) => {
                proof {
                    reveal_strlit("");
                    assert(buff@ =~= Seq::<char>::empty());
                }
                buff.append(b.elem.as_str());
                append_chain(&b.next, &mut buff);
                proof {
                    assert(self@ == seq![b.elem] + node_seq(b.next));
                    assert(node_seq(b.next) =~= self@.drop_first());
                    assert(self@[0] == b.elem);
                    assert(buff@ =~= strs_join(self@));
                }
            },
        }
        buff
    }
}

/// Append an arrow and a value for every link of a chain.
fn append_chain(n: &Option<Box<Node<String>>>, out: &mut String)
    ensures
        final(out)@ == old(out)@ + tails_join(node_seq(*n)),
    decreases *n,
{
    match n {
        Option::None => {
            proof {
                assert(tails_join(node_seq(*n)) =~= Seq::<char>::empty());
                assert(final(out)@ =~= old(out)@ + tails_join(node_seq(*n)));
            }
        },
        Option::Some(b) => {
            out.append("->");
            out.append(b.elem.as_str());
            append_chain(&b.next, out);
            proof {
                assert(node_seq(b.next) =~= node_seq(*n).drop_first());
                assert(node_seq(*n)[0] == b.elem);
                assert(final(out)@ =~= old(out)@ + tails_join(node_seq(*n)));
            }
        },
    }
}

} // verus!
