//! A priority queue of three bands: values enter a high, middle or low
//! queue and leave highest band first, first-in-first-out within a band.
use vstd::prelude::*;
use vstd::std_specs::cmp::PartialEqSpec;

verus! {

/// The three priority bands.
#[derive(PartialEq, PartialOrd, Debug)]
pub enum Priority {
    LOW,
    MIDDLE,
    HIGH,
}

/// Three first-in-first-out queues, one per band.
pub struct QueuePriority<T> {
    queue_high: Vec<T>,
    queue_middle: Vec<T>,
    queue_low: Vec<T>,
}

impl<T> View for QueuePriority<T> {
    type V = (Seq<T>, Seq<T>, Seq<T>);

    closed spec fn view(&self) -> (Seq<T>, Seq<T>, Seq<T>) {
        (self.queue_high@, self.queue_middle@, self.queue_low@)
    }
}

/// The service order: the high band, then the middle band, then the low
/// band.
pub open spec fn service_order<T>(v: (Seq<T>, Seq<T>, Seq<T>)) -> Seq<T> {
    v.0 + v.1 + v.2
}

/// The band of a view named by a priority.
pub open spec fn band<T>(v: (Seq<T>, Seq<T>, Seq<T>), p: Priority) -> Seq<T> {
    match p {
        Priority::HIGH => v.0,
        Priority::MIDDLE => v.1,
        Priority::LOW => v.2,
    }
}

/// The view with the named band replaced.
pub open spec fn with_band<T>(v: (Seq<T>, Seq<T>, Seq<T>), p: Priority, s: Seq<T>) -> (
    Seq<T>,
    Seq<T>,
    Seq<T>,
) {
    match p {
        Priority::HIGH => (s, v.1, v.2),
        Priority::MIDDLE => (v.0, s, v.2),
        Priority::LOW => (v.0, v.1, s),
    }
}

/// Updating a slot of the first band updates the same slot of the service
/// order.
broadcast proof fn lemma_update_high<T>(a: Seq<T>, b: Seq<T>, c: Seq<T>, k: int, x: T)
    requires
        0 <= k < a.len(),
    ensures
        #[trigger] (a.update(k, x) + b + c) == (a + b + c).update(k, x),
{
    assert(a.update(k, x) + b + c =~= (a + b + c).update(k, x));
}

/// Updating a slot of the middle band updates the slot of the service
/// order that follows the whole first band.
broadcast proof fn lemma_update_middle<T>(a: Seq<T>, b: Seq<T>, c: Seq<T>, k: int, x: T)
    requires
        0 <= k < b.len(),
    ensures
        #[trigger] (a + b.update(k, x) + c) == (a + b + c).update(a.len() + k, x),
{
    assert(a + b.update(k, x) + c =~= (a + b + c).update(a.len() + k, x));
}

/// Updating a slot of the low band updates the slot of the service order
/// that follows the two bands before it.
broadcast proof fn lemma_update_low<T>(a: Seq<T>, b: Seq<T>, c: Seq<T>, k: int, x: T)
    requires
        0 <= k < c.len(),
    ensures
        #[trigger] (a + b + c.update(k, x)) == (a + b + c).update(a.len() + b.len() + k, x),
{
    assert(a + b + c.update(k, x) =~= (a + b + c).update(a.len() + b.len() + k, x));
}

impl<T: PartialEq + PartialEqSpec> QueuePriority<T> {
    /// An empty queue.
    pub fn new() -> (r: Self)
        ensures
            r@ == (Seq::<T>::empty(), Seq::<T>::empty(), Seq::<T>::empty()),
    {
        Self { queue_low: Vec::new(), queue_middle: Vec::new(), queue_high: Vec::new() }
    }

    /// Put `item` at the back of the band named by `priority`.
    pub fn enqueue(&mut self, item: T, priority: Priority)
        ensures
            match priority {
                Priority::HIGH => final(self)@ == (
                    old(self)@.0.push(item),
                    old(self)@.1,
                    old(self)@.2,
                ),
                Priority::MIDDLE => final(self)@ == (
                    old(self)@.0,
                    old(self)@.1.push(item),
                    old(self)@.2,
                ),
                Priority::LOW => final(self)@ == (
                    old(self)@.0,
                    old(self)@.1,
                    old(self)@.2.push(item),
                ),
            },
    {
        match priority {
            Priority::HIGH => {
                self.queue_high.push(item);
            },
            Priority::MIDDLE => {
                self.queue_middle.push(item);
            },
            Priority::LOW => {
                self.queue_low.push(item);
            },
        }
    }

    /// Take the front of the service order: the first value of the highest
    /// band that holds one.
    pub fn dequeue(&mut self) -> (r: Option<T>)
        ensures
            service_order(old(self)@).len() == 0 ==> r is None && *final(self) == *old(self),
            service_order(old(self)@).len() > 0 ==> r == Option::Some(
                service_order(old(self)@)[0],
            ) && service_order(final(self)@) == service_order(old(self)@).drop_first(),
    {
        if !self.is_empty() {
            if !self.queue_high.is_empty() {
                let v = self.queue_high.remove(0);
                proof {
                    assert(service_order(self@) =~= service_order(old(self)@).drop_first());
                }
                return Option::Some(v);
            }
            if !self.queue_middle.is_empty() {
                let v = self.queue_middle.remove(0);
                proof {
                    assert(service_order(self@) =~= service_order(old(self)@).drop_first());
                }
                return Option::Some(v);
            }
            if !self.queue_low.is_empty() {
                let v = self.queue_low.remove(0);
                proof {
                    assert(service_order(self@) =~= service_order(old(self)@).drop_first());
                }
                return Option::Some(v);
            }
        }
        proof {
            assert(service_order(self@).len() == 0);
        }
        Option::None
    }

    /// The front of the service order, without removing it.
    pub fn peek(&self) -> (r: Option<&T>)
        ensures
            match r {
                Option::Some(x) => service_order(self@).len() > 0 && *x == service_order(self@)[0],
                Option::None => service_order(self@).len() == 0,
            },
    {
        if !self.is_empty() {
            if self.queue_high.len() > 0 {
                return Option::Some(&self.queue_high[0]);
            }
            if self.queue_middle.len() > 0 {
                return Option::Some(&self.queue_middle[0]);
            }
            if self.queue_low.len() > 0 {
                return Option::Some(&self.queue_low[0]);
            }
        }
        Option::None
    }

    /// A mutable borrow of the first value equal to `item`, searching the
    /// bands in service order.
    pub fn search(&mut self, item: T) -> (r: Option<&mut T>)
        ensures
            T::obeys_eq_spec() ==> match r {
                Option::Some(x) => exists|k: int|
                    0 <= k < service_order(old(self)@).len() && service_order(old(self)@)[
                        k
                    ].eq_spec(&item) && *x == service_order(old(self)@)[k] && service_order(
                        final(self)@,
                    ) == service_order(old(self)@).update(k, *final(x)),
                Option::None => *final(self) == *old(self) && forall|j: int|
                    0 <= j < service_order(old(self)@).len() ==> !service_order(old(self)@)[
                        j
                    ].eq_spec(&item),
            },
    {
        let nh = self.queue_high.len();
        let mut i: usize = 0;
        while i < nh
            invariant
                nh == self.queue_high@.len(),
                i <= nh,
                *self == *old(self),
                T::obeys_eq_spec() ==> forall|j: int|
                    0 <= j < i ==> !self.queue_high@[j].eq_spec(&item),
            decreases nh - i,
        {
            let hit = self.queue_high[i] == item;
            if hit {
                proof {
                    broadcast use lemma_update_high;
                    if T::obeys_eq_spec() {
                        assert(service_order(self@)[i as int] == self.queue_high@[i as int]);
                    }
                }
                return Option::Some(&mut self.queue_high[i]);
            }
            i = i + 1;
        }
        let nm = self.queue_middle.len();
        let mut i2: usize = 0;
        while i2 < nm
            invariant
                nm == self.queue_middle@.len(),
                i2 <= nm,
                *self == *old(self),
                T::obeys_eq_spec() ==> forall|j: int|
                    0 <= j < i2 ==> !self.queue_middle@[j].eq_spec(&item),
                T::obeys_eq_spec() ==> forall|j: int|
                    0 <= j < self.queue_high@.len() ==> !self.queue_high@[j].eq_spec(&item),
            decreases nm - i2,
        {
            let hit = self.queue_middle[i2] == item;
            if hit {
                proof {
                    broadcast use lemma_update_middle;
                    if T::obeys_eq_spec() {
                        let k = self.queue_high@.len() + i2;
                        assert(service_order(self@)[k as int] == self.queue_middle@[i2 as int]);
                    }
                }
                return Option::Some(&mut self.queue_middle[i2]);
            }
            i2 = i2 + 1;
        }
        let nl = self.queue_low.len();
        let mut i3: usize = 0;
        while i3 < nl
            invariant
                nl == self.queue_low@.len(),
                i3 <= nl,
                *self == *old(self),
                T::obeys_eq_spec() ==> forall|j: int|
                    0 <= j < i3 ==> !self.queue_low@[j].eq_spec(&item),
                T::obeys_eq_spec() ==> forall|j: int|
                    0 <= j < self.queue_high@.len() ==> !self.queue_high@[j].eq_spec(&item),
                T::obeys_eq_spec() ==> forall|j: int|
                    0 <= j < self.queue_middle@.len() ==> !self.queue_middle@[j].eq_spec(&item),
            decreases nl - i3,
        {
            let hit = self.queue_low[i3] == item;
            if hit {
                proof {
                    broadcast use lemma_update_low;
                    if T::obeys_eq_spec() {
                        let k = self.queue_high@.len() + self.queue_middle@.len() + i3;
                        assert(service_order(self@)[k as int] == self.queue_low@[i3 as int]);
                    }
                }
                return Option::Some(&mut self.queue_low[i3]);
            }
            i3 = i3 + 1;
        }
        proof {
            if T::obeys_eq_spec() {
                assert forall|j: int|
                    0 <= j < service_order(old(self)@).len() implies !service_order(old(self)@)[
                    j
                ].eq_spec(&item) by {
                    let so = service_order(old(self)@);
                    if j < self.queue_high@.len() {
                        assert(so[j] == self.queue_high@[j]);
                    } else if j < self.queue_high@.len() + self.queue_middle@.len() {
                        assert(so[j] == self.queue_middle@[j - self.queue_high@.len()]);
                    } else {
                        assert(so[j] == self.queue_low@[j - self.queue_high@.len()
                            - self.queue_middle@.len()]);
                    }
                }
            }
        }
        Option::None
    }

    /// Move the last value equal to `find_item` out of the band named by
    /// `find_priority` and push it onto the back of the band named by
    /// `new_priority`; reports whether such a value was found.
    pub fn change_priority(&mut self, find_item: T, find_priority: Priority, new_priority: Priority) -> (r: bool)
        ensures
            T::obeys_eq_spec() ==> ({
                let src = band(old(self)@, find_priority);
                match r {
                    true => exists|k: int|
                        0 <= k < src.len() && #[trigger] src[k].eq_spec(&find_item) && (forall|
                            j: int,
                        |
                            k < j < src.len() ==> !src[j].eq_spec(&find_item)) && final(self)@
                            == ({
                            let mid = with_band(old(self)@, find_priority, src.remove(k));
                            with_band(mid, new_priority, band(mid, new_priority).push(src[k]))
                        }),
                    false => *final(self) == *old(self) && forall|j: int|
                        0 <= j < src.len() ==> !src[j].eq_spec(&find_item),
                }
            }),
    {
        let ghost v0 = self@;
        let ghost mut gk: int = 0;
        if self.is_empty() {
            return false;
        }
        let el = match find_priority {
            Priority::HIGH => {
                let mut el = Option::None;
                if !self.queue_high.is_empty() {
                    let find_index = last_match_index(&self.queue_high, &find_item);
                    if let Option::Some(index) = find_index {
                        proof {
                            gk = index as int;
                        }
                        el = Option::Some(self.queue_high.remove(index));
                    }
                }
                el
            },
            Priority::MIDDLE => {
                let mut el = Option::None;
                if !self.queue_middle.is_empty() {
                    let find_index = last_match_index(&self.queue_middle, &find_item);
                    if let Option::Some(index) = find_index {
                        proof {
                            gk = index as int;
                        }
                        el = Option::Some(self.queue_middle.remove(index));
                    }
                }
                el
            },
            Priority::LOW => {
                let mut el = Option::None;
                if !self.queue_low.is_empty() {
                    let find_index = last_match_index(&self.queue_low, &find_item);
                    if let Option::Some(index) = find_index {
                        proof {
                            gk = index as int;
                        }
                        el = Option::Some(self.queue_low.remove(index));
                    }
                }
                el
            },
        };
        if let Option::Some(el) = el {
            let ghost vmid = self@;
            let ghost gel = el;
            proof {
                let src = band(v0, find_priority);
                assert(vmid.0 =~= with_band(v0, find_priority, src.remove(gk)).0);
                assert(vmid.1 =~= with_band(v0, find_priority, src.remove(gk)).1);
                assert(vmid.2 =~= with_band(v0, find_priority, src.remove(gk)).2);
            }
            match new_priority {
                Priority::HIGH => {
                    self.queue_high.push(el);
                },
                Priority::MIDDLE => {
                    self.queue_middle.push(el);
                },
                Priority::LOW => {
                    self.queue_low.push(el);
                },
            }
            proof {
                if T::obeys_eq_spec() {
                    let src = band(v0, find_priority);
                    let mid = with_band(v0, find_priority, src.remove(gk));
                    assert(vmid == mid);
                    assert(self@.0 =~= with_band(mid, new_priority, band(mid, new_priority).push(
                        gel,
                    )).0);
                    assert(self@.1 =~= with_band(mid, new_priority, band(mid, new_priority).push(
                        gel,
                    )).1);
                    assert(self@.2 =~= with_band(mid, new_priority, band(mid, new_priority).push(
                        gel,
                    )).2);
                    assert(gel == src[gk]);
                    assert(0 <= gk < src.len() && src[gk].eq_spec(&find_item) && (forall|j: int|
                        gk < j < src.len() ==> !src[j].eq_spec(&find_item)));
                }
            }
            return true;
        }
        false
    }

    /// A mutable borrow of the front of the service order.
    pub fn peek_mut(&mut self) -> (r: Option<&mut T>)
        ensures
            service_order(old(self)@).len() == 0 ==> r is None && *final(self) == *old(self),
            service_order(old(self)@).len() > 0 ==> match r {
                Option::Some(x) => *x == service_order(old(self)@)[0] && service_order(
                    final(self)@,
                ) == service_order(old(self)@).update(0, *final(x)),
                Option::None => false,
            },
    {
        if !self.is_empty() {
            if self.queue_high.len() > 0 {
                proof {
                    broadcast use lemma_update_high;
                }
                return Option::Some(&mut self.queue_high[0]);
            }
            if self.queue_middle.len() > 0 {
                proof {
                    broadcast use lemma_update_middle;
                    assert(self.queue_high@ + self.queue_middle@ + self.queue_low@
                        == service_order(self@));
                }
                return Option::Some(&mut self.queue_middle[0]);
            }
            if self.queue_low.len() > 0 {
                proof {
                    broadcast use lemma_update_low;
                    assert(self.queue_high@ + self.queue_middle@ + self.queue_low@
                        == service_order(self@));
                }
                return Option::Some(&mut self.queue_low[0]);
            }
        }
        proof {
            assert(service_order(self@).len() == 0);
        }
        Option::None
    }

    /// Whether every band is empty.
    pub fn is_empty(&self) -> (r: bool)
        ensures
            r == (service_order(self@).len() == 0),
    {
        self.queue_high.is_empty() && self.queue_middle.is_empty() && self.queue_low.is_empty()
    }

    /// An iterator over the service order.
    pub fn iter<'a>(&'a self) -> (r: IterQueuePriority<'a, T>)
        ensures
            r@ == service_order(self@),
    {
        IterQueuePriority::new(self)
    }
}

/// The index of the last value of `v` equal to `item`; the scan walks the
/// whole band and keeps the latest hit.
fn last_match_index<T: PartialEq + PartialEqSpec>(v: &Vec<T>, item: &T) -> (r: Option<usize>)
    ensures
        r matches Option::Some(k) ==> k < v@.len(),
        T::obeys_eq_spec() ==> match r {
            Option::Some(k) => k < v@.len() && v@[k as int].eq_spec(item) && forall|j: int|
                k < j < v@.len() ==> !v@[j].eq_spec(item),
            Option::None => forall|j: int| 0 <= j < v@.len() ==> !v@[j].eq_spec(item),
        },
{
    let n = v.len();
    let mut found: Option<usize> = Option::None;
    let mut i: usize = 0;
    while i < n
        invariant
            n == v@.len(),
            i <= n,
            found matches Option::Some(k) ==> k < i,
            T::obeys_eq_spec() ==> match found {
                Option::Some(k) => k < i && v@[k as int].eq_spec(item) && forall|j: int|
                    k < j < i ==> !v@[j].eq_spec(item),
                Option::None => forall|j: int| 0 <= j < i ==> !v@[j].eq_spec(item),
            },
        decreases n - i,
    {
        let hit = v[i] == *item;
        if hit {
            found = Option::Some(i);
        }
        i = i + 1;
    }
    found
}

/// A borrowing iterator over the service order of a priority queue.
pub struct IterQueuePriority<'a, T> {
    items: Vec<&'a T>,
    pos: usize,
}

impl<'a, T> View for IterQueuePriority<'a, T> {
    type V = Seq<T>;

    closed spec fn view(&self) -> Seq<T> {
        self.items@.map_values(|x: &T| *x).skip(self.pos as int)
    }
}

impl<'a, T> IterQueuePriority<'a, T> {
    #[verifier::type_invariant]
    spec fn in_bounds(self) -> bool {
        self.pos <= self.items@.len()
    }

    /// An iterator standing at the front of the service order.
    fn new(q: &'a QueuePriority<T>) -> (r: Self)
        ensures
            r@ == service_order(q@),
    {
        let mut items: Vec<&'a T> = Vec::new();
        push_refs(&q.queue_high, &mut items);
        push_refs(&q.queue_middle, &mut items);
        push_refs(&q.queue_low, &mut items);
        proof {
            assert(items@.map_values(|x: &T| *x).skip(0) =~= service_order(q@));
        }
        IterQueuePriority { items, pos: 0 }
    }

    /// The next reference in service order.
    pub fn next(&mut self) -> (r: Option<&'a T>)
        ensures
            old(self)@.len() == 0 ==> r is None && final(self)@ == old(self)@,
            old(self)@.len() > 0 ==> match r {
                Option::Some(x) => *x == old(self)@[0] && final(self)@ == old(self)@.skip(1),
                Option::None => false,
            },
    {
        proof {
            use_type_invariant(&*self);
        }
        if self.pos < self.items.len() {
            let v = self.items[self.pos];
            self.pos = self.pos + 1;
            proof {
                assert(final(self)@ =~= old(self)@.skip(1));
            }
            Option::Some(v)
        } else {
            Option::None
        }
    }
}

/// Push a reference to every value of `v`, in order.
fn push_refs<'a, T>(v: &'a Vec<T>, out: &mut Vec<&'a T>)
    ensures
        final(out)@.map_values(|x: &T| *x) == old(out)@.map_values(|x: &T| *x) + v@,
{
    let n = v.len();
    let mut i: usize = 0;
    while i < n
        invariant
            n == v@.len(),
            i <= n,
            out@.len() == old(out)@.len() + i,
            forall|j: int| 0 <= j < old(out)@.len() ==> out@[j] == old(out)@[j],
            forall|j: int| 0 <= j < i ==> out@[old(out)@.len() + j] == &v@[j],
        decreases n - i,
    {
        out.push(&v[i]);
        i = i + 1;
    }
    proof {
        assert(out@.map_values(|x: &T| *x) =~= old(out)@.map_values(|x: &T| *x) + v@);
    }
}

} // verus!
