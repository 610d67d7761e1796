//! The tree type: a root slot and a live-node count, with the search,
//! insertion and deletion entry points and the invariant validator.
use vstd::prelude::*;
use crate::red_black_tree::node::{
    bh, bh_ok, bst_ok, lemma_size_is_card, no_red_red, open_node, red, set_of, size_of, value_of,
    Node,
};
use crate::red_black_tree::put::{insert_node, PutFix};
use crate::red_black_tree::remove::remove_node;

verus! {

/// A red-black ordered tree of unique `i64` values.  The `count` field
/// tracks the number of live nodes.
pub struct Tree {
    pub(crate) root: Option<Box<Node>>,
    pub(crate) count: usize,
}

impl View for Tree {
    type V = Set<i64>;

    open(crate) spec fn view(&self) -> Set<i64> {
        set_of(self.root)
    }
}

impl Tree {
    /// The red-black invariants of the data model: binary-search ordering,
    /// no red-red edge, balanced black height, a black root, and a count
    /// that matches the number of live nodes.
    #[verifier::type_invariant]
    pub open(crate) spec fn well_formed(self) -> bool {
        &&& bst_ok(self.root)
        &&& no_red_red(self.root)
        &&& bh_ok(self.root)
        &&& !red(self.root)
        &&& self.count == size_of(self.root)
    }

    /// An empty tree.
    pub fn new() -> (r: Self)
        ensures
            r@ == Set::<i64>::empty(),
    {
        Tree { root: Option::None, count: 0 }
    }

    /// How many values the tree holds.
    pub fn node_count(&self) -> (r: usize)
        ensures
            r == self@.len(),
    {
        proof {
            use_type_invariant(self);
            lemma_size_is_card(self.root);
        }
        self.count
    }

    /// Whether `value` is in the tree.
    pub fn contains(&self, value: &i64) -> (r: bool)
        ensures
            r == self@.contains(*value),
    {
        proof {
            use_type_invariant(self);
        }
        let found = find_node(&self.root, value);
        match found {
            Option::Some(_) => true,
            Option::None => false,
        }
    }

    /// A reference to the stored value equal to `value`, if the tree holds
    /// one.
    pub fn find(&self, value: i64) -> (r: Option<&i64>)
        ensures
            match r {
                Option::Some(x) => self@.contains(value) && *x == value,
                Option::None => !self@.contains(value),
            },
    {
        proof {
            use_type_invariant(self);
        }
        let found = find_node(&self.root, &value);
        match found {
            Option::Some(b) => Option::Some(&b.value),
            Option::None => Option::None,
        }
    }

    /// Insert `value`.  Returns `false`, and leaves the tree exactly as it
    /// was, when the value is already present.
    pub fn put(&mut self, value: i64) -> (r: bool)
        requires
            old(self)@.len() < usize::MAX,
        ensures
            final(self)@ == old(self)@.insert(value),
            r == !old(self)@.contains(value),
            !r ==> *final(self) == *old(self),
    {
        proof {
            use_type_invariant(&*self);
            lemma_size_is_card(self.root);
        }
        let mut tmp = Tree { root: Option::None, count: 0 };
        std::mem::swap(self, &mut tmp);
        let Tree { root, count } = tmp;
        match root {
            Option::None => {
                let r0 = Node::new_black(value);
                *self = Tree { root: r0, count: 1 };
                proof {
                    assert(set_of(r0) =~= set_of(Option::None::<Box<Node>>).insert(value));
                }
                true
            },
            Option::Some(b) => {
                let ghost b0 = b;
                let (mut nb, f, added) = insert_node(b, value);
                proof {
                    match f {
                        PutFix::Done => {},
                        PutFix::Continue => {},
                        PutFix::RedRedLeft => {
                            assert(b0.is_red);
                        },
                        PutFix::RedRedRight => {
                            assert(b0.is_red);
                        },
                    }
                    open_node(Option::Some(nb));
                }
                nb.is_red = false;
                let c = if added {
                    count + 1
                } else {
                    count
                };
                proof {
                    open_node(Option::Some(nb));
                    if !added {
                        assert(nb == b0);
                    }
                }
                *self = Tree { root: Option::Some(nb), count: c };
                added
            },
        }
    }

    /// Remove `value`.  Returns `false`, and leaves the tree exactly as it
    /// was, when the value is absent.
    pub fn remove(&mut self, value: i64) -> (r: bool)
        ensures
            final(self)@ == old(self)@.remove(value),
            r == old(self)@.contains(value),
            !r ==> *final(self) == *old(self),
    {
        proof {
            use_type_invariant(&*self);
            lemma_size_is_card(self.root);
        }
        let mut tmp = Tree { root: Option::None, count: 0 };
        std::mem::swap(self, &mut tmp);
        let Tree { root, count } = tmp;
        let ghost root0 = root;
        let (nr, found, _still) = remove_node(root, value);
        let c = if found {
            proof {
                if count == 0 {
                    assert(set_of(root0) =~= Set::<i64>::empty());
                }
            }
            count - 1
        } else {
            count
        };
        *self = Tree { root: nr, count: c };
        found
    }

    /// Run the recursive validator: the tree is a red-black tree exactly
    /// when it reports no red-red edge and one black height.  An empty tree
    /// reads as not validated, so the answer is `false` for it.
    pub fn helper_is_a_valid_red_black_tree(&self) -> (r: bool)
        ensures
            r == (self@.len() > 0),
    {
        proof {
            use_type_invariant(self);
            lemma_size_is_card(self.root);
        }
        if self.node_count() > 0 {
            let result = validate(&self.root, true, 0);
            let red_red = result.0;
            let black_height_min = result.1;
            let black_height_max = result.2;
            return red_red == 0 && black_height_min == black_height_max;
        }
        false
    }

    /// Walk the whole tree and check every parent-child ordering; the
    /// invariants make the answer always `true`.
    pub fn helper_checking_connections(&self) -> (r: bool)
        ensures
            r,
    {
        proof {
            use_type_invariant(self);
        }
        checking_connections(&self.root)
    }
}

/// Ordered descent: the subtree slot whose root holds `value`, or an empty
/// slot when the value is absent.
pub fn find_node<'a>(fromnode: &'a Option<Box<Node>>, value: &i64) -> (r: &'a Option<Box<Node>>)
    requires
        bst_ok(*fromnode),
    ensures
        (r is Some) == set_of(*fromnode).contains(*value),
        r is Some ==> value_of(*r) == *value,
    decreases *fromnode,
{
    match fromnode {
        Option::None => fromnode,
        Option::Some(b) => {
            proof {
                open_node(*fromnode);
            }
            if *value == b.value {
                fromnode
            } else if *value < b.value {
                let r = find_node(&b.left, value);
                proof {
                    if set_of(b.right).contains(*value) {
                        assert(*value > b.value);
                    }
                }
                r
            } else {
                let r = find_node(&b.right, value);
                proof {
                    if set_of(b.left).contains(*value) {
                        assert(*value < b.value);
                    }
                }
                r
            }
        },
    }
}

/// The black height of every path, bounded by the node count: the measure
/// that keeps the validator's arithmetic inside `usize`.
proof fn lemma_bh_le_size(n: Option<Box<Node>>)
    ensures
        bh(n) <= size_of(n),
    decreases n,
{
    match n {
        Option::None => {},
        Option::Some(b) => {
            lemma_bh_le_size(b.left);
            lemma_bh_le_size(b.right);
        },
    }
}

/// The recursive validator: counts red-red edges and returns the least and
/// greatest black height over all paths.  The triple reads `(red-red
/// violations, least black height, greatest black height)`.
fn validate(node: &Option<Box<Node>>, is_red: bool, black_height: usize) -> (r: (
    usize,
    usize,
    usize,
))
    requires
        black_height + size_of(*node) <= usize::MAX,
    ensures
        r.0 <= size_of(*node),
        (r.0 == 0) <==> (no_red_red(*node) && !(is_red && red(*node))),
        (r.1 == r.2) <==> bh_ok(*node),
        bh_ok(*node) ==> r.1 == black_height + bh(*node),
        r.1 <= r.2,
    decreases *node,
{
    match node {
        Option::None => (0, black_height, black_height),
        Option::Some(n) => {
            proof {
                open_node(*node);
                lemma_bh_le_size(n.left);
                lemma_bh_le_size(n.right);
            }
            let red_red: usize = if is_red && n.is_red {
                1
            } else {
                0
            };
            let black_height = black_height + match n.is_red {
                false => 1,
                _ => 0,
            };
            let l = validate(&n.left, n.is_red, black_height);
            let r = validate(&n.right, n.is_red, black_height);
            (
                red_red + l.0 + r.0,
                if l.1 <= r.1 {
                    l.1
                } else {
                    r.1
                },
                if l.2 >= r.2 {
                    l.2
                } else {
                    r.2
                },
            )
        },
    }
}

/// The recursive walk behind `helper_checking_connections`: with owned
/// child links every connection is sound, and the ordering checks are
/// guaranteed by the search invariant.
fn checking_connections(node: &Option<Box<Node>>) -> (r: bool)
    requires
        bst_ok(*node),
    ensures
        r,
    decreases *node,
{
    match node {
        Option::None => true,
        Option::Some(b) => {
            proof {
                open_node(*node);
            }
            let left_ok = match &b.left {
                Option::Some(l) => {
                    proof {
                        open_node(b.left);
                        assert(set_of(b.left).contains(l.value));
                    }
                    l.value < b.value
                },
                Option::None => true,
            };
            let right_ok = match &b.right {
                Option::Some(rc) => {
                    proof {
                        open_node(b.right);
                        assert(set_of(b.right).contains(rc.value));
                    }
                    rc.value > b.value
                },
                Option::None => true,
            };
            left_ok && right_ok && checking_connections(&b.left) && checking_connections(&b.right)
        },
    }
}

/// Count correctness: inserting a fresh value grows the number of held
/// values by exactly one, and inserting a present value changes nothing —
/// so the node count equals the number of distinct values put minus the
/// number removed.
pub proof fn lemma_count_after_put(s: Set<i64>, v: i64)
    requires
        s.finite(),
    ensures
        s.insert(v).len() == s.len() + if s.contains(v) {
            0int
        } else {
            1int
        },
{
    if s.contains(v) {
        assert(s.insert(v) =~= s);
    }
}

/// Count correctness for removal: removing a present value shrinks the
/// number of held values by exactly one, and removing an absent value
/// changes nothing.
pub proof fn lemma_count_after_remove(s: Set<i64>, v: i64)
    requires
        s.finite(),
    ensures
        s.remove(v).len() == s.len() - if s.contains(v) {
            1int
        } else {
            0int
        },
{
    if s.contains(v) {
        assert(s.remove(v).insert(v) =~= s);
    } else {
        assert(s.remove(v) =~= s);
    }
}

/// Round-trip: a value just put is contained and found; after its removal
/// it is gone; and neither step touches any other value.
pub proof fn lemma_round_trip(s: Set<i64>, v: i64)
    ensures
        s.insert(v).contains(v),
        !s.remove(v).contains(v),
        forall|y: i64|
            y != v ==> s.insert(v).contains(y) == s.contains(y) && s.remove(v).contains(y)
                == s.contains(y),
{
}

} // verus!
