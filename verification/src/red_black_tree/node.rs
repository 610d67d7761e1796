//! The node of the red-black ordered tree, with the specification functions
//! that give a subtree its mathematical reading: the set of values it holds,
//! the binary-search ordering, the colour discipline and the black height.
use vstd::prelude::*;

verus! {

/// A value-bearing node with two owned child slots and a one-bit colour.
pub struct Node {
    pub(crate) value: i64,
    pub(crate) is_red: bool,
    pub(crate) left: Option<Box<Node>>,
    pub(crate) right: Option<Box<Node>>,
}

/// The set of values a subtree holds.
pub open(crate) spec fn set_of(n: Option<Box<Node>>) -> Set<i64>
    decreases n,
{
    match n {
        Option::None => Set::empty(),
        Option::Some(b) => set_of(b.left).union(set_of(b.right)).insert(b.value),
    }
}

/// How many nodes a subtree holds.
pub open(crate) spec fn size_of(n: Option<Box<Node>>) -> nat
    decreases n,
{
    match n {
        Option::None => 0,
        Option::Some(b) => 1 + size_of(b.left) + size_of(b.right),
    }
}

/// Binary-search ordering: values on the left are smaller, values on the
/// right are greater, in every subtree.
pub open(crate) spec fn bst_ok(n: Option<Box<Node>>) -> bool
    decreases n,
{
    match n {
        Option::None => true,
        Option::Some(b) => {
            &&& (forall|x: i64| set_of(b.left).contains(x) ==> x < b.value)
            &&& (forall|x: i64| set_of(b.right).contains(x) ==> x > b.value)
            &&& bst_ok(b.left)
            &&& bst_ok(b.right)
        },
    }
}

/// Whether the root of a subtree is red; an absent child reads as black.
pub open(crate) spec fn red(n: Option<Box<Node>>) -> bool {
    match n {
        Option::None => false,
        Option::Some(b) => b.is_red,
    }
}

/// No red node has a red child anywhere in the subtree.
pub open(crate) spec fn no_red_red(n: Option<Box<Node>>) -> bool
    decreases n,
{
    match n {
        Option::None => true,
        Option::Some(b) => {
            &&& (b.is_red ==> !red(b.left) && !red(b.right))
            &&& no_red_red(b.left)
            &&& no_red_red(b.right)
        },
    }
}

/// The black height of a subtree, read along its left spine.
pub open(crate) spec fn bh(n: Option<Box<Node>>) -> nat
    decreases n,
{
    match n {
        Option::None => 0,
        Option::Some(b) => bh(b.left) + if b.is_red {
            0nat
        } else {
            1nat
        },
    }
}

/// Every downward path passes the same number of black nodes: both children
/// agree on their black height, in every subtree.
pub open(crate) spec fn bh_ok(n: Option<Box<Node>>) -> bool
    decreases n,
{
    match n {
        Option::None => true,
        Option::Some(b) => {
            &&& bh(b.left) == bh(b.right)
            &&& bh_ok(b.left)
            &&& bh_ok(b.right)
        },
    }
}

/// The red-black shape invariants together: colour discipline and balanced
/// black height.
pub open(crate) spec fn rb_ok(n: Option<Box<Node>>) -> bool {
    no_red_red(n) && bh_ok(n)
}

/// The in-order reading of a subtree.
pub open(crate) spec fn in_order_of(n: Option<Box<Node>>) -> Seq<i64>
    decreases n,
{
    match n {
        Option::None => Seq::empty(),
        Option::Some(b) => in_order_of(b.left) + seq![b.value] + in_order_of(b.right),
    }
}

/// The pre-order reading of a subtree.
pub open(crate) spec fn pre_order_of(n: Option<Box<Node>>) -> Seq<i64>
    decreases n,
{
    match n {
        Option::None => Seq::empty(),
        Option::Some(b) => seq![b.value] + pre_order_of(b.left) + pre_order_of(b.right),
    }
}

/// The post-order reading of a subtree.
pub open(crate) spec fn post_order_of(n: Option<Box<Node>>) -> Seq<i64>
    decreases n,
{
    match n {
        Option::None => Seq::empty(),
        Option::Some(b) => post_order_of(b.left) + post_order_of(b.right) + seq![b.value],
    }
}

/// The values that sit at depth `d` of a subtree, left to right.
pub open(crate) spec fn level_of(n: Option<Box<Node>>, d: nat) -> Seq<i64>
    decreases n,
{
    match n {
        Option::None => Seq::empty(),
        Option::Some(b) => if d == 0 {
            seq![b.value]
        } else {
            level_of(b.left, (d - 1) as nat) + level_of(b.right, (d - 1) as nat)
        },
    }
}

/// The height of a subtree: the number of levels it holds.
pub open(crate) spec fn height_of(n: Option<Box<Node>>) -> nat
    decreases n,
{
    match n {
        Option::None => 0,
        Option::Some(b) => 1 + if height_of(b.left) >= height_of(b.right) {
            height_of(b.left)
        } else {
            height_of(b.right)
        },
    }
}

/// The breadth-first reading of a subtree: its levels up to `d`, concatenated.
pub open(crate) spec fn levels_upto(n: Option<Box<Node>>, d: nat) -> Seq<i64>
    decreases d,
{
    if d == 0 {
        Seq::empty()
    } else {
        levels_upto(n, (d - 1) as nat) + level_of(n, (d - 1) as nat)
    }
}

/// The breadth-first reading of a whole subtree.
pub open(crate) spec fn bfs_of(n: Option<Box<Node>>) -> Seq<i64> {
    levels_upto(n, height_of(n))
}

/// A strictly ascending sequence.
pub open(crate) spec fn strictly_sorted(s: Seq<i64>) -> bool {
    forall|i: int, j: int| 0 <= i < j < s.len() ==> s[i] < s[j]
}

/// The number of nodes is the number of distinct values: the ordering keeps
/// the two child sets apart, so no value occurs twice.
pub proof fn lemma_size_is_card(n: Option<Box<Node>>)
    requires
        bst_ok(n),
    ensures
        set_of(n).finite(),
        set_of(n).len() == size_of(n),
    decreases n,
{
    match n {
        Option::None => {
            assert(set_of(n) =~= Set::empty());
        },
        Option::Some(b) => {
            lemma_size_is_card(b.left);
            lemma_size_is_card(b.right);
            vstd::set_lib::lemma_set_disjoint_lens(set_of(b.left), set_of(b.right));
            let u = set_of(b.left).union(set_of(b.right));
            assert(!u.contains(b.value));
            assert(u.insert(b.value).len() == u.len() + 1);
        },
    }
}

/// What the in-order reading holds is exactly the subtree's value set.
pub proof fn lemma_in_order_set(n: Option<Box<Node>>)
    ensures
        in_order_of(n).to_set() =~= set_of(n),
        in_order_of(n).len() == size_of(n),
    decreases n,
{
    match n {
        Option::None => {
            assert(in_order_of(n).to_set() =~= Set::empty());
        },
        Option::Some(b) => {
            lemma_in_order_set(b.left);
            lemma_in_order_set(b.right);
            let s = in_order_of(b.left) + seq![b.value] + in_order_of(b.right);
            assert(s.to_set() =~= in_order_of(b.left).to_set().union(
                seq![b.value].to_set(),
            ).union(in_order_of(b.right).to_set())) by {
                vstd::seq_lib::seq_to_set_distributes_over_add(
                    in_order_of(b.left) + seq![b.value],
                    in_order_of(b.right),
                );
                vstd::seq_lib::seq_to_set_distributes_over_add(
                    in_order_of(b.left),
                    seq![b.value],
                );
            }
            lemma_singleton_set(b.value);
        },
    }
}

/// What the pre-order reading holds is exactly the subtree's value set.
pub proof fn lemma_pre_order_set(n: Option<Box<Node>>)
    ensures
        pre_order_of(n).to_set() =~= set_of(n),
        pre_order_of(n).len() == size_of(n),
    decreases n,
{
    match n {
        Option::None => {
            assert(pre_order_of(n).to_set() =~= Set::empty());
        },
        Option::Some(b) => {
            lemma_pre_order_set(b.left);
            lemma_pre_order_set(b.right);
            let s = seq![b.value] + pre_order_of(b.left) + pre_order_of(b.right);
            assert(s.to_set() =~= seq![b.value].to_set().union(
                pre_order_of(b.left).to_set(),
            ).union(pre_order_of(b.right).to_set())) by {
                vstd::seq_lib::seq_to_set_distributes_over_add(
                    seq![b.value] + pre_order_of(b.left),
                    pre_order_of(b.right),
                );
                vstd::seq_lib::seq_to_set_distributes_over_add(
                    seq![b.value],
                    pre_order_of(b.left),
                );
            }
            lemma_singleton_set(b.value);
        },
    }
}

/// What the post-order reading holds is exactly the subtree's value set.
pub proof fn lemma_post_order_set(n: Option<Box<Node>>)
    ensures
        post_order_of(n).to_set() =~= set_of(n),
        post_order_of(n).len() == size_of(n),
    decreases n,
{
    match n {
        Option::None => {
            assert(post_order_of(n).to_set() =~= Set::empty());
        },
        Option::Some(b) => {
            lemma_post_order_set(b.left);
            lemma_post_order_set(b.right);
            let s = post_order_of(b.left) + post_order_of(b.right) + seq![b.value];
            assert(s.to_set() =~= post_order_of(b.left).to_set().union(
                post_order_of(b.right).to_set(),
            ).union(seq![b.value].to_set())) by {
                vstd::seq_lib::seq_to_set_distributes_over_add(
                    post_order_of(b.left) + post_order_of(b.right),
                    seq![b.value],
                );
                vstd::seq_lib::seq_to_set_distributes_over_add(
                    post_order_of(b.left),
                    post_order_of(b.right),
                );
            }
            lemma_singleton_set(b.value);
        },
    }
}

/// A one-value sequence reads as a one-value set.
pub proof fn lemma_singleton_set(v: i64)
    ensures
        seq![v].to_set() =~= Set::empty().insert(v),
{
    assert(seq![v][0] == v);
    assert forall|x: i64| seq![v].to_set().contains(x) implies x == v by {
        let i = choose|i: int| 0 <= i < seq![v].len() && seq![v][i] == x;
        assert(seq![v][i] == x);
    }
}

/// In a binary-search subtree the in-order reading ascends strictly.
pub proof fn lemma_in_order_sorted(n: Option<Box<Node>>)
    requires
        bst_ok(n),
    ensures
        strictly_sorted(in_order_of(n)),
    decreases n,
{
    match n {
        Option::None => {},
        Option::Some(b) => {
            lemma_in_order_sorted(b.left);
            lemma_in_order_sorted(b.right);
            lemma_in_order_set(b.left);
            lemma_in_order_set(b.right);
            let l = in_order_of(b.left);
            let r = in_order_of(b.right);
            let s = l + seq![b.value] + r;
            assert forall|i: int, j: int| 0 <= i < j < s.len() implies s[i] < s[j] by {
                if i < l.len() {
                    assert(l.to_set().contains(l[i]));
                }
                if j > l.len() {
                    assert(r.to_set().contains(r[j - l.len() - 1]));
                }
                if i > l.len() {
                    assert(r.to_set().contains(r[i - l.len() - 1]));
                }
                if j < l.len() {
                    assert(l.to_set().contains(l[j]));
                }
            }
        },
    }
}


/// The left child of a subtree's root.
pub open(crate) spec fn left_of(n: Option<Box<Node>>) -> Option<Box<Node>> {
    match n {
        Option::None => Option::None,
        Option::Some(b) => b.left,
    }
}

/// The right child of a subtree's root.
pub open(crate) spec fn right_of(n: Option<Box<Node>>) -> Option<Box<Node>> {
    match n {
        Option::None => Option::None,
        Option::Some(b) => b.right,
    }
}

/// The value at a subtree's root; reads as zero for an absent subtree.
pub open(crate) spec fn value_of(n: Option<Box<Node>>) -> i64 {
    match n {
        Option::None => 0,
        Option::Some(b) => b.value,
    }
}

/// Unfold every specification function one step at the root of a nonempty
/// subtree: the ground equations that the local rewrites reason with.
pub proof fn open_node(n: Option<Box<Node>>)
    requires
        n is Some,
    ensures
        set_of(n) == set_of(left_of(n)).union(set_of(right_of(n))).insert(value_of(n)),
        size_of(n) == 1 + size_of(left_of(n)) + size_of(right_of(n)),
        bh(n) == bh(left_of(n)) + if red(n) {
            0nat
        } else {
            1nat
        },
        bst_ok(n) <==> ((forall|x: i64|
            set_of(left_of(n)).contains(x) ==> x < value_of(n)) && (forall|x: i64|
            set_of(right_of(n)).contains(x) ==> x > value_of(n)) && bst_ok(left_of(n)) && bst_ok(
            right_of(n),
        )),
        no_red_red(n) <==> ((red(n) ==> !red(left_of(n)) && !red(right_of(n))) && no_red_red(
            left_of(n),
        ) && no_red_red(right_of(n))),
        bh_ok(n) <==> (bh(left_of(n)) == bh(right_of(n)) && bh_ok(left_of(n)) && bh_ok(
            right_of(n),
        )),
{
}

/// The empty subtree, unfolded.
pub proof fn open_leaf()
    ensures
        set_of(Option::None) == Set::<i64>::empty(),
        size_of(Option::None) == 0,
        bh(Option::None) == 0,
        !red(Option::None),
        bst_ok(Option::None::<Box<Node>>),
        no_red_red(Option::None::<Box<Node>>),
        bh_ok(Option::None::<Box<Node>>),
{
}

impl Node {
    /// A sentinel head in the anchor style: a black node holding a default
    /// value, whose left slot carries the actual root, a black node with the
    /// given value.
    pub fn new_fixed_head(value: i64) -> (r: Option<Box<Node>>)
        ensures
            r is Some,
            !red(r),
            set_of(r) == Set::empty().insert(0i64).insert(value),
    {
        let head = Node {
            value: 0,
            is_red: false,
            left: Node::new_black(value),
            right: Option::None,
        };
        let r = Option::Some(Box::new(head));
        proof {
            let e: Option<Box<Node>> = Option::None;
            assert(set_of(e) =~= Set::empty());
            assert(set_of(r) =~= Set::empty().insert(0i64).insert(value));
        }
        r
    }

    /// A fresh black leaf holding the given value.
    pub fn new_black(value: i64) -> (r: Option<Box<Node>>)
        ensures
            r is Some,
            !red(r),
            set_of(r) == Set::empty().insert(value),
            size_of(r) == 1,
            bst_ok(r) && rb_ok(r),
            bh(r) == 1,
            in_order_of(r) == seq![value],
    {
        let n = Node { value, is_red: false, left: Option::None, right: Option::None };
        let r = Option::Some(Box::new(n));
        proof {
            let e: Option<Box<Node>> = Option::None;
            assert(set_of(e) =~= Set::empty());
            assert(in_order_of(e) =~= Seq::empty());
            assert(bst_ok(e) && no_red_red(e) && bh_ok(e) && bh(e) == 0);
            assert(size_of(e) == 0);
            assert(set_of(r) =~= Set::empty().insert(value));
            assert(in_order_of(r) =~= seq![value]);
            assert(bst_ok(r));
            assert(no_red_red(r));
            assert(bh_ok(r));
        }
        r
    }

    /// A fresh red leaf holding the given value.
    pub fn new_red(value: i64) -> (r: Option<Box<Node>>)
        ensures
            r is Some,
            red(r),
            set_of(r) == Set::empty().insert(value),
            size_of(r) == 1,
            bst_ok(r) && rb_ok(r),
            bh(r) == 0,
            in_order_of(r) == seq![value],
    {
        let n = Node { value, is_red: true, left: Option::None, right: Option::None };
        let r = Option::Some(Box::new(n));
        proof {
            let e: Option<Box<Node>> = Option::None;
            assert(set_of(e) =~= Set::empty());
            assert(in_order_of(e) =~= Seq::empty());
            assert(bst_ok(e) && no_red_red(e) && bh_ok(e) && bh(e) == 0);
            assert(size_of(e) == 0);
            assert(set_of(r) =~= Set::empty().insert(value));
            assert(in_order_of(r) =~= seq![value]);
            assert(bst_ok(r));
            assert(no_red_red(r));
            assert(bh_ok(r));
        }
        r
    }
}

} // verus!
