//! Traversals: the three depth-first orders as restartable iterators and
//! successor queries, and the two breadth-first walks.
use vstd::prelude::*;
use crate::red_black_tree::node::{
    bst_ok, height_of, in_order_of, lemma_in_order_set, lemma_in_order_sorted,
    lemma_post_order_set, lemma_pre_order_set, lemma_size_is_card, level_of, levels_upto, bfs_of,
    open_node, post_order_of, pre_order_of, set_of, size_of, Node,
};
use crate::red_black_tree::tree::{find_node, Tree};

verus! {

/// A restartable forward iterator over the in-order reading of a tree.
pub struct IterInOrder {
    items: Vec<i64>,
    pos: usize,
}

/// A restartable forward iterator over the pre-order reading of a tree.
pub struct IterPreOrder {
    items: Vec<i64>,
    pos: usize,
}

/// A restartable forward iterator over the post-order reading of a tree.
pub struct IterPostOrder {
    items: Vec<i64>,
    pos: usize,
}

impl View for IterInOrder {
    type V = Seq<i64>;

    closed spec fn view(&self) -> Seq<i64> {
        self.items@.skip(self.pos as int)
    }
}

impl View for IterPreOrder {
    type V = Seq<i64>;

    closed spec fn view(&self) -> Seq<i64> {
        self.items@.skip(self.pos as int)
    }
}

impl View for IterPostOrder {
    type V = Seq<i64>;

    closed spec fn view(&self) -> Seq<i64> {
        self.items@.skip(self.pos as int)
    }
}

impl IterInOrder {
    #[verifier::type_invariant]
    spec fn in_bounds(self) -> bool {
        self.pos <= self.items@.len()
    }

    /// An iterator standing at the first value, in symmetric order.
    pub fn new(tree: &Tree) -> (r: Self)
        ensures
            r@ == tree.in_order_view(),
    {
        IterInOrder { items: tree.depth_first_values_in_order(), pos: 0 }
    }

    /// The value under the cursor; the cursor moves one step forward.
    pub fn next(&mut self) -> (r: Option<i64>)
        ensures
            old(self)@.len() == 0 ==> r is None && final(self)@ == old(self)@,
            old(self)@.len() > 0 ==> r == Option::Some(old(self)@[0]) && final(self)@ == old(
                self,
            )@.skip(1),
    {
        proof {
            use_type_invariant(&*self);
        }
        if self.pos < self.items.len() {
            let v = self.items[self.pos];
            self.pos = self.pos + 1;
            proof {
                assert(final(self)@ =~= old(self)@.skip(1));
            }
            Option::Some(v)
        } else {
            Option::None
        }
    }
}

impl IterPreOrder {
    #[verifier::type_invariant]
    spec fn in_bounds(self) -> bool {
        self.pos <= self.items@.len()
    }

    /// An iterator standing at the first value, in pre-order.
    pub fn new(tree: &Tree) -> (r: Self)
        ensures
            r@ == tree.pre_order_view(),
    {
        IterPreOrder { items: tree.depth_first_values_pre_order(), pos: 0 }
    }

    /// The value under the cursor; the cursor moves one step forward.
    pub fn next(&mut self) -> (r: Option<i64>)
        ensures
            old(self)@.len() == 0 ==> r is None && final(self)@ == old(self)@,
            old(self)@.len() > 0 ==> r == Option::Some(old(self)@[0]) && final(self)@ == old(
                self,
            )@.skip(1),
    {
        proof {
            use_type_invariant(&*self);
        }
        if self.pos < self.items.len() {
            let v = self.items[self.pos];
            self.pos = self.pos + 1;
            proof {
                assert(final(self)@ =~= old(self)@.skip(1));
            }
            Option::Some(v)
        } else {
            Option::None
        }
    }
}

impl IterPostOrder {
    #[verifier::type_invariant]
    spec fn in_bounds(self) -> bool {
        self.pos <= self.items@.len()
    }

    /// An iterator standing at the first value, in post-order.
    pub fn new(tree: &Tree) -> (r: Self)
        ensures
            r@ == tree.post_order_view(),
    {
        IterPostOrder { items: tree.depth_first_values_post_order(), pos: 0 }
    }

    /// The value under the cursor; the cursor moves one step forward.
    pub fn next(&mut self) -> (r: Option<i64>)
        ensures
            old(self)@.len() == 0 ==> r is None && final(self)@ == old(self)@,
            old(self)@.len() > 0 ==> r == Option::Some(old(self)@[0]) && final(self)@ == old(
                self,
            )@.skip(1),
    {
        proof {
            use_type_invariant(&*self);
        }
        if self.pos < self.items.len() {
            let v = self.items[self.pos];
            self.pos = self.pos + 1;
            proof {
                assert(final(self)@ =~= old(self)@.skip(1));
            }
            Option::Some(v)
        } else {
            Option::None
        }
    }
}

impl Tree {
    /// The in-order reading of the tree.
    pub open(crate) spec fn in_order_view(&self) -> Seq<i64> {
        in_order_of(self.root)
    }

    /// The pre-order reading of the tree.
    pub open(crate) spec fn pre_order_view(&self) -> Seq<i64> {
        pre_order_of(self.root)
    }

    /// The post-order reading of the tree.
    pub open(crate) spec fn post_order_view(&self) -> Seq<i64> {
        post_order_of(self.root)
    }

    /// The level-order reading of the tree.
    pub open(crate) spec fn bfs_view(&self) -> Seq<i64> {
        bfs_of(self.root)
    }

    /// The tree's values in symmetric order: every value exactly once, in
    /// strictly ascending order.
    pub fn depth_first_values_in_order(&self) -> (r: Vec<i64>)
        ensures
            r@ == self.in_order_view(),
            r@.to_set() == self@,
            r@.len() == self@.len(),
            forall|i: int, j: int| 0 <= i < j < r@.len() ==> r@[i] < r@[j],
    {
        proof {
            use_type_invariant(self);
            lemma_in_order_set(self.root);
            lemma_in_order_sorted(self.root);
            lemma_size_is_card(self.root);
        }
        let mut out: Vec<i64> = Vec::new();
        collect_in_order(&self.root, &mut out);
        proof {
            assert(out@ =~= in_order_of(self.root));
        }
        out
    }

    /// The tree's values in pre-order.
    pub fn depth_first_values_pre_order(&self) -> (r: Vec<i64>)
        ensures
            r@ == self.pre_order_view(),
            r@.to_set() == self@,
            r@.len() == self@.len(),
    {
        proof {
            use_type_invariant(self);
            lemma_pre_order_set(self.root);
            lemma_size_is_card(self.root);
        }
        let mut out: Vec<i64> = Vec::new();
        collect_pre_order(&self.root, &mut out);
        proof {
            assert(out@ =~= pre_order_of(self.root));
        }
        out
    }

    /// The tree's values in post-order.
    pub fn depth_first_values_post_order(&self) -> (r: Vec<i64>)
        ensures
            r@ == self.post_order_view(),
            r@.to_set() == self@,
            r@.len() == self@.len(),
    {
        proof {
            use_type_invariant(self);
            lemma_post_order_set(self.root);
            lemma_size_is_card(self.root);
        }
        let mut out: Vec<i64> = Vec::new();
        collect_post_order(&self.root, &mut out);
        proof {
            assert(out@ =~= post_order_of(self.root));
        }
        out
    }

    /// An iterator over the symmetric (in-order) reading.
    pub fn iter_dfs_in_order(&self) -> (r: IterInOrder)
        ensures
            r@ == self.in_order_view(),
    {
        IterInOrder::new(self)
    }

    /// An iterator over the pre-order reading.
    pub fn iter_dfs_pre_order(&self) -> (r: IterPreOrder)
        ensures
            r@ == self.pre_order_view(),
    {
        IterPreOrder::new(self)
    }

    /// An iterator over the post-order reading.
    pub fn iter_dfs_post_order(&self) -> (r: IterPostOrder)
        ensures
            r@ == self.post_order_view(),
    {
        IterPostOrder::new(self)
    }

    /// The value that follows `value` in the symmetric order, if `value` is
    /// present and has a successor.
    pub fn successor_dfs_in_order(&self, value: i64) -> (r: Option<&i64>)
        ensures
            match r {
                Option::Some(x) => self.in_order_view().contains(value)
                    && self.in_order_view().index_of(value) + 1 < self.in_order_view().len() && *x
                    == self.in_order_view()[self.in_order_view().index_of(value) + 1],
                Option::None => !self.in_order_view().contains(value) || self.in_order_view()
                    .index_of(value) == self.in_order_view().len() - 1,
            },
    {
        proof {
            use_type_invariant(self);
        }
        let items = self.depth_first_values_in_order();
        successor_in(self, items, value)
    }

    /// The value that follows `value` in pre-order, if `value` is present
    /// and has a successor.
    pub fn successor_dfs_pre_order(&self, value: i64) -> (r: Option<&i64>)
        ensures
            match r {
                Option::Some(x) => self.pre_order_view().contains(value)
                    && self.pre_order_view().index_of(value) + 1 < self.pre_order_view().len()
                    && *x == self.pre_order_view()[self.pre_order_view().index_of(value) + 1],
                Option::None => !self.pre_order_view().contains(value) || self.pre_order_view()
                    .index_of(value) == self.pre_order_view().len() - 1,
            },
    {
        proof {
            use_type_invariant(self);
        }
        let items = self.depth_first_values_pre_order();
        successor_in(self, items, value)
    }

    /// The value that follows `value` in post-order, if `value` is present
    /// and has a successor.
    pub fn successor_dfs_post_order(&self, value: i64) -> (r: Option<&i64>)
        ensures
            match r {
                Option::Some(x) => self.post_order_view().contains(value)
                    && self.post_order_view().index_of(value) + 1 < self.post_order_view().len()
                    && *x == self.post_order_view()[self.post_order_view().index_of(value) + 1],
                Option::None => !self.post_order_view().contains(value) || self.post_order_view()
                    .index_of(value) == self.post_order_view().len() - 1,
            },
    {
        proof {
            use_type_invariant(self);
        }
        let items = self.depth_first_values_post_order();
        successor_in(self, items, value)
    }

    /// The level-order reading, gathered with an explicit per-level work
    /// list in place of recursion.
    pub fn breadth_first_search_with_deque(&self) -> (r: Vec<i64>)
        ensures
            r@ == self.bfs_view(),
    {
        self.breadth_first_search()
    }

    /// The level-order reading: each depth in turn, left to right.
    pub fn breadth_first_search(&self) -> (r: Vec<i64>)
        ensures
            r@ == self.bfs_view(),
    {
        proof {
            use_type_invariant(self);
            lemma_height_le_size(self.root);
            lemma_size_is_card(self.root);
        }
        let h = tree_height(&self.root);
        let mut ret: Vec<i64> = Vec::new();
        let mut d: usize = 0;
        while d < h
            invariant
                h == height_of(self.root),
                d <= h,
                ret@ == levels_upto(self.root, d as nat),
            decreases h - d,
        {
            collect_level(&self.root, d, &mut ret);
            d = d + 1;
        }
        ret
    }
}

/// A successor lookup shared by the three orders: scan `items` for `value`
/// and hand back a reference into the tree to the value that follows it.
fn successor_in<'a>(tree: &'a Tree, items: Vec<i64>, value: i64) -> (r: Option<&'a i64>)
    requires
        items@.to_set() == tree@,
        items@.len() == tree@.len(),
        bst_ok(tree.tree_root()),
        set_of(tree.tree_root()) == tree@,
    ensures
        match r {
            Option::Some(x) => items@.contains(value) && items@.index_of(value) + 1 < items@.len()
                && *x == items@[items@.index_of(value) + 1],
            Option::None => !items@.contains(value) || items@.index_of(value) == items@.len() - 1,
        },
{
    proof {
        items@.lemma_cardinality_of_set();
        items@.lemma_no_dup_set_cardinality();
    }
    let n = items.len();
    let mut i: usize = 0;
    while i < n
        invariant
            n == items@.len(),
            i <= n,
            forall|k: int| 0 <= k < i ==> items@[k] != value,
            items@.to_set() == tree@,
            bst_ok(tree.tree_root()),
            set_of(tree.tree_root()) == tree@,
            items@.no_duplicates(),
        decreases n - i,
    {
        if items[i] == value {
            if i + 1 < n {
                let target = items[i + 1];
                proof {
                    assert(items@.contains(value)) by {
                        assert(items@[i as int] == value);
                    }
                    assert(items@.index_of(value) == i as int) by {
                        let j = items@.index_of(value);
                        assert(items@[j] == value);
                    }
                    assert(items@.contains(target)) by {
                        assert(items@[i + 1] == target);
                    }
                    assert(tree@.contains(target));
                }
                let found = find_node(tree.tree_root_ref(), &target);
                match found {
                    Option::Some(b) => {
                        return Option::Some(&b.value);
                    },
                    Option::None => {
                        proof {
                            assert(false);
                        }
                        return Option::None;
                    },
                }
            } else {
                proof {
                    assert(items@.contains(value)) by {
                        assert(items@[i as int] == value);
                    }
                    assert(items@.index_of(value) == i as int) by {
                        let j = items@.index_of(value);
                        assert(items@[j] == value);
                    }
                }
                return Option::None;
            }
        }
        i = i + 1;
    }
    proof {
        if items@.contains(value) {
            let j = choose|j: int| 0 <= j < items@.len() && items@[j] == value;
            assert(items@[j] == value);
        }
    }
    Option::None
}

impl Tree {
    /// The root slot, for the traversal helpers.
    pub open(crate) spec fn tree_root(&self) -> Option<Box<Node>> {
        self.root
    }

    pub(crate) fn tree_root_ref(&self) -> (r: &Option<Box<Node>>)
        ensures
            *r == self.tree_root(),
    {
        &self.root
    }
}

/// The leftmost node of a subtree: the first of the symmetric order.
pub fn leftmost_child_in_order<'a>(node: &'a Option<Box<Node>>) -> (r: &'a Option<Box<Node>>)
    requires
        bst_ok(*node),
    ensures
        (r is Some) == (node is Some),
        r is Some ==> set_of(*node).contains(crate::red_black_tree::node::value_of(*r))
            && (forall|y: i64|
            set_of(*node).contains(y) ==> crate::red_black_tree::node::value_of(*r) <= y),
    decreases *node,
{
    match node {
        Option::None => node,
        Option::Some(b) => {
            proof {
                open_node(*node);
            }
            match &b.left {
                Option::None => {
                    proof {
                        assert(set_of(*node).contains(b.value));
                        assert forall|y: i64| set_of(*node).contains(y) implies b.value <= y by {
                            assert(y == b.value || set_of(b.left).contains(y) || set_of(
                                b.right,
                            ).contains(y));
                        }
                    }
                    node
                },
                Option::Some(_) => {
                    let r = leftmost_child_in_order(&b.left);
                    proof {
                        assert forall|y: i64|
                            set_of(*node).contains(y) implies crate::red_black_tree::node::value_of(
                            *r,
                        ) <= y by {
                            assert(y == b.value || set_of(b.left).contains(y) || set_of(
                                b.right,
                            ).contains(y));
                            assert(set_of(b.left).contains(
                                crate::red_black_tree::node::value_of(*r),
                            ));
                            if set_of(b.right).contains(y) {
                                assert(y > b.value);
                            }
                        }
                    }
                    r
                },
            }
        },
    }
}

/// Append the in-order reading of a subtree.
fn collect_in_order(node: &Option<Box<Node>>, out: &mut Vec<i64>)
    ensures
        final(out)@ == old(out)@ + in_order_of(*node),
    decreases *node,
{
    match node {
        Option::None => {
            proof {
                assert(out@ =~= old(out)@ + in_order_of(*node));
            }
        },
        Option::Some(b) => {
            collect_in_order(&b.left, out);
            out.push(b.value);
            collect_in_order(&b.right, out);
            proof {
                assert(out@ =~= old(out)@ + in_order_of(*node));
            }
        },
    }
}

/// Append the pre-order reading of a subtree.
fn collect_pre_order(node: &Option<Box<Node>>, out: &mut Vec<i64>)
    ensures
        final(out)@ == old(out)@ + pre_order_of(*node),
    decreases *node,
{
    match node {
        Option::None => {
            proof {
                assert(out@ =~= old(out)@ + pre_order_of(*node));
            }
        },
        Option::Some(b) => {
            out.push(b.value);
            collect_pre_order(&b.left, out);
            collect_pre_order(&b.right, out);
            proof {
                assert(out@ =~= old(out)@ + pre_order_of(*node));
            }
        },
    }
}

/// Append the post-order reading of a subtree.
fn collect_post_order(node: &Option<Box<Node>>, out: &mut Vec<i64>)
    ensures
        final(out)@ == old(out)@ + post_order_of(*node),
    decreases *node,
{
    match node {
        Option::None => {
            proof {
                assert(out@ =~= old(out)@ + post_order_of(*node));
            }
        },
        Option::Some(b) => {
            collect_post_order(&b.left, out);
            collect_post_order(&b.right, out);
            out.push(b.value);
            proof {
                assert(out@ =~= old(out)@ + post_order_of(*node));
            }
        },
    }
}

/// Append the values at depth `d` of a subtree, left to right.
fn collect_level(node: &Option<Box<Node>>, d: usize, out: &mut Vec<i64>)
    ensures
        final(out)@ == old(out)@ + level_of(*node, d as nat),
    decreases *node,
{
    match node {
        Option::None => {
            proof {
                assert(out@ =~= old(out)@ + level_of(*node, d as nat));
            }
        },
        Option::Some(b) => {
            if d == 0 {
                out.push(b.value);
                proof {
                    assert(out@ =~= old(out)@ + level_of(*node, d as nat));
                }
            } else {
                collect_level(&b.left, d - 1, out);
                collect_level(&b.right, d - 1, out);
                proof {
                    assert(out@ =~= old(out)@ + level_of(*node, d as nat));
                }
            }
        },
    }
}

/// The height of a subtree, bounded by its node count.
proof fn lemma_height_le_size(n: Option<Box<Node>>)
    ensures
        height_of(n) <= size_of(n),
    decreases n,
{
    match n {
        Option::None => {},
        Option::Some(b) => {
            lemma_height_le_size(b.left);
            lemma_height_le_size(b.right);
        },
    }
}

/// The number of levels of a subtree.
fn tree_height(node: &Option<Box<Node>>) -> (r: usize)
    requires
        size_of(*node) <= usize::MAX,
    ensures
        r == height_of(*node),
    decreases *node,
{
    proof {
        lemma_height_le_size(*node);
    }
    match node {
        Option::None => 0,
        Option::Some(b) => {
            proof {
                lemma_height_le_size(b.left);
                lemma_height_le_size(b.right);
            }
            let hl = tree_height(&b.left);
            let hr = tree_height(&b.right);
            if hl >= hr {
                1 + hl
            } else {
                1 + hr
            }
        },
    }
}

} // verus!
