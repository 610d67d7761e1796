//! Deletion: classify the node to remove — a red leaf goes at once, a black
//! node with a red leaf hands its value down, an inner node swaps values
//! with its in-order successor — and for the black-leaf case resolve the
//! black-height deficiency case by case, climbing while both the parent and
//! the sibling's family are black.
use vstd::prelude::*;
use crate::red_black_tree::node::{
    bh, bh_ok, bst_ok, no_red_red, open_node, red, set_of, size_of, Node,
};

verus! {

/// The four classes of a node about to be removed.
pub(crate) enum OperationRemove {
    RedLeaf,
    BlackLeaf,
    NodeWithChildren,
    BlackNodeWithRedLeaf,
}

/// Classify a node for removal.  Under the tree's invariants every node
/// falls into exactly one of the four classes: a lone child of a black node
/// can only be a red leaf.
pub(crate) fn operation_remove(x: &Box<Node>) -> (op: OperationRemove)
    ensures
        op is RedLeaf <==> (x.is_red && x.left is None && x.right is None),
        op is BlackLeaf <==> (!x.is_red && x.left is None && x.right is None),
        op is NodeWithChildren <==> (x.left is Some && x.right is Some),
        op is BlackNodeWithRedLeaf <==> ((x.left is Some) != (x.right is Some)),
{
    match (&x.left, &x.right) {
        (Option::None, Option::None) => {
            if x.is_red {
                OperationRemove::RedLeaf
            } else {
                OperationRemove::BlackLeaf
            }
        },
        (Option::Some(_), Option::Some(_)) => OperationRemove::NodeWithChildren,
        _ => OperationRemove::BlackNodeWithRedLeaf,
    }
}

/// What a deficiency fixer starts from: the left subtree is one black level
/// short of its sibling, both are internally sound, and a deficient subtree
/// never has a red root.
pub open(crate) spec fn left_deficit_pre(x: Box<Node>) -> bool {
    &&& bst_ok(Option::Some(x))
    &&& no_red_red(x.left)
    &&& bh_ok(x.left)
    &&& !red(x.left)
    &&& no_red_red(x.right)
    &&& bh_ok(x.right)
    &&& (x.is_red ==> !red(x.right))
    &&& bh(x.left) + 1 == bh(x.right)
}

pub open(crate) spec fn right_deficit_pre(x: Box<Node>) -> bool {
    &&& bst_ok(Option::Some(x))
    &&& no_red_red(x.right)
    &&& bh_ok(x.right)
    &&& !red(x.right)
    &&& no_red_red(x.left)
    &&& bh_ok(x.left)
    &&& (x.is_red ==> !red(x.left))
    &&& bh(x.right) + 1 == bh(x.left)
}

/// What every deficiency fixer gives back: the same values, a sound
/// subtree, and either the full target black height, or — only below a
/// black parent — one short, with a black root, to climb further.
pub open(crate) spec fn deficit_post(x: Box<Node>, r: (Box<Node>, bool), target: nat) -> bool {
    &&& set_of(Option::Some(r.0)) == set_of(Option::Some(x))
    &&& size_of(Option::Some(r.0)) == size_of(Option::Some(x))
    &&& bst_ok(Option::Some(r.0))
    &&& no_red_red(Option::Some(r.0))
    &&& bh_ok(Option::Some(r.0))
    &&& (red(Option::Some(r.0)) ==> x.is_red)
    &&& (!r.1 ==> bh(Option::Some(r.0)) == target)
    &&& (r.1 ==> !x.is_red && !r.0.is_red && bh(Option::Some(r.0)) + 1 == target)
}

/// Resolve a left-side deficiency at `x` when the sibling is black: the
/// terminal rotation or recolouring cases of the resolution table, and the
/// one climbing case.
#[verifier::rlimit(100)]
fn fix_left_black_sibling(x: Box<Node>) -> (r: (Box<Node>, bool))
    requires
        left_deficit_pre(x),
        x.right is Some,
        !red(x.right),
    ensures
        deficit_post(x, r, (bh(x.right) + if x.is_red { 0nat } else { 1nat }) as nat),
{
    let ghost x0 = x;
    let mut node = x;
    proof {
        open_node(Option::Some(x0));
        open_node(x0.right);
    }
    let mut b = node.right.take().unwrap();
    let ghost b0 = b;
    let b_left_red = match &b.left {
        Option::Some(m) => m.is_red,
        Option::None => false,
    };
    let b_right_red = match &b.right {
        Option::Some(d) => d.is_red,
        Option::None => false,
    };
    if b_right_red {
        // Far red nephew: rotate left at this node; the sibling takes the
        // parent's colour, the nephew turns black.
        let mut d = b.right.take().unwrap();
        let ghost d0 = d;
        d.is_red = false;
        b.right = Option::Some(d);
        node.right = b.left.take();
        b.is_red = node.is_red;
        node.is_red = false;
        b.left = Option::Some(node);
        proof {
            open_node(b0.right);
            open_node(Option::Some(b));
            open_node(b.left);
            open_node(b.right);
            assert forall|y: i64| set_of(b0.left).contains(y) implies y > x0.value
                && y < b0.value by {
                assert(set_of(Option::Some(b0)).contains(y));
                assert(set_of(x0.right).contains(y));
            }
            assert(set_of(x0.right).contains(b0.value));
            assert(x0.value < b0.value);
            assert(set_of(Option::Some(b)) =~= set_of(Option::Some(x0)));
            assert(bst_ok(b.left)) by {
                assert forall|y: i64| set_of(x0.left).contains(y) implies y < x0.value by {}
            }
            assert(bst_ok(Option::Some(b))) by {
                assert forall|y: i64| set_of(b.left).contains(y) implies y < b0.value by {
                    assert(y == x0.value || set_of(x0.left).contains(y) || set_of(
                        b0.left,
                    ).contains(y));
                }
                assert forall|y: i64| set_of(b.right).contains(y) implies y > b0.value by {
                    assert(set_of(b0.right).contains(y));
                }
            }
        }
        (b, false)
    } else if b_left_red {
        // Near red nephew: double rotation; the nephew comes to the top
        // with the parent's colour.
        let mut m = b.left.take().unwrap();
        let ghost m0 = m;
        b.left = m.right.take();
        node.right = m.left.take();
        m.is_red = node.is_red;
        node.is_red = false;
        m.left = Option::Some(node);
        m.right = Option::Some(b);
        proof {
            open_node(b0.left);
            open_node(Option::Some(m));
            open_node(m.left);
            open_node(m.right);
            assert forall|y: i64| set_of(Option::Some(m0)).contains(y) implies y > x0.value
                && y < b0.value by {
                assert(set_of(b0.left).contains(y));
                assert(set_of(Option::Some(b0)).contains(y));
                assert(set_of(x0.right).contains(y));
            }
            assert(set_of(x0.right).contains(b0.value));
            assert(set_of(b0.left).contains(m0.value));
            assert(set_of(Option::Some(m0)).contains(m0.value));
            assert(x0.value < m0.value && m0.value < b0.value);
            assert(set_of(Option::Some(m)) =~= set_of(Option::Some(x0)));
            assert(bst_ok(m.left)) by {
                assert forall|y: i64| set_of(m0.left).contains(y) implies y > x0.value by {
                    assert(set_of(Option::Some(m0)).contains(y));
                }
            }
            assert(bst_ok(m.right)) by {
                assert forall|y: i64| set_of(m0.right).contains(y) implies y < b0.value by {
                    assert(set_of(Option::Some(m0)).contains(y));
                }
            }
            assert(bst_ok(Option::Some(m))) by {
                assert forall|y: i64| set_of(m.left).contains(y) implies y < m0.value by {
                    assert(y == x0.value || set_of(x0.left).contains(y) || set_of(
                        m0.left,
                    ).contains(y));
                }
                assert forall|y: i64| set_of(m.right).contains(y) implies y > m0.value by {
                    assert(y == b0.value || set_of(m0.right).contains(y) || set_of(
                        b0.right,
                    ).contains(y));
                }
            }
        }
        (m, false)
    } else {
        // No red nephew: recolour the sibling red.  A red parent turns
        // black and settles the height; a black parent passes the
        // deficiency one level up.
        b.is_red = true;
        node.right = Option::Some(b);
        proof {
            open_node(Option::Some(node));
            open_node(node.right);
            assert(set_of(Option::Some(node)) =~= set_of(Option::Some(x0)));
            assert(bst_ok(Option::Some(node)));
        }
        if node.is_red {
            node.is_red = false;
            (node, false)
        } else {
            (node, true)
        }
    }
}

/// Mirror of `fix_left_black_sibling` for a right-side deficiency.
#[verifier::rlimit(100)]
fn fix_right_black_sibling(x: Box<Node>) -> (r: (Box<Node>, bool))
    requires
        right_deficit_pre(x),
        x.left is Some,
        !red(x.left),
    ensures
        deficit_post(x, r, (bh(x.left) + if x.is_red { 0nat } else { 1nat }) as nat),
{
    let ghost x0 = x;
    let mut node = x;
    proof {
        open_node(Option::Some(x0));
        open_node(x0.left);
    }
    let mut b = node.left.take().unwrap();
    let ghost b0 = b;
    let b_left_red = match &b.left {
        Option::Some(d) => d.is_red,
        Option::None => false,
    };
    let b_right_red = match &b.right {
        Option::Some(m) => m.is_red,
        Option::None => false,
    };
    if b_left_red {
        // Far red nephew on the left: rotate right at this node.
        let mut d = b.left.take().unwrap();
        let ghost d0 = d;
        d.is_red = false;
        b.left = Option::Some(d);
        node.left = b.right.take();
        b.is_red = node.is_red;
        node.is_red = false;
        b.right = Option::Some(node);
        proof {
            open_node(b0.left);
            open_node(Option::Some(b));
            open_node(b.left);
            open_node(b.right);
            assert forall|y: i64| set_of(b0.right).contains(y) implies y < x0.value
                && y > b0.value by {
                assert(set_of(Option::Some(b0)).contains(y));
                assert(set_of(x0.left).contains(y));
            }
            assert(set_of(x0.left).contains(b0.value));
            assert(x0.value > b0.value);
            assert(set_of(Option::Some(b)) =~= set_of(Option::Some(x0)));
            assert(bst_ok(b.right)) by {
                assert forall|y: i64| set_of(x0.right).contains(y) implies y > x0.value by {}
            }
            assert(bst_ok(Option::Some(b))) by {
                assert forall|y: i64| set_of(b.right).contains(y) implies y > b0.value by {
                    assert(y == x0.value || set_of(x0.right).contains(y) || set_of(
                        b0.right,
                    ).contains(y));
                }
                assert forall|y: i64| set_of(b.left).contains(y) implies y < b0.value by {
                    assert(set_of(b0.left).contains(y));
                }
            }
        }
        (b, false)
    } else if b_right_red {
        // Near red nephew: double rotation through the nephew.
        let mut m = b.right.take().unwrap();
        let ghost m0 = m;
        b.right = m.left.take();
        node.left = m.right.take();
        m.is_red = node.is_red;
        node.is_red = false;
        m.right = Option::Some(node);
        m.left = Option::Some(b);
        proof {
            open_node(b0.right);
            open_node(Option::Some(m));
            open_node(m.left);
            open_node(m.right);
            assert forall|y: i64| set_of(Option::Some(m0)).contains(y) implies y < x0.value
                && y > b0.value by {
                assert(set_of(b0.right).contains(y));
                assert(set_of(Option::Some(b0)).contains(y));
                assert(set_of(x0.left).contains(y));
            }
            assert(set_of(x0.left).contains(b0.value));
            assert(set_of(b0.right).contains(m0.value));
            assert(set_of(Option::Some(m0)).contains(m0.value));
            assert(x0.value > m0.value && m0.value > b0.value);
            assert(set_of(Option::Some(m)) =~= set_of(Option::Some(x0)));
            assert(bst_ok(m.right)) by {
                assert forall|y: i64| set_of(m0.right).contains(y) implies y < x0.value by {
                    assert(set_of(Option::Some(m0)).contains(y));
                }
            }
            assert(bst_ok(m.left)) by {
                assert forall|y: i64| set_of(m0.left).contains(y) implies y > b0.value by {
                    assert(set_of(Option::Some(m0)).contains(y));
                }
            }
            assert(bst_ok(Option::Some(m))) by {
                assert forall|y: i64| set_of(m.right).contains(y) implies y > m0.value by {
                    assert(y == x0.value || set_of(x0.right).contains(y) || set_of(
                        m0.right,
                    ).contains(y));
                }
                assert forall|y: i64| set_of(m.left).contains(y) implies y < m0.value by {
                    assert(y == b0.value || set_of(m0.left).contains(y) || set_of(
                        b0.left,
                    ).contains(y));
                }
            }
        }
        (m, false)
    } else {
        b.is_red = true;
        node.left = Option::Some(b);
        proof {
            open_node(Option::Some(node));
            open_node(node.left);
            assert(set_of(Option::Some(node)) =~= set_of(Option::Some(x0)));
            assert(bst_ok(Option::Some(node)));
        }
        if node.is_red {
            node.is_red = false;
            (node, false)
        } else {
            (node, true)
        }
    }
}

/// Resolve a left-side deficiency at `x`.  A red sibling is first rotated
/// up — it turns black, the parent red — and the remaining black-sibling
/// configuration, now under a red parent, settles at once.
#[verifier::rlimit(100)]
fn fix_left_deficit(x: Box<Node>) -> (r: (Box<Node>, bool))
    requires
        left_deficit_pre(x),
    ensures
        deficit_post(x, r, (bh(x.right) + if x.is_red { 0nat } else { 1nat }) as nat),
{
    let ghost x0 = x;
    let mut node = x;
    proof {
        open_node(Option::Some(x0));
        if node.right is None {
            crate::red_black_tree::node::open_leaf();
        }
        assert(node.right is Some);
        open_node(x0.right);
    }
    let sibling_red = match &node.right {
        Option::Some(b) => b.is_red,
        Option::None => false,
    };
    if sibling_red {
        let mut b = node.right.take().unwrap();
        let ghost b0 = b;
        node.right = b.left.take();
        node.is_red = true;
        let ghost mid = node;
        proof {
            open_node(b0.left);
            assert forall|y: i64| set_of(b0.left).contains(y) implies y > x0.value
                && y < b0.value by {
                assert(set_of(Option::Some(b0)).contains(y));
                assert(set_of(x0.right).contains(y));
            }
            assert(bst_ok(Option::Some(mid))) by {
                assert forall|y: i64| set_of(mid.right).contains(y) implies y > x0.value by {
                    assert(set_of(b0.left).contains(y));
                }
            }
            assert(left_deficit_pre(mid));
        }
        let (fixed, _still) = fix_left_black_sibling(node);
        b.is_red = false;
        b.left = Option::Some(fixed);
        proof {
            open_node(Option::Some(b));
            open_node(b.left);
            assert(set_of(x0.right).contains(b0.value));
            assert(set_of(Option::Some(b)) =~= set_of(Option::Some(x0)));
            assert(bst_ok(Option::Some(b))) by {
                assert forall|y: i64| set_of(b.left).contains(y) implies y < b0.value by {
                    assert(set_of(Option::Some(mid)).contains(y));
                    assert(y == x0.value || set_of(x0.left).contains(y) || set_of(
                        b0.left,
                    ).contains(y));
                }
                assert forall|y: i64| set_of(b.right).contains(y) implies y > b0.value by {
                    assert(set_of(Option::Some(b0)).contains(y));
                    assert(set_of(x0.right).contains(y));
                }
            }
        }
        (b, false)
    } else {
        fix_left_black_sibling(node)
    }
}

/// Mirror of `fix_left_deficit` for a right-side deficiency.
#[verifier::rlimit(100)]
fn fix_right_deficit(x: Box<Node>) -> (r: (Box<Node>, bool))
    requires
        right_deficit_pre(x),
    ensures
        deficit_post(x, r, (bh(x.left) + if x.is_red { 0nat } else { 1nat }) as nat),
{
    let ghost x0 = x;
    let mut node = x;
    proof {
        open_node(Option::Some(x0));
        if node.left is None {
            crate::red_black_tree::node::open_leaf();
        }
        assert(node.left is Some);
        open_node(x0.left);
    }
    let sibling_red = match &node.left {
        Option::Some(b) => b.is_red,
        Option::None => false,
    };
    if sibling_red {
        let mut b = node.left.take().unwrap();
        let ghost b0 = b;
        node.left = b.right.take();
        node.is_red = true;
        let ghost mid = node;
        proof {
            open_node(b0.right);
            assert forall|y: i64| set_of(b0.right).contains(y) implies y < x0.value
                && y > b0.value by {
                assert(set_of(Option::Some(b0)).contains(y));
                assert(set_of(x0.left).contains(y));
            }
            assert(bst_ok(Option::Some(mid))) by {
                assert forall|y: i64| set_of(mid.left).contains(y) implies y < x0.value by {
                    assert(set_of(b0.right).contains(y));
                }
            }
            assert(right_deficit_pre(mid));
        }
        let (fixed, _still) = fix_right_black_sibling(node);
        b.is_red = false;
        b.right = Option::Some(fixed);
        proof {
            open_node(Option::Some(b));
            open_node(b.right);
            assert(set_of(x0.left).contains(b0.value));
            assert(set_of(Option::Some(b)) =~= set_of(Option::Some(x0)));
            assert(bst_ok(Option::Some(b))) by {
                assert forall|y: i64| set_of(b.right).contains(y) implies y > b0.value by {
                    assert(set_of(Option::Some(mid)).contains(y));
                    assert(y == x0.value || set_of(x0.right).contains(y) || set_of(
                        b0.right,
                    ).contains(y));
                }
                assert forall|y: i64| set_of(b.left).contains(y) implies y < b0.value by {
                    assert(set_of(Option::Some(b0)).contains(y));
                    assert(set_of(x0.left).contains(y));
                }
            }
        }
        (b, false)
    } else {
        fix_right_black_sibling(node)
    }
}

/// Detach the smallest value of a nonempty subtree — the in-order successor
/// seen from the parent that swaps with it — and rebalance on the way out.
#[verifier::rlimit(100)]
pub(crate) fn pop_min(x: Box<Node>) -> (r: (Option<Box<Node>>, i64, bool))
    requires
        bst_ok(Option::Some(x)),
        no_red_red(Option::Some(x)),
        bh_ok(Option::Some(x)),
    ensures
        set_of(Option::Some(x)).contains(r.1),
        forall|y: i64| set_of(Option::Some(x)).contains(y) ==> r.1 <= y,
        set_of(r.0) == set_of(Option::Some(x)).remove(r.1),
        size_of(r.0) + 1 == size_of(Option::Some(x)),
        bst_ok(r.0),
        no_red_red(r.0),
        bh_ok(r.0),
        red(r.0) ==> red(Option::Some(x)),
        r.2 ==> !red(r.0) && !x.is_red && bh(r.0) + 1 == bh(Option::Some(x)),
        !r.2 ==> bh(r.0) == bh(Option::Some(x)),
    decreases x,
{
    let ghost x0 = x;
    let mut node = x;
    proof {
        open_node(Option::Some(x0));
    }
    let taken = node.left.take();
    match taken {
        Option::None => {
            let min = node.value;
            let right_taken = node.right.take();
            match right_taken {
                Option::Some(rc) => {
                    // A black node whose lone child is a red leaf: the
                    // leaf's value moves up and the leaf goes.
                    let ghost rc0 = rc;
                    proof {
                        open_node(x0.right);
                        assert(rc0.is_red && rc0.left is None && rc0.right is None) by {
                            if rc0.left is Some {
                                open_node(rc0.left);
                            }
                            if rc0.right is Some {
                                open_node(rc0.right);
                            }
                        }
                        assert(!node.is_red);
                    }
                    node.value = rc.value;
                    let r0 = Option::Some(node);
                    proof {
                        open_node(r0);
                        assert(set_of(x0.right).contains(rc0.value));
                        assert(set_of(r0) =~= set_of(Option::Some(x0)).remove(min));
                    }
                    (r0, min, false)
                },
                Option::None => {
                    proof {
                        assert(set_of(Option::None::<Box<Node>>) =~= set_of(
                            Option::Some(x0),
                        ).remove(min));
                    }
                    if node.is_red {
                        (Option::None, min, false)
                    } else {
                        (Option::None, min, true)
                    }
                },
            }
        },
        Option::Some(lb) => {
            let ghost old_lb = lb;
            let (rest, min, def) = pop_min(lb);
            node.left = rest;
            proof {
                open_node(Option::Some(node));
                assert(set_of(Option::Some(old_lb)).contains(min));
                assert(set_of(x0.left).contains(min));
                assert(set_of(Option::Some(node)) =~= set_of(Option::Some(x0)).remove(min));
                assert forall|y: i64| set_of(Option::Some(x0)).contains(y) implies min <= y by {
                    assert(y == x0.value || set_of(x0.left).contains(y) || set_of(
                        x0.right,
                    ).contains(y));
                    if set_of(x0.right).contains(y) {
                        assert(y > x0.value && x0.value > min);
                    }
                }
                assert(bst_ok(Option::Some(node))) by {
                    assert forall|y: i64| set_of(node.left).contains(y) implies y
                        < x0.value by {
                        assert(set_of(x0.left).contains(y));
                    }
                }
            }
            if def {
                proof {
                    assert(left_deficit_pre(node));
                }
                let (fixed, still) = fix_left_deficit(node);
                (Option::Some(fixed), min, still)
            } else {
                (Option::Some(node), min, false)
            }
        },
    }
}

/// Remove `v` from a subtree: search for it, classify the node found, and
/// resolve any black-height deficiency on the way back up.  An absent value
/// leaves the subtree untouched.
#[verifier::rlimit(100)]
pub(crate) fn remove_node(n: Option<Box<Node>>, v: i64) -> (r: (Option<Box<Node>>, bool, bool))
    requires
        bst_ok(n),
        no_red_red(n),
        bh_ok(n),
    ensures
        set_of(r.0) == set_of(n).remove(v),
        r.1 == set_of(n).contains(v),
        size_of(r.0) + if r.1 {
            1int
        } else {
            0int
        } == size_of(n),
        bst_ok(r.0),
        no_red_red(r.0),
        bh_ok(r.0),
        red(r.0) ==> red(n),
        !r.1 ==> r.0 == n && !r.2,
        r.2 ==> !red(r.0) && !red(n) && bh(r.0) + 1 == bh(n),
        !r.2 ==> bh(r.0) == bh(n),
    decreases n,
{
    let ghost n0 = n;
    match n {
        Option::None => {
            proof {
                assert(set_of(n0).remove(v) =~= set_of(n0));
            }
            (Option::None, false, false)
        },
        Option::Some(x) => {
            let ghost x0 = x;
            let mut node = x;
            proof {
                open_node(n0);
            }
            if v < node.value {
                let taken = node.left.take();
                let (nl, found, def) = remove_node(taken, v);
                node.left = nl;
                proof {
                    open_node(Option::Some(node));
                    assert(set_of(Option::Some(node)) =~= set_of(n0).remove(v)) by {
                        if set_of(x0.right).contains(v) {
                            assert(v > x0.value);
                        }
                    }
                    if set_of(n0).contains(v) {
                        assert(set_of(x0.left).contains(v) || v == x0.value || set_of(
                            x0.right,
                        ).contains(v));
                    }
                    if !found {
                        assert(node == x0);
                    }
                    assert(bst_ok(Option::Some(node))) by {
                        assert forall|y: i64| set_of(node.left).contains(y) implies y
                            < x0.value by {
                            assert(set_of(x0.left).contains(y));
                        }
                    }
                }
                if def {
                    proof {
                        assert(left_deficit_pre(node));
                    }
                    let (fixed, still) = fix_left_deficit(node);
                    (Option::Some(fixed), true, still)
                } else {
                    (Option::Some(node), found, false)
                }
            } else if v > node.value {
                let taken = node.right.take();
                let (nr, found, def) = remove_node(taken, v);
                node.right = nr;
                proof {
                    open_node(Option::Some(node));
                    assert(set_of(Option::Some(node)) =~= set_of(n0).remove(v)) by {
                        if set_of(x0.left).contains(v) {
                            assert(v < x0.value);
                        }
                    }
                    if set_of(n0).contains(v) {
                        assert(set_of(x0.left).contains(v) || v == x0.value || set_of(
                            x0.right,
                        ).contains(v));
                    }
                    if !found {
                        assert(node == x0);
                    }
                    assert(bst_ok(Option::Some(node))) by {
                        assert forall|y: i64| set_of(node.right).contains(y) implies y
                            > x0.value by {
                            assert(set_of(x0.right).contains(y));
                        }
                    }
                }
                if def {
                    proof {
                        assert(right_deficit_pre(node));
                    }
                    let (fixed, still) = fix_right_deficit(node);
                    (Option::Some(fixed), true, still)
                } else {
                    (Option::Some(node), found, false)
                }
            } else {
                let op = operation_remove(&node);
                match op {
                    OperationRemove::RedLeaf => {
                        proof {
                            assert(set_of(Option::None::<Box<Node>>) =~= set_of(n0).remove(v));
                        }
                        (Option::None, true, false)
                    },
                    OperationRemove::BlackLeaf => {
                        proof {
                            assert(set_of(Option::None::<Box<Node>>) =~= set_of(n0).remove(v));
                        }
                        (Option::None, true, true)
                    },
                    OperationRemove::BlackNodeWithRedLeaf => {
                        // The value of the lone red leaf moves up; the leaf
                        // goes; the black height is untouched.
                        let taken_left = node.left.take();
                        match taken_left {
                            Option::Some(lc) => {
                                let ghost lc0 = lc;
                                proof {
                                    open_node(x0.left);
                                    assert(lc0.is_red && lc0.left is None && lc0.right
                                        is None) by {
                                        if lc0.left is Some {
                                            open_node(lc0.left);
                                        }
                                        if lc0.right is Some {
                                            open_node(lc0.right);
                                        }
                                    }
                                    assert(!node.is_red);
                                }
                                node.value = lc.value;
                                let r0 = Option::Some(node);
                                proof {
                                    open_node(r0);
                                    assert(set_of(x0.left).contains(lc0.value));
                                    assert(set_of(r0) =~= set_of(n0).remove(v));
                                }
                                (r0, true, false)
                            },
                            Option::None => {
                                let rc = node.right.take().unwrap();
                                let ghost rc0 = rc;
                                proof {
                                    open_node(x0.right);
                                    assert(rc0.is_red && rc0.left is None && rc0.right
                                        is None) by {
                                        if rc0.left is Some {
                                            open_node(rc0.left);
                                        }
                                        if rc0.right is Some {
                                            open_node(rc0.right);
                                        }
                                    }
                                    assert(!node.is_red);
                                }
                                node.value = rc.value;
                                let r0 = Option::Some(node);
                                proof {
                                    open_node(r0);
                                    assert(set_of(x0.right).contains(rc0.value));
                                    assert(set_of(r0) =~= set_of(n0).remove(v));
                                }
                                (r0, true, false)
                            },
                        }
                    },
                    OperationRemove::NodeWithChildren => {
                        // Swap with the in-order successor: the smallest
                        // value of the right subtree replaces this one.
                        let rb = node.right.take().unwrap();
                        let ghost old_rb = rb;
                        let (rest, min, def) = pop_min(rb);
                        node.value = min;
                        node.right = rest;
                        proof {
                            open_node(Option::Some(node));
                            assert(set_of(Option::Some(old_rb)).contains(min));
                            assert(set_of(x0.right).contains(min));
                            assert(min > x0.value);
                            assert(set_of(Option::Some(node)) =~= set_of(n0).remove(v)) by {
                                if set_of(x0.left).contains(v) {
                                    assert(v < x0.value);
                                }
                            }
                            assert(bst_ok(Option::Some(node))) by {
                                assert forall|y: i64| set_of(node.left).contains(y) implies y
                                    < min by {
                                    assert(set_of(x0.left).contains(y));
                                    assert(y < x0.value);
                                }
                                assert forall|y: i64| set_of(node.right).contains(y) implies y
                                    > min by {
                                    assert(set_of(Option::Some(old_rb)).contains(y));
                                    assert(min <= y && y != min);
                                }
                            }
                        }
                        if def {
                            proof {
                                assert(right_deficit_pre(node));
                            }
                            let (fixed, still) = fix_right_deficit(node);
                            (Option::Some(fixed), true, still)
                        } else {
                            (Option::Some(node), true, false)
                        }
                    },
                }
            }
        },
    }
}

} // verus!
