//! Insertion: attach a red leaf at the search position, then rebalance on
//! the way back up with the four local patterns — a left rotation, a right
//! rotation at the parent, a colour flip, or nothing — until the colour and
//! black-height invariants hold again.
use vstd::prelude::*;
use crate::red_black_tree::node::{
    bh, bh_ok, bst_ok, no_red_red, open_node, red, set_of, size_of, Node,
};

verus! {

/// The four mutually exclusive local patterns that the insertion fixup
/// matches a node against.
pub(crate) enum OperationPut {
    Left,
    Right,
    FlipColors,
    Nothing,
}

/// What a rebalancing step below reports to the level above: the subtree is
/// settled; or its root has turned red and the parent must look at itself;
/// or the root is red with a red child on the named side, and the parent
/// owes it the corresponding rotation.
pub(crate) enum PutFix {
    Done,
    Continue,
    RedRedLeft,
    RedRedRight,
}

/// Classify a node against the four insertion patterns, in the order the
/// fixup applies them.
pub(crate) fn check_put_balancing(x: &Node) -> (op: OperationPut)
    ensures
        op is FlipColors <==> (!x.is_red && red(x.left) && red(x.right)),
        op is Left <==> (red(x.right) && !(!x.is_red && red(x.left) && red(x.right))),
        op is Right <==> (x.is_red && red(x.left) && !red(x.right)),
        op is Nothing <==> (!red(x.right) && !(x.is_red && red(x.left))),
{
    let right_red = match &x.right {
        Option::Some(r) => r.is_red,
        Option::None => false,
    };
    let left_red = match &x.left {
        Option::Some(l) => l.is_red,
        Option::None => false,
    };
    if right_red {
        if !x.is_red && left_red {
            OperationPut::FlipColors
        } else {
            OperationPut::Left
        }
    } else {
        if x.is_red && left_red {
            OperationPut::Right
        } else {
            OperationPut::Nothing
        }
    }
}

/// The well-formedness that every fixup step keeps: ordering and balanced
/// black height.
pub open(crate) spec fn shape_ok(n: Option<Box<Node>>) -> bool {
    bst_ok(n) && bh_ok(n)
}

/// What each flag promises of the subtree that carries it.
pub open(crate) spec fn flag_ok(y: Box<Node>, f: PutFix, was_red: bool) -> bool {
    match f {
        PutFix::Done => no_red_red(Option::Some(y)) && y.is_red == was_red,
        PutFix::Continue => no_red_red(Option::Some(y)) && y.is_red,
        PutFix::RedRedLeft => y.is_red && red(y.left) && no_red_red(y.left) && no_red_red(y.right)
            && !red(y.right) && was_red,
        PutFix::RedRedRight => y.is_red && red(y.right) && no_red_red(y.right) && no_red_red(
            y.left,
        ) && !red(y.left) && was_red,
    }
}

/// Insert `v` into the subtree rooted at `x` and rebalance it, reporting
/// upward what the parent still has to do.  The subtree keeps its black
/// height; the value set gains `v`; a duplicate leaves the subtree exactly
/// as it was.
#[verifier::rlimit(100)]
pub(crate) fn insert_node(x: Box<Node>, v: i64) -> (r: (Box<Node>, PutFix, bool))
    requires
        bst_ok(Option::Some(x)),
        no_red_red(Option::Some(x)),
        bh_ok(Option::Some(x)),
    ensures
        set_of(Option::Some(r.0)) == set_of(Option::Some(x)).insert(v),
        r.2 == !set_of(Option::Some(x)).contains(v),
        shape_ok(Option::Some(r.0)),
        bh(Option::Some(r.0)) == bh(Option::Some(x)),
        size_of(Option::Some(r.0)) == size_of(Option::Some(x)) + if r.2 {
            1int
        } else {
            0int
        },
        flag_ok(r.0, r.1, x.is_red),
        !r.2 ==> r.0 == x && r.1 is Done,
    decreases x,
{
    let ghost old_x = x;
    let mut node = x;
    if v == node.value {
        proof {
            assert(set_of(Option::Some(node)).contains(v));
            assert(set_of(Option::Some(node)).insert(v) =~= set_of(Option::Some(node)));
        }
        return (node, PutFix::Done, false);
    } else if v < node.value {
        let taken = node.left.take();
        match taken {
            Option::None => {
                node.left = Node::new_red(v);
                proof {
                    assert(set_of(Option::Some(node)) =~= set_of(Option::Some(old_x)).insert(v));
                    assert(!set_of(Option::Some(old_x)).contains(v)) by {
                        open_node(Option::Some(old_x));
                        if set_of(Option::Some(old_x)).contains(v) {
                            assert(v == old_x.value || set_of(old_x.left).contains(v) || set_of(
                                old_x.right,
                            ).contains(v));
                        }
                    }
                }
                fix_after_left(node, Ghost(old_x), Ghost(v), true)
            },
            Option::Some(lb) => {
                let ghost old_lb = lb;
                let (nl, f, added) = insert_node(lb, v);
                proof {
                    if set_of(Option::Some(old_lb)).contains(v) {
                        assert(set_of(Option::Some(old_x)).contains(v));
                    }
                    if set_of(Option::Some(old_x)).contains(v) {
                        assert(set_of(Option::Some(old_lb)).contains(v) || v == old_x.value
                            || set_of(old_x.right).contains(v));
                    }
                }
                match f {
                    PutFix::Done => {
                        node.left = Option::Some(nl);
                        proof {
                            assert(set_of(Option::Some(node)) =~= set_of(
                                Option::Some(old_x),
                            ).insert(v));
                            assert(node == old_x || added);
                            if !added {
                                assert(node.left == old_x.left);
                                assert(node == old_x);
                            }
                        }
                        (node, PutFix::Done, added)
                    },
                    PutFix::Continue => {
                        node.left = Option::Some(nl);
                        proof {
                            assert(set_of(Option::Some(node)) =~= set_of(
                                Option::Some(old_x),
                            ).insert(v));
                        }
                        fix_after_left(node, Ghost(old_x), Ghost(v), added)
                    },
                    PutFix::RedRedLeft => {
                        node.left = Option::Some(nl);
                        proof {
                            assert(set_of(Option::Some(node)) =~= set_of(
                                Option::Some(old_x),
                            ).insert(v));
                        }
                        fix_redred_left_left(node, Ghost(old_x), Ghost(v), added)
                    },
                    PutFix::RedRedRight => {
                        node.left = Option::Some(nl);
                        proof {
                            assert(set_of(Option::Some(node)) =~= set_of(
                                Option::Some(old_x),
                            ).insert(v));
                        }
                        fix_redred_left_right(node, Ghost(old_x), Ghost(v), added)
                    },
                }
            },
        }
    } else {
        let taken = node.right.take();
        match taken {
            Option::None => {
                node.right = Node::new_red(v);
                proof {
                    assert(set_of(Option::Some(node)) =~= set_of(Option::Some(old_x)).insert(v));
                    assert(!set_of(Option::Some(old_x)).contains(v)) by {
                        open_node(Option::Some(old_x));
                        if set_of(Option::Some(old_x)).contains(v) {
                            assert(v == old_x.value || set_of(old_x.left).contains(v) || set_of(
                                old_x.right,
                            ).contains(v));
                        }
                    }
                }
                fix_after_right(node, Ghost(old_x), Ghost(v), true)
            },
            Option::Some(rb) => {
                let ghost old_rb = rb;
                let (nr, f, added) = insert_node(rb, v);
                proof {
                    if set_of(Option::Some(old_rb)).contains(v) {
                        assert(set_of(Option::Some(old_x)).contains(v));
                    }
                    if set_of(Option::Some(old_x)).contains(v) {
                        assert(set_of(old_x.left).contains(v) || v == old_x.value || set_of(
                            Option::Some(old_rb),
                        ).contains(v));
                    }
                }
                match f {
                    PutFix::Done => {
                        node.right = Option::Some(nr);
                        proof {
                            assert(set_of(Option::Some(node)) =~= set_of(
                                Option::Some(old_x),
                            ).insert(v));
                            if !added {
                                assert(node.right == old_x.right);
                                assert(node == old_x);
                            }
                        }
                        (node, PutFix::Done, added)
                    },
                    PutFix::Continue => {
                        node.right = Option::Some(nr);
                        proof {
                            assert(set_of(Option::Some(node)) =~= set_of(
                                Option::Some(old_x),
                            ).insert(v));
                        }
                        fix_after_right(node, Ghost(old_x), Ghost(v), added)
                    },
                    PutFix::RedRedLeft => {
                        node.right = Option::Some(nr);
                        proof {
                            assert(set_of(Option::Some(node)) =~= set_of(
                                Option::Some(old_x),
                            ).insert(v));
                        }
                        fix_redred_right_left(node, Ghost(old_x), Ghost(v), added)
                    },
                    PutFix::RedRedRight => {
                        node.right = Option::Some(nr);
                        proof {
                            assert(set_of(Option::Some(node)) =~= set_of(
                                Option::Some(old_x),
                            ).insert(v));
                        }
                        fix_redred_right_right(node, Ghost(old_x), Ghost(v), added)
                    },
                }
            },
        }
    }
}

/// The step contract shared by all the local fixers: `x` is the node with
/// its updated child already in place, `old_x` what the subtree looked like
/// before the insertion.
spec fn fix_pre(x: Box<Node>, old_x: Box<Node>, v: i64, added: bool) -> bool {
    &&& bst_ok(Option::Some(x))
    &&& bh_ok(Option::Some(x))
    &&& set_of(Option::Some(x)) == set_of(Option::Some(old_x)).insert(v)
    &&& added == !set_of(Option::Some(old_x)).contains(v)
    &&& added
    &&& bh(Option::Some(x)) == bh(Option::Some(old_x))
    &&& size_of(Option::Some(x)) == size_of(Option::Some(old_x)) + 1
    &&& x.value == old_x.value
    &&& x.is_red == old_x.is_red
    &&& bst_ok(Option::Some(old_x))
    &&& no_red_red(Option::Some(old_x))
    &&& bh_ok(Option::Some(old_x))
}

spec fn fix_post(r: (Box<Node>, PutFix, bool), old_x: Box<Node>, v: i64) -> bool {
    &&& set_of(Option::Some(r.0)) == set_of(Option::Some(old_x)).insert(v)
    &&& r.2 == !set_of(Option::Some(old_x)).contains(v)
    &&& shape_ok(Option::Some(r.0))
    &&& bh(Option::Some(r.0)) == bh(Option::Some(old_x))
    &&& size_of(Option::Some(r.0)) == size_of(Option::Some(old_x)) + if r.2 {
        1int
    } else {
        0int
    }
    &&& flag_ok(r.0, r.1, old_x.is_red)
}

/// The check at a node whose left child has just turned red.
#[verifier::rlimit(100)]
fn fix_after_left(x: Box<Node>, Ghost(old_x): Ghost<Box<Node>>, Ghost(v): Ghost<i64>, added: bool) -> (r: (
    Box<Node>,
    PutFix,
    bool,
))
    requires
        fix_pre(x, old_x, v, added),
        red(x.left),
        no_red_red(x.left),
        no_red_red(x.right),
        x.right == old_x.right,
    ensures
        fix_post(r, old_x, v),
{
    let ghost x0 = x;
    let mut node = x;
    proof {
        open_node(Option::Some(x0));
    }
    let op = check_put_balancing(&node);
    match op {
        OperationPut::FlipColors => {
            // Both children red under a black node: push the redness up.
            let mut l = node.left.take().unwrap();
            let ghost l0 = l;
            let mut rc = node.right.take().unwrap();
            let ghost rc0 = rc;
            l.is_red = false;
            rc.is_red = false;
            node.is_red = true;
            node.left = Option::Some(l);
            node.right = Option::Some(rc);
            proof {
                open_node(x0.left);
                open_node(x0.right);
                open_node(Option::Some(node));
                open_node(node.left);
                open_node(node.right);
                assert(set_of(Option::Some(node)) =~= set_of(Option::Some(x0)));
            }
            (node, PutFix::Continue, added)
        },
        OperationPut::Right => {
            // Red node with a red left child: the parent owes a right
            // rotation; report the pair upward.
            (node, PutFix::RedRedLeft, added)
        },
        _ => {
            // A red left child under a black node needs nothing here.
            (node, PutFix::Done, added)
        },
    }
}

/// The check at a node whose right child has just turned red.
#[verifier::rlimit(100)]
fn fix_after_right(x: Box<Node>, Ghost(old_x): Ghost<Box<Node>>, Ghost(v): Ghost<i64>, added: bool) -> (r: (
    Box<Node>,
    PutFix,
    bool,
))
    requires
        fix_pre(x, old_x, v, added),
        red(x.right),
        no_red_red(x.right),
        no_red_red(x.left),
        x.left == old_x.left,
    ensures
        fix_post(r, old_x, v),
{
    let ghost x0 = x;
    let mut node = x;
    proof {
        open_node(Option::Some(x0));
    }
    let op = check_put_balancing(&node);
    match op {
        OperationPut::FlipColors => {
            let mut l = node.left.take().unwrap();
            let mut rc = node.right.take().unwrap();
            l.is_red = false;
            rc.is_red = false;
            node.is_red = true;
            node.left = Option::Some(l);
            node.right = Option::Some(rc);
            proof {
                open_node(x0.left);
                open_node(x0.right);
                open_node(Option::Some(node));
                open_node(node.left);
                open_node(node.right);
                assert(set_of(Option::Some(node)) =~= set_of(Option::Some(x0)));
            }
            (node, PutFix::Continue, added)
        },
        OperationPut::Left => {
            if node.is_red {
                // Red node with a red right child: the parent owes the
                // combined double rotation; report the pair upward.
                (node, PutFix::RedRedRight, added)
            } else {
                // Black node with a red right child: rotate the subtree
                // left here; the pivot takes this node's colour.
                let mut c = node.right.take().unwrap();
                let ghost c0 = c;
                node.right = c.left.take();
                c.is_red = false;
                node.is_red = true;
                c.left = Option::Some(node);
                proof {
                    open_node(x0.right);
                    open_node(Option::Some(c));
                    open_node(c.left);
                    assert forall|y: i64| set_of(c0.left).contains(y) implies y > x0.value
                        && y < c0.value by {
                        assert(set_of(Option::Some(c0)).contains(y));
                        assert(set_of(x0.right).contains(y));
                    }
                    assert(set_of(Option::Some(c)) =~= set_of(Option::Some(x0)));
                    assert(set_of(x0.right).contains(c0.value));
                    assert(x0.value < c0.value);
                    assert(bst_ok(Option::Some(c))) by {
                        assert forall|y: i64| set_of(c.left).contains(y) implies y
                            < c0.value by {
                            assert(y == x0.value || set_of(x0.left).contains(y) || set_of(
                                c0.left,
                            ).contains(y));
                        }
                    }
                }
                (c, PutFix::Done, added)
            }
        },
        _ => {
            (node, PutFix::Done, added)
        },
    }
}

/// The parent's rewrite for a red left child whose own left child is red:
/// rotate right at this node, then flip the colours of the pivot's children.
#[verifier::rlimit(100)]
fn fix_redred_left_left(x: Box<Node>, Ghost(old_x): Ghost<Box<Node>>, Ghost(v): Ghost<i64>, added: bool) -> (r: (
    Box<Node>,
    PutFix,
    bool,
))
    requires
        fix_pre(x, old_x, v, added),
        x.left is Some,
        flag_ok(x.left.unwrap(), PutFix::RedRedLeft, red(old_x.left)),
        no_red_red(x.right),
        red(old_x.left),
    ensures
        fix_post(r, old_x, v),
{
    let ghost x0 = x;
    let mut node = x;
    proof {
        open_node(Option::Some(x0));
        assert(!node.is_red);
    }
    let mut c = node.left.take().unwrap();
    let ghost c0 = c;
    // Right rotation at this node: the red left child comes up; the flip
    // that follows makes it red and blackens both of its children.
    node.left = c.right.take();
    node.is_red = false;
    let mut m = c.left.take().unwrap();
    let ghost m0 = m;
    m.is_red = false;
    c.left = Option::Some(m);
    c.is_red = true;
    c.right = Option::Some(node);
    proof {
        open_node(x0.left);
        open_node(c0.left);
        open_node(Option::Some(c));
        open_node(c.left);
        open_node(c.right);
        assert forall|y: i64| set_of(c0.right).contains(y) implies y < x0.value
            && y > c0.value by {
            assert(set_of(Option::Some(c0)).contains(y));
            assert(set_of(x0.left).contains(y));
        }
        assert(set_of(Option::Some(c)) =~= set_of(Option::Some(x0)));
        assert(bst_ok(Option::Some(c))) by {
            assert forall|y: i64| set_of(c.right).contains(y) implies y > c0.value by {
                assert(y == x0.value || set_of(c0.right).contains(y) || set_of(
                    x0.right,
                ).contains(y));
                if set_of(x0.right).contains(y) {
                    assert(set_of(Option::Some(c0)).contains(c0.value));
                    assert(set_of(x0.left).contains(c0.value));
                }
            }
            assert forall|y: i64| set_of(c.left).contains(y) implies y < c0.value by {
                assert(set_of(c0.left).contains(y));
            }
        }
    }
    (c, PutFix::Continue, added)
}

/// The parent's rewrite for a red left child whose right child is red: the
/// combined left-rotate-then-right-rotate with recolouring; the red
/// grandchild comes to the top.
#[verifier::rlimit(100)]
fn fix_redred_left_right(x: Box<Node>, Ghost(old_x): Ghost<Box<Node>>, Ghost(v): Ghost<i64>, added: bool) -> (r: (
    Box<Node>,
    PutFix,
    bool,
))
    requires
        fix_pre(x, old_x, v, added),
        x.left is Some,
        flag_ok(x.left.unwrap(), PutFix::RedRedRight, red(old_x.left)),
        no_red_red(x.right),
        red(old_x.left),
    ensures
        fix_post(r, old_x, v),
{
    let ghost x0 = x;
    let mut node = x;
    proof {
        open_node(Option::Some(x0));
        assert(!node.is_red);
    }
    let mut a = node.left.take().unwrap();
    let ghost a0 = a;
    let mut w = a.right.take().unwrap();
    let ghost w0 = w;
    a.right = w.left.take();
    node.left = w.right.take();
    a.is_red = false;
    node.is_red = false;
    w.is_red = true;
    w.left = Option::Some(a);
    w.right = Option::Some(node);
    proof {
        open_node(x0.left);
        open_node(a0.right);
        open_node(Option::Some(w));
        open_node(w.left);
        open_node(w.right);
        assert forall|y: i64| set_of(Option::Some(w0)).contains(y) implies y < x0.value
            && y > a0.value by {
            assert(set_of(a0.right).contains(y));
            assert(set_of(Option::Some(a0)).contains(y));
            assert(set_of(x0.left).contains(y));
        }
        assert(set_of(Option::Some(a0)).contains(a0.value));
        assert(set_of(x0.left).contains(a0.value));
        assert(set_of(a0.right).contains(w0.value));
        assert(set_of(Option::Some(a0)).contains(w0.value));
        assert(set_of(x0.left).contains(w0.value));
        assert(a0.value < w0.value && w0.value < x0.value);
        assert(set_of(Option::Some(w)) =~= set_of(Option::Some(x0)));
        assert(bst_ok(w.left)) by {
            assert forall|y: i64| set_of(w0.left).contains(y) implies y > a0.value by {
                assert(set_of(Option::Some(w0)).contains(y));
            }
        }
        assert(bst_ok(w.right)) by {
            assert forall|y: i64| set_of(w0.right).contains(y) implies y < x0.value by {
                assert(set_of(Option::Some(w0)).contains(y));
            }
        }
        assert(bst_ok(Option::Some(w))) by {
            assert forall|y: i64| set_of(w.left).contains(y) implies y < w0.value by {
                assert(y == a0.value || set_of(a0.left).contains(y) || set_of(
                    w0.left,
                ).contains(y));
            }
            assert forall|y: i64| set_of(w.right).contains(y) implies y > w0.value by {
                assert(y == x0.value || set_of(w0.right).contains(y) || set_of(
                    x0.right,
                ).contains(y));
            }
        }
    }
    (w, PutFix::Continue, added)
}

/// Mirror of `fix_redred_left_right`: a red right child whose left child is
/// red; the red grandchild comes to the top.
#[verifier::rlimit(100)]
fn fix_redred_right_left(x: Box<Node>, Ghost(old_x): Ghost<Box<Node>>, Ghost(v): Ghost<i64>, added: bool) -> (r: (
    Box<Node>,
    PutFix,
    bool,
))
    requires
        fix_pre(x, old_x, v, added),
        x.right is Some,
        flag_ok(x.right.unwrap(), PutFix::RedRedLeft, red(old_x.right)),
        no_red_red(x.left),
        red(old_x.right),
    ensures
        fix_post(r, old_x, v),
{
    let ghost x0 = x;
    let mut node = x;
    proof {
        open_node(Option::Some(x0));
        assert(!node.is_red);
    }
    let mut c = node.right.take().unwrap();
    let ghost c0 = c;
    let mut m = c.left.take().unwrap();
    let ghost m0 = m;
    c.left = m.right.take();
    node.right = m.left.take();
    c.is_red = false;
    node.is_red = false;
    m.is_red = true;
    m.left = Option::Some(node);
    m.right = Option::Some(c);
    proof {
        open_node(x0.right);
        open_node(c0.left);
        open_node(Option::Some(m));
        open_node(m.left);
        open_node(m.right);
        assert forall|y: i64| set_of(Option::Some(m0)).contains(y) implies y > x0.value
            && y < c0.value by {
            assert(set_of(c0.left).contains(y));
            assert(set_of(Option::Some(c0)).contains(y));
            assert(set_of(x0.right).contains(y));
        }
        assert(set_of(Option::Some(c0)).contains(c0.value));
        assert(set_of(x0.right).contains(c0.value));
        assert(set_of(c0.left).contains(m0.value));
        assert(set_of(Option::Some(c0)).contains(m0.value));
        assert(set_of(x0.right).contains(m0.value));
        assert(c0.value > m0.value && m0.value > x0.value);
        assert(set_of(Option::Some(m)) =~= set_of(Option::Some(x0)));
        assert(bst_ok(m.right)) by {
            assert forall|y: i64| set_of(m0.right).contains(y) implies y < c0.value by {
                assert(set_of(Option::Some(m0)).contains(y));
            }
        }
        assert(bst_ok(m.left)) by {
            assert forall|y: i64| set_of(m0.left).contains(y) implies y > x0.value by {
                assert(set_of(Option::Some(m0)).contains(y));
            }
        }
        assert(bst_ok(Option::Some(m))) by {
            assert forall|y: i64| set_of(m.right).contains(y) implies y > m0.value by {
                assert(y == c0.value || set_of(c0.right).contains(y) || set_of(
                    m0.right,
                ).contains(y));
            }
            assert forall|y: i64| set_of(m.left).contains(y) implies y < m0.value by {
                assert(y == x0.value || set_of(m0.left).contains(y) || set_of(
                    x0.left,
                ).contains(y));
            }
        }
    }
    (m, PutFix::Continue, added)
}

/// Mirror of `fix_redred_left_left`: a red right child whose own right
/// child is red; rotate left here, then flip the pivot's children.
#[verifier::rlimit(100)]
fn fix_redred_right_right(x: Box<Node>, Ghost(old_x): Ghost<Box<Node>>, Ghost(v): Ghost<i64>, added: bool) -> (r: (
    Box<Node>,
    PutFix,
    bool,
))
    requires
        fix_pre(x, old_x, v, added),
        x.right is Some,
        flag_ok(x.right.unwrap(), PutFix::RedRedRight, red(old_x.right)),
        no_red_red(x.left),
        red(old_x.right),
    ensures
        fix_post(r, old_x, v),
{
    let ghost x0 = x;
    let mut node = x;
    proof {
        open_node(Option::Some(x0));
        assert(!node.is_red);
    }
    let mut c = node.right.take().unwrap();
    let ghost c0 = c;
    node.right = c.left.take();
    node.is_red = false;
    let mut w = c.right.take().unwrap();
    let ghost w0 = w;
    w.is_red = false;
    c.right = Option::Some(w);
    c.is_red = true;
    c.left = Option::Some(node);
    proof {
        open_node(x0.right);
        open_node(c0.right);
        open_node(Option::Some(c));
        open_node(c.left);
        open_node(c.right);
        assert forall|y: i64| set_of(c0.left).contains(y) implies y > x0.value
            && y < c0.value by {
            assert(set_of(Option::Some(c0)).contains(y));
            assert(set_of(x0.right).contains(y));
        }
        assert(set_of(Option::Some(c)) =~= set_of(Option::Some(x0)));
        assert(bst_ok(Option::Some(c))) by {
            assert forall|y: i64| set_of(c.left).contains(y) implies y < c0.value by {
                assert(y == x0.value || set_of(c0.left).contains(y) || set_of(
                    x0.left,
                ).contains(y));
                if set_of(x0.left).contains(y) {
                    assert(set_of(Option::Some(c0)).contains(c0.value));
                    assert(set_of(x0.right).contains(c0.value));
                }
            }
            assert forall|y: i64| set_of(c.right).contains(y) implies y > c0.value by {
                assert(set_of(c0.right).contains(y));
            }
        }
    }
    (c, PutFix::Continue, added)
}

} // verus!
