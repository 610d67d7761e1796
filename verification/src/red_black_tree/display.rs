//! The debug exporter: a graph-description string of the whole tree, one
//! edge line per child link, each node coloured as it is in the tree.
use vstd::prelude::*;
use crate::red_black_tree::node::Node;
use crate::red_black_tree::tree::Tree;

verus! {

/// The decimal digit character for `d`.
pub open(crate) spec fn digit_char(d: nat) -> char {
    ((d + 48) as u8) as char
}

/// The decimal digits of a natural number, most significant first.
pub open(crate) spec fn dec_digits(n: nat) -> Seq<char>
    decreases n,
{
    if n < 10 {
        seq![digit_char(n)]
    } else {
        dec_digits(n / 10).push(digit_char(n % 10))
    }
}

/// The decimal rendering of a value, with a sign when negative.
pub open(crate) spec fn dec_str_of(v: int) -> Seq<char> {
    if v < 0 {
        seq!['-'] + dec_digits((-v) as nat)
    } else {
        dec_digits(v as nat)
    }
}

/// The colour attribute of a node.
pub open(crate) spec fn color_str(is_red: bool) -> Seq<char> {
    if is_red {
        "[color=\"red\"]"@
    } else {
        "[color=\"black\"]"@
    }
}

/// One edge line between a parent and a present child.
#[verifier::opaque]
pub open(crate) spec fn edge_line(pv: int, pr: bool, cv: int, cr: bool) -> Seq<char> {
    "\t"@ + dec_str_of(pv) + "->"@ + dec_str_of(cv) + " "@ + color_str(pr) + "; "@ + dec_str_of(
        pv,
    ) + " "@ + color_str(pr) + "; "@ + dec_str_of(cv) + " "@ + color_str(cr) + ";\n"@
}

/// The two lines that stand for an absent child.
#[verifier::opaque]
pub open(crate) spec fn null_lines(pv: int, pr: bool) -> Seq<char> {
    "\t"@ + dec_str_of(pv) + "->node_null_"@ + dec_str_of(pv) + " [color=\"grey\"]; "@
        + dec_str_of(pv) + " "@ + color_str(pr) + ";\n"@ + "\tnode_null_"@ + dec_str_of(pv)
        + "[label=\"null\"]\n"@
}

/// The left side of a node's description: an edge and the left subtree,
/// or the absent-child lines when only the right child exists.
pub open(crate) spec fn left_part_of(n: Option<Box<Node>>) -> Seq<char>
    decreases n, 0int,
{
    match n {
        Option::None => Seq::empty(),
        Option::Some(b) => match b.left {
            Option::Some(l) => edge_line(b.value as int, b.is_red, l.value as int, l.is_red)
                + subtree_lines(b.left),
            Option::None => if b.right is Some {
                null_lines(b.value as int, b.is_red)
            } else {
                Seq::empty()
            },
        },
    }
}

/// The right side of a node's description: an edge and the right subtree,
/// or the absent-child lines.
pub open(crate) spec fn right_part_of(n: Option<Box<Node>>) -> Seq<char>
    decreases n, 0int,
{
    match n {
        Option::None => Seq::empty(),
        Option::Some(b) => match b.right {
            Option::Some(rc) => edge_line(b.value as int, b.is_red, rc.value as int, rc.is_red)
                + subtree_lines(b.right),
            Option::None => null_lines(b.value as int, b.is_red),
        },
    }
}

/// The description of a subtree: the left side, then the right side.
pub open(crate) spec fn subtree_lines(n: Option<Box<Node>>) -> Seq<char>
    decreases n, 1int,
{
    match n {
        Option::None => Seq::empty(),
        Option::Some(b) => left_part_of(n) + right_part_of(n),
    }
}

impl Tree {
    /// What `display` returns: the graph description, or the emptiness
    /// notice for a tree with no nodes.
    pub open(crate) spec fn display_view(&self) -> Seq<char> {
        match self.root {
            Option::None => "\nTree is empty"@,
            Option::Some(_) => "\n\ndigraph Tree {\n\tratio = fill;\n\tnode [style=filled fontcolor=\"white\"];\n"@
                + subtree_lines(self.root) + "}"@,
        }
    }

    /// A graph-description string of the tree, for diagnostic viewing.
    pub fn display(&self) -> (r: String)
        ensures
            r@ == self.display_view(),
    {
        match &self.root {
            Option::None => fmt_str("\nTree is empty"),
            Option::Some(_) => {
                let mut s = fmt_str(
                    "\n\ndigraph Tree {\n\tratio = fill;\n\tnode [style=filled fontcolor=\"white\"];\n",
                );
                append_subtree(&self.root, &mut s);
                s.append("}");
                s
            },
        }
    }
}

/// Append the description of a subtree to `s`.
#[verifier::rlimit(100)]
fn append_subtree(n: &Option<Box<Node>>, s: &mut String)
    ensures
        final(s)@ == old(s)@ + subtree_lines(*n),
    decreases *n,
{
    match n {
        Option::None => {
            proof {
                assert(final(s)@ =~= old(s)@ + subtree_lines(*n));
            }
        },
        Option::Some(b) => {
            let ghost lp = left_part_of(*n);
            let ghost rp = right_part_of(*n);
            match &b.left {
                Option::Some(l) => {
                    append_edge(s, b.value, b.is_red, l.value, l.is_red);
                    append_subtree(&b.left, s);
                    proof {
                        assert(s@ =~= old(s)@ + lp);
                    }
                },
                Option::None => {
                    if b.right.is_some() {
                        append_null(s, b.value, b.is_red);
                    }
                    proof {
                        assert(s@ =~= old(s)@ + lp);
                    }
                },
            }
            let ghost mid = s@;
            match &b.right {
                Option::Some(rc) => {
                    append_edge(s, b.value, b.is_red, rc.value, rc.is_red);
                    append_subtree(&b.right, s);
                    proof {
                        assert(s@ =~= mid + rp);
                    }
                },
                Option::None => {
                    append_null(s, b.value, b.is_red);
                    proof {
                        assert(s@ =~= mid + rp);
                    }
                },
            }
            proof {
                assert(subtree_lines(*n) == lp + rp);
                assert(s@ =~= old(s)@ + (lp + rp));
            }
        },
    }
}

/// Append one parent-to-child edge line.
fn append_edge(s: &mut String, pv: i64, pr: bool, cv: i64, cr: bool)
    ensures
        final(s)@ == old(s)@ + edge_line(pv as int, pr, cv as int, cr),
{
    s.append("\t");
    append_i64(s, pv);
    s.append("->");
    append_i64(s, cv);
    s.append(" ");
    append_color(s, pr);
    s.append("; ");
    append_i64(s, pv);
    s.append(" ");
    append_color(s, pr);
    s.append("; ");
    append_i64(s, cv);
    s.append(" ");
    append_color(s, cr);
    s.append(";\n");
    proof {
        reveal(edge_line);
        assert(final(s)@ =~= old(s)@ + edge_line(pv as int, pr, cv as int, cr));
    }
}

/// Append the absent-child lines for a parent.
fn append_null(s: &mut String, pv: i64, pr: bool)
    ensures
        final(s)@ == old(s)@ + null_lines(pv as int, pr),
{
    s.append("\t");
    append_i64(s, pv);
    s.append("->node_null_");
    append_i64(s, pv);
    s.append(" [color=\"grey\"]; ");
    append_i64(s, pv);
    s.append(" ");
    append_color(s, pr);
    s.append(";\n");
    s.append("\tnode_null_");
    append_i64(s, pv);
    s.append("[label=\"null\"]\n");
    proof {
        reveal(null_lines);
        assert(final(s)@ =~= old(s)@ + null_lines(pv as int, pr));
    }
}

/// Append a node's colour attribute.
fn append_color(s: &mut String, is_red: bool)
    ensures
        final(s)@ == old(s)@ + color_str(is_red),
{
    if is_red {
        s.append("[color=\"red\"]");
    } else {
        s.append("[color=\"black\"]");
    }
}

/// Append the decimal rendering of `v`.
fn append_i64(s: &mut String, v: i64)
    ensures
        final(s)@ == old(s)@ + dec_str_of(v as int),
{
    let d = fmt_i64(v);
    s.append(d.as_str());
}

/// A `String` copy of a literal.
fn fmt_str(t: &str) -> (r: String)
    ensures
        r@ == t@,
{
    String::from_str(t)
}

/// Relies on the decimal `Display` rendering of `i64` in std: the digits
/// of the value, most significant first, with a leading minus sign for a
/// negative value.
#[verifier::external_body]
fn fmt_i64(v: i64) -> (r: String)
    ensures
        r@ == dec_str_of(v as int),
{
    format!("{}", v)
}

} // verus!
