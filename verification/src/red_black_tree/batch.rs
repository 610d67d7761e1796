//! Bulk-load preparation: sort a batch of keys, then reorder it so that the
//! median goes first and the rest alternates outward — next-largest,
//! next-smallest — which keeps the insertion fixup work low.
use vstd::prelude::*;

verus! {

/// The alternating merge of two sequences: the head of `a`, then the head
/// of `b`, and so on; whichever runs out first leaves the rest of the other.
pub open(crate) spec fn weave(a: Seq<i64>, b: Seq<i64>) -> Seq<i64>
    decreases a.len() + b.len(),
{
    if a.len() == 0 {
        b
    } else {
        seq![a[0]] + weave(b, a.drop_first())
    }
}

/// The bulk-load order of a sorted batch: the upper half from the median
/// upward, woven with the lower half from the median downward.
pub open(crate) spec fn interleave_of(s: Seq<i64>) -> Seq<i64> {
    weave(s.skip(s.len() as int / 2), s.take(s.len() as int / 2).reverse())
}

/// The batch in ascending order.
pub open(crate) spec fn sorted_batch(s: Seq<i64>) -> Seq<i64> {
    s.sort_by(|x: i64, y: i64| x <= y)
}

/// A sorted rearrangement of a sequence is its one ascending order.
proof fn lemma_sorted_batch_is(s: Seq<i64>, v: Seq<i64>)
    requires
        v.to_multiset() == s.to_multiset(),
        forall|i: int, j: int| 0 <= i < j < v.len() ==> v[i] <= v[j],
    ensures
        v == sorted_batch(s),
{
    let leq = |x: i64, y: i64| x <= y;
    assert(vstd::relations::total_ordering(leq));
    s.lemma_sort_by_ensures(leq);
    assert(vstd::relations::sorted_by(v, leq)) by {
        assert forall|i: int, j: int| 0 <= i < j < v.len() implies leq(v[i], v[j]) by {
            assert(v[i] <= v[j]);
        }
    }
    vstd::seq_lib::lemma_sorted_unique(v, sorted_batch(s), leq);
}

/// Sort the batch ascending: selection of the least remaining value, so
/// that the result is a sorted permutation of the input.
fn sort_values(v: &mut Vec<i64>)
    ensures
        final(v)@.to_multiset() == old(v)@.to_multiset(),
        final(v)@.len() == old(v)@.len(),
        forall|i: int, j: int| 0 <= i < j < final(v)@.len() ==> final(v)@[i] <= final(v)@[j],
{
    proof {
        broadcast use vstd::seq_lib::group_to_multiset_ensures;
    }
    let mut out: Vec<i64> = Vec::new();
    while v.len() > 0
        invariant
            out@.to_multiset().add(v@.to_multiset()) =~= old(v)@.to_multiset(),
            out@.len() + v@.len() == old(v)@.len(),
            forall|i: int, j: int| 0 <= i < j < out@.len() ==> out@[i] <= out@[j],
            forall|i: int, j: int|
                0 <= i < out@.len() && 0 <= j < v@.len() ==> out@[i] <= v@[j],
        decreases v@.len(),
    {
        let ghost v0 = v@;
        let ghost out0 = out@;
        let mut mi: usize = 0;
        let mut k: usize = 1;
        while k < v.len()
            invariant
                v@ == v0,
                mi < k,
                k <= v@.len(),
                1 <= k,
                forall|t: int| 0 <= t < k ==> v@[mi as int] <= v@[t],
            decreases v@.len() - k,
        {
            if v[k] < v[mi] {
                mi = k;
            }
            k = k + 1;
        }
        let m = v[mi];
        out.push(m);
        let _ = v.remove(mi);
        proof {
            broadcast use vstd::seq_lib::group_to_multiset_ensures;
            assert(v@ =~= v0.remove(mi as int));
            assert(out@ =~= out0.push(m));
            assert(v0.to_multiset().contains(m)) by {
                assert(v0[mi as int] == m);
            }
            assert(out@.to_multiset().add(v@.to_multiset()) =~= old(v)@.to_multiset()) by {
                assert(out@.to_multiset() =~= out0.to_multiset().insert(m));
                assert(v@.to_multiset() =~= v0.to_multiset().remove(m));
            }
            assert forall|i: int, j: int|
                0 <= i < out@.len() && 0 <= j < v@.len() implies out@[i] <= v@[j] by {
                if i < out0.len() {
                    if j < mi {
                        assert(v@[j] == v0[j]);
                    } else {
                        assert(v@[j] == v0[j + 1]);
                    }
                } else {
                    assert(out@[i] == m);
                    if j < mi {
                        assert(v@[j] == v0[j]);
                    } else {
                        assert(v@[j] == v0[j + 1]);
                    }
                }
            }
        }
    }
    *v = out;
}

/// Data preparation that keeps bulk insertion cheap: the batch is sorted,
/// and the returned order starts at the median and alternates outward —
/// next-largest, then next-smallest.  The batch itself is split in the
/// process and keeps only the sorted lower half, the values before the
/// median.
pub fn helper_prepare_batch_put(src_l: &mut Vec<i64>) -> (r: Vec<i64>)
    ensures
        r@ == interleave_of(sorted_batch(old(src_l)@)),
        final(src_l)@ == sorted_batch(old(src_l)@).take(old(src_l)@.len() as int / 2),
{
    sort_values(src_l);
    proof {
        lemma_sorted_batch_is(old(src_l)@, src_l@);
    }
    let ghost s = src_l@;
    let n = src_l.len();
    let middle = n / 2;
    let mut upper: Vec<i64> = Vec::new();
    let mut k: usize = middle;
    while k < n
        invariant
            n == src_l@.len(),
            middle == n / 2,
            middle <= k <= n,
            upper@ =~= src_l@.subrange(middle as int, k as int),
        decreases n - k,
    {
        upper.push(src_l[k]);
        k = k + 1;
    }
    let mut lower: Vec<i64> = Vec::new();
    let mut k2: usize = middle;
    while k2 > 0
        invariant
            n == src_l@.len(),
            middle == n / 2,
            k2 <= middle,
            lower@.len() == middle - k2,
            forall|t: int|
                0 <= t < lower@.len() ==> lower@[t] == src_l@[middle - 1 - t],
        decreases k2,
    {
        k2 = k2 - 1;
        lower.push(src_l[k2]);
    }
    proof {
        assert(upper@ =~= s.skip(middle as int));
        assert(lower@ =~= s.take(middle as int).reverse());
    }
    let mut ret: Vec<i64> = Vec::new();
    let mut ia: usize = 0;
    let mut ib: usize = 0;
    let na = upper.len();
    let nb = lower.len();
    proof {
        assert(upper@.skip(0) =~= upper@);
        assert(lower@.skip(0) =~= lower@);
        assert(ret@ + weave(upper@, lower@) =~= weave(upper@, lower@));
    }
    while ia < na || ib < nb
        invariant
            na == upper@.len(),
            nb == lower@.len(),
            nb <= na,
            ia <= na,
            ib <= nb,
            ib == nb || ia == ib || ia == ib + 1,
            ia == ib || ib == nb,
            ret@ + weave(upper@.skip(ia as int), lower@.skip(ib as int)) =~= weave(
                upper@,
                lower@,
            ),
        decreases na + nb - ia - ib,
    {
        let ghost rem_a = upper@.skip(ia as int);
        let ghost rem_b = lower@.skip(ib as int);
        if ia < na {
            ret.push(upper[ia]);
            ia = ia + 1;
            proof {
                assert(rem_a.drop_first() =~= upper@.skip(ia as int));
                assert(rem_a[0] == upper@[ia - 1]);
                assert(weave(rem_a, rem_b) == seq![rem_a[0]] + weave(rem_b, rem_a.drop_first()));
                assert(ret@ + weave(lower@.skip(ib as int), upper@.skip(ia as int)) =~= weave(
                    upper@,
                    lower@,
                ));
            }
        }
        let ghost rem_a2 = upper@.skip(ia as int);
        let ghost rem_b2 = lower@.skip(ib as int);
        if ib < nb {
            ret.push(lower[ib]);
            ib = ib + 1;
            proof {
                assert(rem_b2.drop_first() =~= lower@.skip(ib as int));
                assert(rem_b2[0] == lower@[ib - 1]);
                if rem_b2.len() > 0 {
                    assert(weave(rem_b2, rem_a2) == seq![rem_b2[0]] + weave(
                        rem_a2,
                        rem_b2.drop_first(),
                    ));
                }
                assert(ret@ + weave(upper@.skip(ia as int), lower@.skip(ib as int)) =~= weave(
                    upper@,
                    lower@,
                ));
            }
        } else {
            proof {
                let ua = upper@.skip(ia as int);
                let ub = lower@.skip(ib as int);
                assert(ub =~= Seq::<i64>::empty());
                assert(weave(ub, ua) == ua);
                if ua.len() > 0 {
                    assert(weave(ua, ub) == seq![ua[0]] + weave(ub, ua.drop_first()));
                    assert(weave(ub, ua.drop_first()) == ua.drop_first());
                    assert(weave(ua, ub) =~= ua);
                } else {
                    assert(weave(ua, ub) =~= ua);
                }
                assert(ret@ + weave(upper@.skip(ia as int), lower@.skip(ib as int)) =~= weave(
                    upper@,
                    lower@,
                ));
            }
        }
    }
    proof {
        assert(upper@.skip(na as int) =~= Seq::<i64>::empty());
        assert(lower@.skip(nb as int) =~= Seq::<i64>::empty());
        assert(weave(upper@.skip(na as int), lower@.skip(nb as int)) =~= Seq::<i64>::empty());
        assert(ret@ =~= weave(upper@, lower@));
        assert(ret@ =~= interleave_of(src_l@));
    }
    while src_l.len() > middle
        invariant
            middle <= src_l@.len() <= s.len(),
            src_l@ == s.take(src_l@.len() as int),
            middle == s.len() as int / 2,
        decreases src_l@.len(),
    {
        let _ = src_l.pop();
        proof {
            assert(src_l@ =~= s.take(src_l@.len() as int));
        }
    }
    ret
}

} // verus!
