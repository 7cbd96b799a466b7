//! The allocation-reusing recursive partition sort.
//!
//! [`sort`] consumes an input buffer and two pre-sized auxiliary buffers,
//! partitions around the last element, and hands the values to a
//! [`Consumer`] in ascending order. Sides of more than two elements are
//! sorted by wrapping the spare buffer into a [`FixedDequeLifos`], splitting
//! it through a [`CrossVecPairGuard`] into the two auxiliary buffers the next
//! recursion level needs, and folding the halves back afterwards — so no
//! buffer beyond the three supplied at the top is ever created.
//!
//! The pivot is always the last element (popped to avoid shifting the rest);
//! this fixed policy makes the worst-case recursion depth linear in the input
//! length. Equal elements may be reordered: the sort is not stable, and its
//! contract constrains only the delivered order and the multisets.

use vstd::prelude::*;

use core::cmp::Ordering;

use vstd::laws_cmp::obeys_cmp;
use vstd::multiset::Multiset;
use vstd::std_specs::cmp::{OrdSpec, PartialEqSpec, PartialOrdSpec};

use crate::calloc::Vec;
use crate::consume::Consumer;
use crate::cross::{CrossVecPair, CrossVecPairGuard};
use crate::lifos::FixedDequeLifos;

verus! {

/// `x` is strictly below `y` in the order the element type's comparison
/// defines.
pub open spec fn spec_lt<T: PartialOrd>(x: T, y: T) -> bool {
    x.partial_cmp_spec(&y) == Some(Ordering::Less)
}

/// `x` is below or tied with `y`.
pub open spec fn spec_le<T: PartialOrd>(x: T, y: T) -> bool {
    x.partial_cmp_spec(&y) == Some(Ordering::Less)
        || x.partial_cmp_spec(&y) == Some(Ordering::Equal)
}

/// The sequence is non-decreasing.
pub open spec fn sorted<T: PartialOrd>(s: Seq<T>) -> bool {
    forall|i: int, j: int| 0 <= i < j < s.len() ==> spec_le(#[trigger] s[i], #[trigger] s[j])
}

/// The laws a lawful total order gives [`spec_lt`] and [`spec_le`]:
/// strictness implies the weak order, the order is total, and the weak order
/// is transitive.
pub proof fn lemma_order_laws<T: Ord>()
    requires
        obeys_cmp::<T>(),
    ensures
        T::obeys_partial_cmp_spec(),
        forall|x: T, y: T| #[trigger] spec_lt(x, y) ==> spec_le(x, y),
        forall|x: T, y: T| !#[trigger] spec_lt(x, y) ==> spec_le(y, x),
        forall|x: T, y: T, z: T|
            #[trigger] spec_le(x, y) && #[trigger] spec_le(y, z) ==> spec_le(x, z),
{
    reveal(vstd::laws_cmp::obeys_cmp_partial_ord);
    reveal(vstd::laws_cmp::obeys_cmp_ord);
    reveal(vstd::laws_cmp::obeys_partial_cmp_spec_properties);
    reveal(vstd::laws_eq::obeys_eq_spec_properties);
    assert forall|x: T, y: T| !#[trigger] spec_lt(x, y) implies spec_le(y, x) by {
        assert(x.partial_cmp_spec(&y) == Some(x.cmp_spec(&y)));
        assert(y.partial_cmp_spec(&x) == Some(y.cmp_spec(&x)));
        if x.partial_cmp_spec(&y) == Some(Ordering::Equal) {
            assert(x.eq_spec(&y));
            assert(y.eq_spec(&x));
        } else {
            assert(x.partial_cmp_spec(&y) == Some(Ordering::Greater));
        }
    }
    assert forall|x: T, y: T, z: T|
        #[trigger] spec_le(x, y) && #[trigger] spec_le(y, z) implies spec_le(x, z) by {
        assert(x.partial_cmp_spec(&z) == Some(x.cmp_spec(&z)));
        assert(z.partial_cmp_spec(&x) == Some(z.cmp_spec(&x)));
        assert(z.partial_cmp_spec(&y) == Some(z.cmp_spec(&y)));
        assert(y.partial_cmp_spec(&x) == Some(y.cmp_spec(&x)));
        if x.partial_cmp_spec(&z) == Some(Ordering::Greater) {
            assert(z.partial_cmp_spec(&x) == Some(Ordering::Less));
            if x.partial_cmp_spec(&y) == Some(Ordering::Equal)
                && y.partial_cmp_spec(&z) == Some(Ordering::Equal) {
                assert(x.eq_spec(&y) && y.eq_spec(&z));
                assert(x.eq_spec(&z));
                assert(x.partial_cmp_spec(&z) == Some(Ordering::Equal));
            } else if x.partial_cmp_spec(&y) == Some(Ordering::Less)
                && y.partial_cmp_spec(&z) == Some(Ordering::Equal) {
                // z < x and x < y give z < y, contradicting y tied with z.
                assert(z.partial_cmp_spec(&y) == Some(Ordering::Less));
                assert(y.eq_spec(&z));
                assert(z.eq_spec(&y));
                assert(z.partial_cmp_spec(&y) == Some(Ordering::Equal));
            } else {
                // y is below or tied with x, yet y < z and z < x give y < x.
                assert(x.partial_cmp_spec(&y) == Some(Ordering::Equal));
                assert(x.eq_spec(&y));
                assert(y.eq_spec(&x));
                assert(y.partial_cmp_spec(&z) == Some(Ordering::Less));
                assert(y.partial_cmp_spec(&x) == Some(Ordering::Less));
                assert(y.partial_cmp_spec(&x) == Some(Ordering::Equal));
            }
        }
    }
}

/// Strict comparison through the element type's `PartialOrd`, pinned to
/// [`spec_lt`] by the total-order laws.
fn lt<T: Ord>(x: &T, y: &T) -> (r: bool)
    requires
        obeys_cmp::<T>(),
    ensures
        r == spec_lt(*x, *y),
{
    proof {
        lemma_order_laws::<T>();
    }
    x.lt(y)
}

/// A sorted run followed by a sorted run it is wholly below is sorted.
proof fn lemma_sorted_concat<T: PartialOrd>(a: Seq<T>, b: Seq<T>)
    requires
        sorted(a),
        sorted(b),
        forall|i: int, j: int|
            0 <= i < a.len() && 0 <= j < b.len() ==> spec_le(#[trigger] a[i], #[trigger] b[j]),
    ensures
        sorted(a + b),
{
    assert forall|i: int, j: int| 0 <= i < j < (a + b).len() implies spec_le(
        #[trigger] (a + b)[i],
        #[trigger] (a + b)[j],
    ) by {
        if j < a.len() {
            assert((a + b)[i] == a[i] && (a + b)[j] == a[j]);
        } else if i >= a.len() {
            assert((a + b)[i] == b[i - a.len()] && (a + b)[j] == b[j - a.len()]);
        } else {
            assert((a + b)[i] == a[i] && (a + b)[j] == b[j - a.len()]);
        }
    }
}

/// Every element of a part of a multiset partition occurs in the whole.
proof fn lemma_part_membership<T>(part: Seq<T>, other: Multiset<T>, whole: Seq<T>)
    requires
        part.to_multiset().add(other) == whole.to_multiset(),
    ensures
        forall|i: int| 0 <= i < part.len() ==> whole.contains(#[trigger] part[i]),
{
    broadcast use vstd::seq_lib::group_to_multiset_ensures;

    assert forall|i: int| 0 <= i < part.len() implies whole.contains(#[trigger] part[i]) by {
        assert(part.contains(part[i]));
        assert(part.to_multiset().count(part[i]) > 0);
        assert(whole.to_multiset().count(part[i]) == part.to_multiset().count(part[i])
            + other.count(part[i]));
    }
}

/// A sequence with no elements has the empty multiset.
proof fn lemma_ms_empty<T>(s: Seq<T>)
    requires
        s.len() == 0,
    ensures
        s.to_multiset() == Multiset::<T>::empty(),
{
    broadcast use vstd::seq_lib::group_to_multiset_ensures;
    broadcast use vstd::multiset::group_multiset_axioms;

    assert(s.to_multiset().len() == 0);
    assert(s.to_multiset() =~= Multiset::<T>::empty());
}

/// What one sort call promises, stated over the consumer's log.
///
/// `delivered` below is what the call appended to the log. The call delivers
/// a non-decreasing run of smallest elements of `input`; what it did not
/// deliver is exactly the contents of the three returned buffers
/// (`rest0 + rest1 + rest2`), every element of which is at least every
/// delivered element. Delivery runs to the whole input, with every consumer
/// answer `true`, exactly when `completed`; otherwise the last delivered
/// value is the one the consumer declined, and every earlier answer was
/// `true`.
pub open spec fn sort_post<T: PartialOrd, C: Consumer<T>>(
    c: C,
    input: Seq<T>,
    pre_log: Seq<T>,
    post_log: Seq<T>,
    rest0: Seq<T>,
    rest1: Seq<T>,
    rest2: Seq<T>,
    completed: bool,
) -> bool {
    let delivered = post_log.skip(pre_log.len() as int);
    let rest = rest0 + rest1 + rest2;
    &&& post_log.len() >= pre_log.len()
    &&& post_log.take(pre_log.len() as int) == pre_log
    &&& delivered.len() + rest.len() == input.len()
    &&& sorted(delivered)
    &&& delivered.to_multiset().add(rest.to_multiset()) == input.to_multiset()
    &&& forall|i: int, j: int|
        0 <= i < delivered.len() && 0 <= j < rest.len() ==> spec_le(
            #[trigger] delivered[i],
            #[trigger] rest[j],
        )
    &&& forall|n: int| pre_log.len() < n < post_log.len() ==> c.accepts(#[trigger] post_log.take(n))
    &&& (completed <==> (delivered.len() == input.len() && (input.len() == 0 || c.accepts(
        post_log,
    ))))
    &&& (!completed ==> post_log.len() > pre_log.len() && !c.accepts(post_log))
}

/// How a partition relates to the frame it came from: the input splits into
/// the strictly-lower side, the pivot, and the greater-or-equal side.
pub open spec fn partitioned<T: PartialOrd>(
    input: Seq<T>,
    lows: Seq<T>,
    geqs: Seq<T>,
    pivot: T,
) -> bool {
    &&& input.len() == lows.len() + geqs.len() + 1
    &&& input.to_multiset() == lows.to_multiset().add(geqs.to_multiset()).insert(pivot)
    &&& forall|i: int| 0 <= i < lows.len() ==> spec_lt(#[trigger] lows[i], pivot)
    &&& forall|i: int| 0 <= i < geqs.len() ==> spec_le(pivot, #[trigger] geqs[i])
}

/// Delivery of the lower side stopped early: the whole frame stops, with the
/// pivot pushed into the rejoined pool and the greater-or-equal side intact.
proof fn lemma_frame_low_abort<T: Ord, C: Consumer<T>>(
    c: C,
    input: Seq<T>,
    lows: Seq<T>,
    geqs: Seq<T>,
    pivot: T,
    pre: Seq<T>,
    post: Seq<T>,
    low_r0: Seq<T>,
    low_r1: Seq<T>,
)
    requires
        obeys_cmp::<T>(),
        partitioned(input, lows, geqs, pivot),
        sort_post(c, lows, pre, post, low_r0, low_r1, Seq::<T>::empty(), false),
    ensures
        sort_post(c, input, pre, post, low_r1.push(pivot), low_r0, geqs, false),
{
    broadcast use vstd::seq_lib::group_to_multiset_ensures;
    broadcast use vstd::seq_lib::lemma_multiset_commutative;
    broadcast use vstd::multiset::group_multiset_axioms;

    lemma_order_laws::<T>();
    let d = post.skip(pre.len() as int);
    let low_rest = low_r0 + low_r1 + Seq::<T>::empty();
    let rest = low_r1.push(pivot) + low_r0 + geqs;
    lemma_part_membership(d, low_rest.to_multiset(), lows);
    assert(low_rest.to_multiset().add(d.to_multiset()) =~= lows.to_multiset());
    lemma_part_membership(low_rest, d.to_multiset(), lows);
    assert(low_r1.push(pivot) =~= low_r1 + seq![pivot]);
    assert(seq![pivot].to_multiset() =~= Multiset::<T>::empty().insert(pivot));
    assert(d.to_multiset().add(rest.to_multiset()) =~= input.to_multiset());
    // Everything delivered is below everything left over.
    assert forall|i: int, j: int| 0 <= i < d.len() && 0 <= j < rest.len() implies spec_le(
        #[trigger] d[i],
        #[trigger] rest[j],
    ) by {
        assert(lows.contains(d[i]));
        let wi = choose|wi: int| 0 <= wi < lows.len() && lows[wi] == d[i];
        assert(spec_lt(lows[wi], pivot));
        if j < low_r1.len() {
            // An element still in the lower side's rejoined pool.
            assert(rest[j] == low_rest[low_r0.len() + j]);
        } else if j == low_r1.len() {
            assert(rest[j] == pivot);
        } else if j < low_r1.len() + 1 + low_r0.len() {
            assert(rest[j] == low_rest[j - (low_r1.len() + 1)]);
        } else {
            let gj = j - (low_r1.len() + 1 + low_r0.len());
            assert(rest[j] == geqs[gj]);
            assert(spec_le(pivot, geqs[gj]));
        }
    }
}

/// The consumer declined the pivot itself: the lower side was delivered in
/// full, the pivot is consumed, and the greater-or-equal side is left intact.
proof fn lemma_frame_pivot_abort<T: Ord, C: Consumer<T>>(
    c: C,
    input: Seq<T>,
    lows: Seq<T>,
    geqs: Seq<T>,
    pivot: T,
    pre: Seq<T>,
    log1: Seq<T>,
    post: Seq<T>,
    low_r0: Seq<T>,
    low_r1: Seq<T>,
)
    requires
        obeys_cmp::<T>(),
        partitioned(input, lows, geqs, pivot),
        sort_post(c, lows, pre, log1, low_r0, low_r1, Seq::<T>::empty(), true),
        post == log1.push(pivot),
        !c.accepts(post),
    ensures
        sort_post(c, input, pre, post, low_r1, low_r0, geqs, false),
{
    broadcast use vstd::seq_lib::group_to_multiset_ensures;
    broadcast use vstd::seq_lib::lemma_multiset_commutative;
    broadcast use vstd::multiset::group_multiset_axioms;

    lemma_order_laws::<T>();
    let d1 = log1.skip(pre.len() as int);
    let d = post.skip(pre.len() as int);
    let rest = low_r1 + low_r0 + geqs;
    // The lower side completed, so its leftovers are empty and it delivered
    // all of `lows`.
    assert(d1.len() == lows.len());
    assert(low_r0.len() == 0 && low_r1.len() == 0);
    lemma_ms_empty((low_r0 + low_r1 + Seq::<T>::empty()));
    assert(d1.to_multiset() =~= lows.to_multiset());
    lemma_part_membership(d1, (low_r0 + low_r1 + Seq::<T>::empty()).to_multiset(), lows);
    assert(d =~= d1.push(pivot));
    assert(d =~= d1 + seq![pivot]);
    assert(rest =~= geqs);
    // Prefix bookkeeping.
    assert(post.take(pre.len() as int) =~= pre);
    // Multisets.
    assert(seq![pivot].to_multiset() =~= Multiset::<T>::empty().insert(pivot));
    assert(d.to_multiset().add(rest.to_multiset()) =~= input.to_multiset());
    // Order: delivered values are the lows then the pivot; leftovers are the
    // greater-or-equal side.
    assert forall|i: int| 0 <= i < d1.len() implies spec_le(#[trigger] d1[i], pivot) by {
        assert(lows.contains(d1[i]));
        let wi = choose|wi: int| 0 <= wi < lows.len() && lows[wi] == d1[i];
        assert(spec_lt(lows[wi], pivot));
    }
    lemma_sorted_concat(d1, seq![pivot]);
    assert(sorted(d));
    assert forall|i: int, j: int| 0 <= i < d.len() && 0 <= j < rest.len() implies spec_le(
        #[trigger] d[i],
        #[trigger] rest[j],
    ) by {
        assert(rest[j] == geqs[j]);
        assert(spec_le(pivot, geqs[j]));
        if i < d1.len() {
            assert(spec_le(d[i], pivot));
        } else {
            assert(d[i] == pivot);
        }
    }
    // Every intermediate answer was true: those inside the lower side's run,
    // and — when the lower side was non-empty — the answer that ended it.
    assert forall|n: int| pre.len() < n < post.len() implies c.accepts(
        #[trigger] post.take(n),
    ) by {
        assert(post.take(n) =~= log1.take(n));
        if n < log1.len() {
            assert(c.accepts(log1.take(n)));
        } else {
            assert(n == log1.len());
            assert(log1.take(n) =~= log1);
            assert(d1.len() > 0);
            assert(c.accepts(log1));
        }
    }
}

/// Both sides ran: the frame's outcome is the greater-or-equal side's, after
/// the lower side and the pivot were delivered in full.
proof fn lemma_frame_complete<T: Ord, C: Consumer<T>>(
    c: C,
    input: Seq<T>,
    lows: Seq<T>,
    geqs: Seq<T>,
    pivot: T,
    pre: Seq<T>,
    log1: Seq<T>,
    log2: Seq<T>,
    post: Seq<T>,
    low_r0: Seq<T>,
    low_r1: Seq<T>,
    geq_r0: Seq<T>,
    geq_r1: Seq<T>,
    done: bool,
)
    requires
        obeys_cmp::<T>(),
        partitioned(input, lows, geqs, pivot),
        sort_post(c, lows, pre, log1, low_r0, low_r1, Seq::<T>::empty(), true),
        log2 == log1.push(pivot),
        c.accepts(log2),
        sort_post(c, geqs, log2, post, geq_r0, geq_r1, Seq::<T>::empty(), done),
    ensures
        sort_post(c, input, pre, post, geq_r1, low_r0, geq_r0, done),
{
    broadcast use vstd::seq_lib::group_to_multiset_ensures;
    broadcast use vstd::seq_lib::lemma_multiset_commutative;
    broadcast use vstd::multiset::group_multiset_axioms;

    lemma_order_laws::<T>();
    let d1 = log1.skip(pre.len() as int);
    let d3 = post.skip(log2.len() as int);
    let d = post.skip(pre.len() as int);
    let geq_rest = geq_r0 + geq_r1 + Seq::<T>::empty();
    let rest = geq_r1 + low_r0 + geq_r0;
    // The lower side completed: no leftovers, all of `lows` delivered.
    assert(d1.len() == lows.len());
    assert(low_r0.len() == 0 && low_r1.len() == 0);
    lemma_ms_empty((low_r0 + low_r1 + Seq::<T>::empty()));
    assert(d1.to_multiset() =~= lows.to_multiset());
    lemma_part_membership(d1, (low_r0 + low_r1 + Seq::<T>::empty()).to_multiset(), lows);
    lemma_part_membership(d3, geq_rest.to_multiset(), geqs);
    assert(geq_rest.to_multiset().add(d3.to_multiset()) =~= geqs.to_multiset());
    lemma_part_membership(geq_rest, d3.to_multiset(), geqs);
    // The whole delivery decomposes into the three phases.
    assert(post.take(log2.len() as int) == log2);
    assert(d =~= d1 + seq![pivot] + d3) by {
        assert forall|idx: int| 0 <= idx < d.len() implies d[idx] == (d1 + seq![pivot]
            + d3)[idx] by {
            if idx < d1.len() + 1 {
                assert(post[pre.len() + idx] == post.take(log2.len() as int)[pre.len() + idx]);
            }
        }
    }
    // Prefix bookkeeping.
    assert(post.take(pre.len() as int) =~= pre) by {
        assert forall|idx: int| 0 <= idx < pre.len() implies post[idx] == pre[idx] by {
            assert(post[idx] == post.take(log2.len() as int)[idx]);
            assert(log2[idx] == log1[idx]);
            assert(log1.take(pre.len() as int)[idx] == pre[idx]);
        }
    }
    // Order facts feeding sortedness and the leftover bound.
    assert forall|i: int| 0 <= i < d1.len() implies spec_le(#[trigger] d1[i], pivot) by {
        assert(lows.contains(d1[i]));
        let wi = choose|wi: int| 0 <= wi < lows.len() && lows[wi] == d1[i];
        assert(spec_lt(lows[wi], pivot));
    }
    assert forall|i: int| 0 <= i < d3.len() implies spec_le(pivot, #[trigger] d3[i]) by {
        assert(geqs.contains(d3[i]));
        let wi = choose|wi: int| 0 <= wi < geqs.len() && geqs[wi] == d3[i];
        assert(spec_le(pivot, geqs[wi]));
    }
    lemma_sorted_concat(d1, seq![pivot]);
    assert forall|i: int, j: int|
        0 <= i < (d1 + seq![pivot]).len() && 0 <= j < d3.len() implies spec_le(
        #[trigger] (d1 + seq![pivot])[i],
        #[trigger] d3[j],
    ) by {
        if i < d1.len() {
            assert(spec_le(d1[i], pivot));
        } else {
            assert((d1 + seq![pivot])[i] == pivot);
        }
    }
    lemma_sorted_concat(d1 + seq![pivot], d3);
    assert(sorted(d));
    // Multisets.
    assert(seq![pivot].to_multiset() =~= Multiset::<T>::empty().insert(pivot));
    assert(d.to_multiset().add(rest.to_multiset()) =~= input.to_multiset());
    // Everything delivered is below everything left over: the leftovers are
    // exactly leftovers of the greater-or-equal side.
    assert forall|i: int, j: int| 0 <= i < d.len() && 0 <= j < rest.len() implies spec_le(
        #[trigger] d[i],
        #[trigger] rest[j],
    ) by {
        let r = rest[j];
        assert(r == if j < geq_r1.len() {
            geq_rest[geq_r0.len() + j]
        } else {
            geq_rest[j - geq_r1.len()]
        });
        assert(geqs.contains(r));
        let wj = choose|wj: int| 0 <= wj < geqs.len() && geqs[wj] == r;
        assert(spec_le(pivot, geqs[wj]));
        if i < d1.len() {
            assert(spec_le(d[i], pivot));
        } else if i == d1.len() {
            assert(d[i] == pivot);
        } else {
            // A value from the greater-or-equal delivery; that side's own
            // contract bounds it by that side's leftovers.
            let gi = i - (d1.len() + 1);
            assert(d[i] == d3[gi]);
            let gr = if j < geq_r1.len() {
                geq_r0.len() + j
            } else {
                j - geq_r1.len()
            };
            assert(spec_le(d3[gi], geq_rest[gr]));
        }
    }
    // Intermediate answers: inside the lower run, at its completion, at the
    // pivot, and inside the greater-or-equal run.
    assert forall|n: int| pre.len() < n < post.len() implies c.accepts(
        #[trigger] post.take(n),
    ) by {
        if n < log1.len() {
            assert(post.take(n) =~= log1.take(n)) by {
                assert forall|idx: int| 0 <= idx < n implies post[idx] == log1[idx] by {
                    assert(post[idx] == post.take(log2.len() as int)[idx]);
                    assert(log2[idx] == log1[idx]);
                }
            }
            assert(c.accepts(log1.take(n)));
        } else if n == log1.len() {
            assert(post.take(n) =~= log1) by {
                assert forall|idx: int| 0 <= idx < n implies post[idx] == log1[idx] by {
                    assert(post[idx] == post.take(log2.len() as int)[idx]);
                    assert(log2[idx] == log1[idx]);
                }
            }
            assert(d1.len() > 0);
            assert(c.accepts(log1));
        } else if n == log2.len() {
            assert(post.take(n) =~= log2);
            assert(c.accepts(log2));
        } else {
            assert(c.accepts(post.take(n)));
        }
    }
    // Completion bookkeeping: the frame completes exactly when the
    // greater-or-equal side does.
    assert(d.len() == input.len() <==> d3.len() == geqs.len());
    if done {
        assert(d3.len() == geqs.len());
        if geqs.len() == 0 {
            assert(post =~= log2);
            assert(c.accepts(post));
        }
    }
}

/// Sort and deliver a side of at most two elements directly, with no buffer
/// manipulation: a compare-and-swap for two, a direct delivery for one.
fn sort_small<T: Ord, C: Consumer<T>>(side: Vec<T>, consumer: &mut C, k: &mut usize) -> (r: (
    Vec<T>,
    bool,
))
    requires
        obeys_cmp::<T>(),
        side.wf(),
        side@.len() <= 2,
        *old(k) == old(consumer).log().len(),
        *old(k) + side@.len() <= usize::MAX,
    ensures
        r.0.wf(),
        r.0.spec_capacity() == side.spec_capacity(),
        *final(k) == final(consumer).log().len(),
        forall|l: Seq<T>| final(consumer).accepts(l) == old(consumer).accepts(l),
        sort_post(
            *final(consumer),
            side@,
            old(consumer).log(),
            final(consumer).log(),
            r.0@,
            Seq::<T>::empty(),
            Seq::<T>::empty(),
            r.1,
        ),
{
    broadcast use vstd::seq_lib::group_to_multiset_ensures;
    broadcast use vstd::multiset::group_multiset_axioms;

    let ghost side0 = side@;
    let ghost pre = old(consumer).log();
    proof {
        side.lemma_wf();
    }
    let mut side = side;
    let len = side.len();
    if len == 0 {
        proof {
            let post = consumer.log();
            assert(post.skip(pre.len() as int) =~= Seq::<T>::empty());
            assert(post.take(pre.len() as int) =~= pre);
            assert(side@ + Seq::<T>::empty() + Seq::<T>::empty() =~= Seq::<T>::empty());
            lemma_ms_empty::<T>(side@ + Seq::<T>::empty() + Seq::<T>::empty());
            lemma_ms_empty::<T>(post.skip(pre.len() as int));
            lemma_ms_empty::<T>(side0);
            assert(post.skip(pre.len() as int).to_multiset().add(
                (side@ + Seq::<T>::empty() + Seq::<T>::empty()).to_multiset(),
            ) =~= side0.to_multiset());
        }
        return (side, true);
    }
    if len == 1 {
        let x = match side.pop() {
            Some(v) => v,
            None => vstd::pervasive::unreached(),
        };
        let cont = consumer.consume(*k, x);
        *k = *k + 1;
        proof {
            let post = consumer.log();
            assert(post == pre.push(x));
            assert(post.skip(pre.len() as int) =~= seq![x]);
            assert(post.take(pre.len() as int) =~= pre);
            assert(side@ + Seq::<T>::empty() + Seq::<T>::empty() =~= Seq::<T>::empty());
            lemma_ms_empty::<T>(side@ + Seq::<T>::empty() + Seq::<T>::empty());
            assert(seq![x] =~= Seq::<T>::empty().push(x));
            assert(side0 =~= Seq::<T>::empty().push(x));
            assert(post.skip(pre.len() as int).to_multiset().add(
                (side@ + Seq::<T>::empty() + Seq::<T>::empty()).to_multiset(),
            ) =~= side0.to_multiset());
        }
        return (side, cont);
    }
    // len == 2
    let b = match side.pop() {
        Some(v) => v,
        None => vstd::pervasive::unreached(),
    };
    let a = match side.pop() {
        Some(v) => v,
        None => vstd::pervasive::unreached(),
    };
    proof {
        lemma_order_laws::<T>();
        assert(side0 =~= Seq::<T>::empty().push(a).push(b));
    }
    let (small, big) = if lt(&b, &a) {
        (b, a)
    } else {
        (a, b)
    };
    proof {
        assert(spec_le(small, big));
        assert(side0.to_multiset() =~= Seq::<T>::empty().push(small).push(big).to_multiset());
    }
    let cont1 = consumer.consume(*k, small);
    *k = *k + 1;
    if !cont1 {
        side.push(big);
        proof {
            let post = consumer.log();
            assert(post == pre.push(small));
            assert(post.skip(pre.len() as int) =~= seq![small]);
            assert(post.take(pre.len() as int) =~= pre);
            let rest = side@ + Seq::<T>::empty() + Seq::<T>::empty();
            assert(rest =~= seq![big]);
            assert(seq![small] =~= Seq::<T>::empty().push(small));
            assert(seq![big] =~= Seq::<T>::empty().push(big));
            assert(post.skip(pre.len() as int).to_multiset().add(rest.to_multiset())
                =~= side0.to_multiset());
        }
        return (side, false);
    }
    let cont2 = consumer.consume(*k, big);
    *k = *k + 1;
    proof {
        let post = consumer.log();
        assert(post == pre.push(small).push(big));
        assert(post.skip(pre.len() as int) =~= seq![small, big]);
        assert(post.take(pre.len() as int) =~= pre);
        let rest = side@ + Seq::<T>::empty() + Seq::<T>::empty();
        assert(rest =~= Seq::<T>::empty());
        lemma_ms_empty::<T>(rest);
        assert(seq![small, big] =~= Seq::<T>::empty().push(small).push(big));
        assert(post.skip(pre.len() as int).to_multiset().add(rest.to_multiset())
            =~= side0.to_multiset());
        // The one intermediate call, which delivered `small`, answered true.
        assert forall|n: int| pre.len() < n < post.len() implies final(consumer).accepts(
            #[trigger] post.take(n),
        ) by {
            assert(n == pre.len() + 1);
            assert(post.take(n) =~= pre.push(small));
        }
        assert(sorted(post.skip(pre.len() as int))) by {
            let d = post.skip(pre.len() as int);
            assert(d[0] == small && d[1] == big && d.len() == 2);
        }
    }
    (side, cont2)
}

/// [`sort_post`] only mentions the consumer through its acceptance rule, so
/// it carries over to any consumer with the same rule — in particular to the
/// same consumer after it received further values.
proof fn lemma_sort_post_stable<T: PartialOrd, C: Consumer<T>>(
    c1: C,
    c2: C,
    input: Seq<T>,
    pre: Seq<T>,
    post: Seq<T>,
    r0: Seq<T>,
    r1: Seq<T>,
    r2: Seq<T>,
    completed: bool,
)
    requires
        sort_post(c1, input, pre, post, r0, r1, r2, completed),
        forall|l: Seq<T>| c2.accepts(l) == c1.accepts(l),
    ensures
        sort_post(c2, input, pre, post, r0, r1, r2, completed),
{
    assert forall|n: int| pre.len() < n < post.len() implies c2.accepts(
        #[trigger] post.take(n),
    ) by {
        assert(c1.accepts(post.take(n)));
    }
    assert(c2.accepts(post) == c1.accepts(post));
}

/// Sort and deliver one partition side, reusing `pool` (empty, with capacity
/// at least the side's length) as the raw capacity source for any deeper
/// recursion. Returns the side's buffer, the pool folded back into one
/// buffer, and whether delivery ran to completion.
fn sort_side<T: Ord, C: Consumer<T>>(
    side: Vec<T>,
    pool: Vec<T>,
    consumer: &mut C,
    k: &mut usize,
) -> (r: (Vec<T>, Vec<T>, bool))
    requires
        obeys_cmp::<T>(),
        side.wf(),
        pool.wf(),
        pool@.len() == 0,
        pool.spec_capacity() >= side@.len(),
        *old(k) == old(consumer).log().len(),
        *old(k) + side@.len() <= usize::MAX,
    ensures
        r.0.wf(),
        r.1.wf(),
        r.0.spec_capacity() == side.spec_capacity(),
        r.1.spec_capacity() == pool.spec_capacity(),
        *final(k) == final(consumer).log().len(),
        forall|l: Seq<T>| final(consumer).accepts(l) == old(consumer).accepts(l),
        sort_post(
            *final(consumer),
            side@,
            old(consumer).log(),
            final(consumer).log(),
            r.0@,
            r.1@,
            Seq::<T>::empty(),
            r.2,
        ),
    decreases side@.len() as int, 1int,
{
    let side_len = side.len();
    if side_len <= 2 {
        // Trivial sizes are delivered directly; splitting overhead is not
        // worth it below three elements.
        let (side_back, done) = sort_small(side, consumer, k);
        proof {
            assert(side_back@ + Seq::<T>::empty() + Seq::<T>::empty() =~= side_back@ + pool@
                + Seq::<T>::empty());
        }
        return (side_back, pool, done);
    }
    // Wrap the empty pool into a fixed double-ended buffer, split it through
    // a guard into the two auxiliary buffers the next level needs, recurse,
    // and fold the halves back into a single pool buffer.
    let lifos = FixedDequeLifos::new_from_empty_vec(pool);
    let mut guard = CrossVecPairGuard::new_from_lifos(lifos);
    let CrossVecPair(h0, h1) = guard.temp_take();
    let (side_back, h0b, h1b, done) = sort_frame(side, h0, h1, consumer, k);
    proof {
        assert(h0b@.len() + h1b@.len() <= side@.len());
    }
    let joined = guard.move_back_join_into(CrossVecPair(h0b, h1b));
    proof {
        assert(side_back@ + joined@ + Seq::<T>::empty() =~= side_back@ + h0b@ + h1b@);
    }
    (side_back, joined, done)
}

/// One frame of the recursion: pop the pivot off the end, drain the rest of
/// the input into the two sides, deliver the lower side, the pivot, then the
/// greater-or-equal side.
fn sort_frame<T: Ord, C: Consumer<T>>(
    input: Vec<T>,
    aux0: Vec<T>,
    aux1: Vec<T>,
    consumer: &mut C,
    k: &mut usize,
) -> (r: (Vec<T>, Vec<T>, Vec<T>, bool))
    requires
        obeys_cmp::<T>(),
        input.wf(),
        aux0.wf(),
        aux1.wf(),
        aux0@.len() == 0,
        aux1@.len() == 0,
        aux0.spec_capacity() >= input@.len(),
        aux1.spec_capacity() >= input@.len(),
        *old(k) == old(consumer).log().len(),
        *old(k) + input@.len() <= usize::MAX,
    ensures
        r.0.wf(),
        r.1.wf(),
        r.2.wf(),
        r.0.spec_capacity() == input.spec_capacity(),
        r.1.spec_capacity() == aux0.spec_capacity(),
        r.2.spec_capacity() == aux1.spec_capacity(),
        *final(k) == final(consumer).log().len(),
        forall|l: Seq<T>| final(consumer).accepts(l) == old(consumer).accepts(l),
        sort_post(
            *final(consumer),
            input@,
            old(consumer).log(),
            final(consumer).log(),
            r.0@,
            r.1@,
            r.2@,
            r.3,
        ),
    decreases input@.len() as int, 0int,
{
    broadcast use vstd::seq_lib::group_to_multiset_ensures;
    broadcast use vstd::multiset::group_multiset_axioms;

    let ghost input0 = input@;
    let ghost pre = old(consumer).log();
    let mut input = input;
    let mut aux0 = aux0;
    let mut aux1 = aux1;
    let n = input.len();
    if n == 0 {
        proof {
            assert(consumer.log().skip(pre.len() as int) =~= Seq::<T>::empty());
            assert(consumer.log().take(pre.len() as int) =~= pre);
            assert(input@ + aux0@ + aux1@ =~= Seq::<T>::empty());
            lemma_ms_empty::<T>(input@ + aux0@ + aux1@);
            lemma_ms_empty::<T>(consumer.log().skip(pre.len() as int));
            lemma_ms_empty::<T>(input0);
            assert(consumer.log().skip(pre.len() as int).to_multiset().add(
                (input@ + aux0@ + aux1@).to_multiset(),
            ) =~= input0.to_multiset());
        }
        return (input, aux0, aux1, true);
    }
    proof {
        input.lemma_wf();
        lemma_order_laws::<T>();
    }
    let ghost icap: usize = input.spec_capacity();
    let ghost a0cap: usize = aux0.spec_capacity();
    let ghost a1cap: usize = aux1.spec_capacity();
    // Pop the pivot off the end, so the remaining elements need not shift.
    let pivot = match input.pop() {
        Some(p) => p,
        None => vstd::pervasive::unreached(),
    };
    let ghost drained = input0.drop_last();
    proof {
        assert(input0 =~= drained.push(pivot));
        assert(input0.to_multiset() =~= drained.to_multiset().insert(pivot));
    }
    // Drain the input from the end into the two sides.
    while input.len() > 0
        invariant
            obeys_cmp::<T>(),
            input.wf(),
            aux0.wf(),
            aux1.wf(),
            input.spec_capacity() == icap,
            aux0.spec_capacity() == a0cap,
            aux1.spec_capacity() == a1cap,
            a0cap >= input0.len(),
            a1cap >= input0.len(),
            input0.len() == drained.len() + 1,
            input@.len() + aux0@.len() + aux1@.len() == drained.len(),
            aux0@.to_multiset().add(aux1@.to_multiset()).add(input@.to_multiset())
                == drained.to_multiset(),
            forall|i: int| 0 <= i < aux0@.len() ==> spec_lt(#[trigger] aux0@[i], pivot),
            forall|i: int| 0 <= i < aux1@.len() ==> spec_le(pivot, #[trigger] aux1@[i]),
        decreases input@.len(),
    {
        broadcast use vstd::seq_lib::group_to_multiset_ensures;
        broadcast use vstd::multiset::group_multiset_axioms;

        let ghost input_before = input@;
        let x = match input.pop() {
            Some(v) => v,
            None => vstd::pervasive::unreached(),
        };
        proof {
            assert(input_before =~= input@.push(x));
            assert(input_before.to_multiset() =~= input@.to_multiset().insert(x));
        }
        if lt(&x, &pivot) {
            aux0.push(x);
            proof {
                assert(aux0@.to_multiset().add(aux1@.to_multiset()).add(input@.to_multiset())
                    =~= drained.to_multiset());
            }
        } else {
            proof {
                lemma_order_laws::<T>();
                assert(spec_le(pivot, x));
            }
            aux1.push(x);
            proof {
                assert(aux0@.to_multiset().add(aux1@.to_multiset()).add(input@.to_multiset())
                    =~= drained.to_multiset());
            }
        }
    }
    let ghost lows = aux0@;
    let ghost geqs = aux1@;
    proof {
        lemma_ms_empty(input@);
        assert(lows.to_multiset().add(geqs.to_multiset()) =~= drained.to_multiset());
        assert(input0.to_multiset() =~= lows.to_multiset().add(geqs.to_multiset()).insert(pivot));
        assert(partitioned(input0, lows, geqs, pivot));
    }
    // Deliver the lower side first, reusing the drained input as the pool.
    let (aux0b, pool1, done_low) = sort_side(aux0, input, consumer, k);
    let ghost c_low = *consumer;
    let ghost log1 = consumer.log();
    if !done_low {
        let ghost pool1v = pool1@;
        let mut pool1 = pool1;
        // The pivot was not delivered; push it back into the reconstituted
        // pool so it is not lost.
        pool1.push(pivot);
        proof {
            lemma_frame_low_abort(c_low, input0, lows, geqs, pivot, pre, log1, aux0b@, pool1v);
        }
        return (pool1, aux0b, aux1, false);
    }
    proof {
        // The lower side completed, so its buffer and the pool came back
        // empty.
        assert(log1.skip(pre.len() as int).len() == lows.len());
        assert(aux0b@.len() == 0 && pool1@.len() == 0);
    }
    // Deliver the pivot.
    let cont = consumer.consume(*k, pivot);
    *k = *k + 1;
    let ghost log2 = consumer.log();
    if !cont {
        proof {
            lemma_sort_post_stable(
                c_low,
                *consumer,
                lows,
                pre,
                log1,
                aux0b@,
                pool1@,
                Seq::<T>::empty(),
                true,
            );
            lemma_frame_pivot_abort(
                *consumer,
                input0,
                lows,
                geqs,
                pivot,
                pre,
                log1,
                log2,
                aux0b@,
                pool1@,
            );
        }
        return (pool1, aux0b, aux1, false);
    }
    // Deliver the greater-or-equal side, with the rejoined pool as capacity
    // source.
    let ghost pool1v2 = pool1@;
    let (aux1b, pool2, done_geq) = sort_side(aux1, pool1, consumer, k);
    proof {
        lemma_sort_post_stable(
            c_low,
            *consumer,
            lows,
            pre,
            log1,
            aux0b@,
            pool1v2,
            Seq::<T>::empty(),
            true,
        );
        lemma_frame_complete(
            *consumer,
            input0,
            lows,
            geqs,
            pivot,
            pre,
            log1,
            log2,
            consumer.log(),
            aux0b@,
            pool1v2,
            aux1b@,
            pool2@,
            done_geq,
        );
    }
    (pool2, aux0b, aux1b, done_geq)
}

/// Sort `input`, delivering every element in ascending order to `consumer`,
/// which is called once per element with `seq_index` running `0, 1, 2, ...`
/// (it must start with an empty log). Both auxiliary buffers must be empty
/// and at least as big as the input.
///
/// If every call answers true the sort completes: the consumer's log is a
/// non-decreasing permutation of the input and the three returned buffers
/// are empty. If a call answers false the sort stops immediately after it:
/// the log holds the smallest elements, in order, through the declined one,
/// and the returned buffers together hold exactly the elements never
/// delivered — as a multiset; how they are distributed over the three
/// buffers is not specified. The returned buffers keep the capacities of the
/// buffers handed in; no further backing buffer is created at any recursion
/// depth, the three supplied here are split and rejoined instead.
pub fn sort<T: Ord, C: Consumer<T>>(
    input: Vec<T>,
    aux0: Vec<T>,
    aux1: Vec<T>,
    consumer: &mut C,
) -> (r: (Vec<T>, Vec<T>, Vec<T>, bool))
    requires
        obeys_cmp::<T>(),
        input.wf(),
        aux0.wf(),
        aux1.wf(),
        aux0@.len() == 0,
        aux1@.len() == 0,
        aux0.spec_capacity() >= input@.len(),
        aux1.spec_capacity() >= input@.len(),
        old(consumer).log().len() == 0,
    ensures
        r.0.wf(),
        r.1.wf(),
        r.2.wf(),
        r.0.spec_capacity() == input.spec_capacity(),
        r.1.spec_capacity() == aux0.spec_capacity(),
        r.2.spec_capacity() == aux1.spec_capacity(),
        forall|l: Seq<T>| final(consumer).accepts(l) == old(consumer).accepts(l),
        sort_post(
            *final(consumer),
            input@,
            Seq::<T>::empty(),
            final(consumer).log(),
            r.0@,
            r.1@,
            r.2@,
            r.3,
        ),
{
    proof {
        assert(old(consumer).log() =~= Seq::<T>::empty());
    }
    let mut k: usize = 0;
    sort_frame(input, aux0, aux1, consumer, &mut k)
}

/// Permutation and order: when the consumer accepted everything, its log is
/// exactly the input rearranged into non-decreasing order, and nothing is
/// left in any returned buffer. (That each call carried the next index
/// `0, 1, ..., n-1` is part of the [`Consumer`] contract itself.)
pub proof fn lemma_sort_complete_permutation<T: Ord, C: Consumer<T>>(
    c: C,
    input: Seq<T>,
    post_log: Seq<T>,
    r0: Seq<T>,
    r1: Seq<T>,
    r2: Seq<T>,
)
    requires
        sort_post(c, input, Seq::<T>::empty(), post_log, r0, r1, r2, true),
    ensures
        sorted(post_log),
        post_log.to_multiset() == input.to_multiset(),
        post_log.len() == input.len(),
        r0.len() == 0,
        r1.len() == 0,
        r2.len() == 0,
{
    broadcast use vstd::seq_lib::group_to_multiset_ensures;
    broadcast use vstd::multiset::group_multiset_axioms;

    let d = post_log.skip(0);
    assert(d =~= post_log);
    assert((r0 + r1 + r2).len() == 0);
    lemma_ms_empty(r0 + r1 + r2);
    assert(post_log.to_multiset() =~= input.to_multiset());
}

/// Early stop exactness: when the consumer declined its `k`-th call
/// (0-indexed), its log holds exactly the `k + 1` smallest elements in
/// ascending order, every call before the last answered true, and the three
/// returned buffers together hold, as a multiset, exactly the elements never
/// delivered.
pub proof fn lemma_sort_early_stop_exactness<T: Ord, C: Consumer<T>>(
    c: C,
    input: Seq<T>,
    post_log: Seq<T>,
    r0: Seq<T>,
    r1: Seq<T>,
    r2: Seq<T>,
)
    requires
        sort_post(c, input, Seq::<T>::empty(), post_log, r0, r1, r2, false),
    ensures
        0 < post_log.len() <= input.len(),
        sorted(post_log),
        post_log.to_multiset().add((r0 + r1 + r2).to_multiset()) == input.to_multiset(),
        post_log.len() + (r0 + r1 + r2).len() == input.len(),
        forall|i: int, j: int|
            0 <= i < post_log.len() && 0 <= j < (r0 + r1 + r2).len() ==> spec_le(
                #[trigger] post_log[i],
                #[trigger] (r0 + r1 + r2)[j],
            ),
        !c.accepts(post_log),
        forall|n: int| 0 < n < post_log.len() ==> c.accepts(#[trigger] post_log.take(n)),
{
    let d = post_log.skip(0);
    assert(d =~= post_log);
}

/// Degenerate input: an empty input completes with no consumer call at all.
pub proof fn lemma_sort_empty_input<T: Ord, C: Consumer<T>>(
    c: C,
    input: Seq<T>,
    post_log: Seq<T>,
    r0: Seq<T>,
    r1: Seq<T>,
    r2: Seq<T>,
    completed: bool,
)
    requires
        sort_post(c, input, Seq::<T>::empty(), post_log, r0, r1, r2, completed),
        input.len() == 0,
    ensures
        completed,
        post_log.len() == 0,
{
    let d = post_log.skip(0);
    assert(d =~= post_log);
}

} // verus!
