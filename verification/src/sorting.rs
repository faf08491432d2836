//! Sorting the indices of the points into the order of the sweep.

use vstd::prelude::*;
use vstd::multiset::{group_multiset_axioms, lemma_multiset_empty_len};
use vstd::seq_lib::{
    group_to_multiset_ensures, lemma_multiset_commutative, to_multiset_build, to_multiset_len,
};
use crate::point::Point;

verus! {

/// The point `i` comes before the point `j` in the sweep: it lies further
/// left, or at the same x coordinate and has the smaller index.
pub open spec fn before(points: Seq<Point>, i: int, j: int) -> bool {
    points[i].x < points[j].x || (points[i].x == points[j].x && i < j)
}

/// The listed points come in the order of the sweep.
pub open spec fn in_sweep_order(points: Seq<Point>, order: Seq<usize>) -> bool {
    forall|a: int, b: int|
        0 <= a < b < order.len() ==> before(
            points,
            #[trigger] order[a] as int,
            #[trigger] order[b] as int,
        )
}

/// `order` lists each of the indices below `n` exactly once.
pub open spec fn lists_each_index_once(order: Seq<usize>, n: int) -> bool {
    &&& order.len() == n
    &&& forall|k: int| 0 <= k < order.len() ==> 0 <= #[trigger] order[k] < n
    &&& forall|k: int, l: int|
        0 <= k < l < order.len() ==> #[trigger] order[k] != #[trigger] order[l]
    &&& forall|i: usize| 0 <= i < n ==> #[trigger] order.contains(i)
}

/// The indices from `lo` up to `hi`, in rising order.
spec fn index_range(lo: int, hi: int) -> Seq<usize> {
    Seq::new((hi - lo) as nat, |k: int| (lo + k) as usize)
}

/// Every element of `order` is at least `lo` and less than `hi`.
spec fn all_within(order: Seq<usize>, lo: int, hi: int) -> bool {
    forall|k: int| 0 <= k < order.len() ==> lo <= #[trigger] order[k] < hi
}

proof fn lemma_index_range_joins(lo: int, mid: int, hi: int)
    requires
        0 <= lo <= mid <= hi <= usize::MAX,
    ensures
        index_range(lo, hi).to_multiset() == index_range(lo, mid).to_multiset().add(
            index_range(mid, hi).to_multiset(),
        ),
{
    assert(index_range(lo, hi) =~= index_range(lo, mid) + index_range(mid, hi));
    lemma_multiset_commutative(index_range(lo, mid), index_range(mid, hi));
}

proof fn lemma_permutation_of_range(order: Seq<usize>, n: int)
    requires
        0 <= n <= usize::MAX,
        order.to_multiset() == index_range(0, n).to_multiset(),
    ensures
        lists_each_index_once(order, n),
{
    broadcast use group_to_multiset_ensures;

    let range = index_range(0, n);
    assert(order.len() == n) by {
        assert(order.to_multiset().len() == range.to_multiset().len());
    }
    assert forall|k: int| 0 <= k < order.len() implies 0 <= #[trigger] order[k] < n by {
        assert(range.to_multiset().count(order[k]) > 0);
        let w = choose|w: int| 0 <= w < range.len() && range[w] == order[k];
    }
    assert forall|i: usize| 0 <= i < n implies #[trigger] order.contains(i) by {
        assert(range[i as int] == i);
        assert(order.to_multiset().count(i) > 0);
    }
    range.lemma_multiset_has_no_duplicates();
    order.lemma_multiset_has_no_duplicates_conv();
}

/// Merges two lists of indices, each in the order of the sweep, into one.
/// The indices of `left` are those from `lo` up to `mid`, the indices of
/// `right` those from `mid` up to `hi`.
fn merge(
    points: &Vec<Point>,
    left: &Vec<usize>,
    right: &Vec<usize>,
    Ghost(lo): Ghost<int>,
    Ghost(mid): Ghost<int>,
    Ghost(hi): Ghost<int>,
) -> (out: Vec<usize>)
    requires
        0 <= lo <= mid <= hi <= points.len(),
        all_within(left@, lo, mid),
        all_within(right@, mid, hi),
        in_sweep_order(points@, left@),
        in_sweep_order(points@, right@),
    ensures
        all_within(out@, lo, hi),
        in_sweep_order(points@, out@),
        out@.to_multiset() == left@.to_multiset().add(right@.to_multiset()),
{
    let mut out: Vec<usize> = Vec::new();
    let mut a: usize = 0;
    let mut b: usize = 0;
    proof {
        broadcast use group_multiset_axioms;

        assert(left@.take(0) =~= Seq::<usize>::empty());
        assert(right@.take(0) =~= Seq::<usize>::empty());
        to_multiset_len(Seq::<usize>::empty());
        lemma_multiset_empty_len(Seq::<usize>::empty().to_multiset());
        assert(out@.to_multiset() =~= left@.take(0).to_multiset().add(
            right@.take(0).to_multiset(),
        ));
    }
    while a < left.len() || b < right.len()
        invariant
            a <= left.len(),
            b <= right.len(),
            0 <= lo <= mid <= hi <= points.len(),
            all_within(left@, lo, mid),
            all_within(right@, mid, hi),
            in_sweep_order(points@, left@),
            in_sweep_order(points@, right@),
            all_within(out@, lo, hi),
            in_sweep_order(points@, out@),
            out@.to_multiset() == left@.take(a as int).to_multiset().add(
                right@.take(b as int).to_multiset(),
            ),
            forall|k: int|
                0 <= k < out.len() && a < left.len() ==> before(
                    points@,
                    #[trigger] out@[k] as int,
                    left@[a as int] as int,
                ),
            forall|k: int|
                0 <= k < out.len() && b < right.len() ==> before(
                    points@,
                    #[trigger] out@[k] as int,
                    right@[b as int] as int,
                ),
        decreases left.len() - a + right.len() - b,
    {
        let ghost earlier = out@;
        let from_left: bool = if a == left.len() {
            false
        } else if b == right.len() {
            true
        } else {
            points[left[a]].x <= points[right[b]].x
        };
        if from_left {
            let i: usize = left[a];
            out.push(i);
            proof {
                broadcast use group_multiset_axioms;

                assert(left@.take(a + 1) =~= left@.take(a as int).push(i));
                to_multiset_build(earlier, i);
                to_multiset_build(left@.take(a as int), i);
                assert(out@.to_multiset() =~= left@.take(a + 1).to_multiset().add(
                    right@.take(b as int).to_multiset(),
                ));
                assert forall|k: int, l: int| 0 <= k < l < out.len() implies before(
                    points@,
                    #[trigger] out@[k] as int,
                    #[trigger] out@[l] as int,
                ) by {
                    if l < earlier.len() {
                    }
                }
                assert forall|k: int| 0 <= k < out.len() && a + 1 < left.len() implies before(
                    points@,
                    #[trigger] out@[k] as int,
                    left@[a + 1] as int,
                ) by {
                    if k < earlier.len() {
                    }
                }
                assert forall|k: int| 0 <= k < out.len() && b < right.len() implies before(
                    points@,
                    #[trigger] out@[k] as int,
                    right@[b as int] as int,
                ) by {
                    if k < earlier.len() {
                    }
                }
            }
            a = a + 1;
        } else {
            let i: usize = right[b];
            out.push(i);
            proof {
                broadcast use group_multiset_axioms;

                assert(right@.take(b + 1) =~= right@.take(b as int).push(i));
                to_multiset_build(earlier, i);
                to_multiset_build(right@.take(b as int), i);
                assert(out@.to_multiset() =~= left@.take(a as int).to_multiset().add(
                    right@.take(b + 1).to_multiset(),
                ));
                assert forall|k: int, l: int| 0 <= k < l < out.len() implies before(
                    points@,
                    #[trigger] out@[k] as int,
                    #[trigger] out@[l] as int,
                ) by {
                    if l < earlier.len() {
                    }
                }
                assert forall|k: int| 0 <= k < out.len() && b + 1 < right.len() implies before(
                    points@,
                    #[trigger] out@[k] as int,
                    right@[b + 1] as int,
                ) by {
                    if k < earlier.len() {
                    }
                }
                assert forall|k: int| 0 <= k < out.len() && a < left.len() implies before(
                    points@,
                    #[trigger] out@[k] as int,
                    left@[a as int] as int,
                ) by {
                    if k < earlier.len() {
                    }
                }
            }
            b = b + 1;
        }
    }
    proof {
        assert(left@.take(a as int) =~= left@);
        assert(right@.take(b as int) =~= right@);
    }
    out
}

/// The indices from `lo` up to `hi` in the order of the sweep: a merge sort.
fn sort_range(points: &Vec<Point>, lo: usize, hi: usize) -> (out: Vec<usize>)
    requires
        lo <= hi <= points.len(),
    ensures
        all_within(out@, lo as int, hi as int),
        in_sweep_order(points@, out@),
        out@.to_multiset() == index_range(lo as int, hi as int).to_multiset(),
    decreases hi - lo,
{
    if hi - lo <= 1 {
        let mut out: Vec<usize> = Vec::new();
        if hi - lo == 1 {
            out.push(lo);
        }
        assert(out@ =~= index_range(lo as int, hi as int));
        out
    } else {
        let mid: usize = lo + (hi - lo) / 2;
        let left = sort_range(points, lo, mid);
        let right = sort_range(points, mid, hi);
        proof {
            lemma_index_range_joins(lo as int, mid as int, hi as int);
        }
        merge(points, &left, &right, Ghost(lo as int), Ghost(mid as int), Ghost(hi as int))
    }
}

/// The indices of the points in the order of the sweep: from left to right,
/// points at one x coordinate by rising index.
pub fn sort_by_x(points: &Vec<Point>) -> (order: Vec<usize>)
    ensures
        lists_each_index_once(order@, points.len() as int),
        in_sweep_order(points@, order@),
{
    let order = sort_range(points, 0, points.len());
    proof {
        lemma_permutation_of_range(order@, points.len() as int);
    }
    order
}

} // verus!
