//! The broad phase of collision detection: a sweep along the x axis that
//! finds every pair of points whose x coordinates are close.
//!
//! Only the x axis is looked at. Whether two points of a pair are close in
//! the plane is decided later, when the pairs are resolved.

use vstd::prelude::*;
use crate::point::Point;
use crate::sorting::{before, in_sweep_order, lists_each_index_once, sort_by_x};

verus! {

/// `i` and `j` are two different points of `points` whose x coordinates are
/// at most `d` apart.
pub open spec fn near(points: Seq<Point>, i: int, j: int, d: int) -> bool {
    &&& 0 <= i < points.len()
    &&& 0 <= j < points.len()
    &&& i != j
    &&& -d <= points[i].x - points[j].x <= d
}

/// The pair `p` is reported before the pair `q`: the sweep reaches the
/// second point of `p` before that of `q`, or the two are one point and the
/// sweep reaches the first point of `p` before that of `q`.
pub open spec fn pair_before(points: Seq<Point>, p: (usize, usize), q: (usize, usize)) -> bool {
    before(points, p.1 as int, q.1 as int) || (p.1 == q.1 && before(
        points,
        p.0 as int,
        q.0 as int,
    ))
}

/// `pairs` is what the sweep reports for `points` at the distance `d`:
/// every listed pair is near, with the point that the sweep reaches first in
/// the first place; the pairs come in the order in which the sweep reports
/// them; and every near pair is listed.
pub open spec fn is_detection(points: Seq<Point>, d: int, pairs: Seq<(usize, usize)>) -> bool {
    &&& forall|k: int|
        0 <= k < pairs.len() ==> {
            &&& near(points, (#[trigger] pairs[k]).0 as int, pairs[k].1 as int, d)
            &&& before(points, pairs[k].0 as int, pairs[k].1 as int)
        }
    &&& forall|k: int, l: int|
        0 <= k < l < pairs.len() ==> pair_before(points, #[trigger] pairs[k], #[trigger] pairs[l])
    &&& forall|i: usize, j: usize|
        near(points, i as int, j as int, d) && before(points, i as int, j as int)
            ==> #[trigger] pairs.contains((i, j))
}

/// The listed pairs, each in both orders.
pub open spec fn pair_set(pairs: Seq<(usize, usize)>) -> Set<(usize, usize)> {
    Set::new(|p: (usize, usize)| pairs.contains(p) || pairs.contains((p.1, p.0)))
}

/// The pairs that a comparison of every point with every other finds.
pub open spec fn all_near_pairs(points: Seq<Point>, d: int) -> Set<(usize, usize)> {
    Set::new(|p: (usize, usize)| near(points, p.0 as int, p.1 as int, d))
}

/// The sweep finds the same pairs as a comparison of every point with every
/// other: read as a set of unordered pairs, a detection is the set of all
/// near pairs.
pub proof fn lemma_detection_is_all_near_pairs(
    points: Seq<Point>,
    d: int,
    pairs: Seq<(usize, usize)>,
)
    requires
        is_detection(points, d, pairs),
    ensures
        pair_set(pairs) == all_near_pairs(points, d),
{
    assert forall|p: (usize, usize)| pair_set(pairs).contains(p) <==> all_near_pairs(
        points,
        d,
    ).contains(p) by {
        if pairs.contains(p) {
            let k = choose|k: int| 0 <= k < pairs.len() && pairs[k] == p;
            assert(near(points, pairs[k].0 as int, pairs[k].1 as int, d));
        }
        if pairs.contains((p.1, p.0)) {
            let k = choose|k: int| 0 <= k < pairs.len() && pairs[k] == (p.1, p.0);
            assert(near(points, pairs[k].0 as int, pairs[k].1 as int, d));
        }
        if near(points, p.0 as int, p.1 as int, d) {
            if before(points, p.0 as int, p.1 as int) {
                assert(pairs.contains((p.0, p.1)));
            } else {
                assert(near(points, p.1 as int, p.0 as int, d));
                assert(before(points, p.1 as int, p.0 as int));
                assert(pairs.contains((p.1, p.0)));
            }
        }
    }
    assert(pair_set(pairs) =~= all_near_pairs(points, d));
}

/// Two detections agree on their first `k` pairs.
proof fn lemma_detections_agree(
    points: Seq<Point>,
    d: int,
    first: Seq<(usize, usize)>,
    second: Seq<(usize, usize)>,
    k: int,
)
    requires
        is_detection(points, d, first),
        is_detection(points, d, second),
        0 <= k <= first.len(),
    ensures
        k <= second.len(),
        forall|i: int| 0 <= i < k ==> first[i] == second[i],
    decreases k,
{
    if k > 0 {
        lemma_detections_agree(points, d, first, second, k - 1);
        let p = first[k - 1];
        assert(near(points, p.0 as int, p.1 as int, d) && before(points, p.0 as int, p.1 as int));
        assert(second.contains((p.0, p.1)));
        let l = choose|l: int| 0 <= l < second.len() && second[l] == p;
        if l < k - 1 {
            assert(first[l] == second[l]);
            assert(pair_before(points, first[l], first[k - 1]));
        }
        let q = second[k - 1];
        assert(near(points, q.0 as int, q.1 as int, d) && before(points, q.0 as int, q.1 as int));
        assert(first.contains((q.0, q.1)));
        let m = choose|m: int| 0 <= m < first.len() && first[m] == q;
        if m < k - 1 {
            assert(first[m] == second[m]);
            assert(pair_before(points, second[m], second[k - 1]));
        }
        if l > k - 1 && m > k - 1 {
            assert(pair_before(points, second[k - 1], second[l]));
            assert(pair_before(points, first[k - 1], first[m]));
        }
    }
}

/// The points and the distance decide what the sweep reports: there is
/// only one detection.
pub proof fn lemma_detection_is_unique(
    points: Seq<Point>,
    d: int,
    first: Seq<(usize, usize)>,
    second: Seq<(usize, usize)>,
)
    requires
        is_detection(points, d, first),
        is_detection(points, d, second),
    ensures
        first == second,
{
    lemma_detections_agree(points, d, first, second, first.len() as int);
    lemma_detections_agree(points, d, second, first, second.len() as int);
    assert(first =~= second);
}

/// The x coordinate of the point that `order` lists at position `k`.
spec fn key(points: Seq<Point>, order: Seq<usize>, k: int) -> int {
    points[order[k] as int].x as int
}

/// The x coordinates of the listed points never decrease along `order`.
spec fn ascending(points: Seq<Point>, order: Seq<usize>) -> bool {
    forall|a: int, b: int|
        0 <= a <= b < order.len() ==> #[trigger] key(points, order, a) <= #[trigger] key(
            points,
            order,
            b,
        )
}

proof fn lemma_sweep_order_ascends(points: Seq<Point>, order: Seq<usize>)
    requires
        in_sweep_order(points, order),
    ensures
        ascending(points, order),
{
    assert forall|a: int, b: int| 0 <= a <= b < order.len() implies #[trigger] key(
        points,
        order,
        a,
    ) <= #[trigger] key(points, order, b) by {
        if a < b {
            assert(before(points, order[a] as int, order[b] as int));
        }
    }
}

/// The state of a sweep that has passed the first `k` positions of `order`:
/// `places[l]` holds the two positions in `order` of the points of
/// `pairs[l]`.
spec fn swept(
    points: Seq<Point>,
    order: Seq<usize>,
    d: int,
    pairs: Seq<(usize, usize)>,
    places: Seq<(int, int)>,
    k: int,
) -> bool {
    &&& places.len() == pairs.len()
    &&& forall|l: int|
        0 <= l < places.len() ==> {
            &&& 0 <= (#[trigger] places[l]).0 < places[l].1 < k
            &&& pairs[l] == (order[places[l].0], order[places[l].1])
            &&& key(points, order, places[l].1) - key(points, order, places[l].0) <= d
        }
    &&& forall|l: int, m: int|
        0 <= l < m < places.len() ==> {
            ||| (#[trigger] places[l]).1 < (#[trigger] places[m]).1
            ||| (places[l].1 == places[m].1 && places[l].0 < places[m].0)
        }
    &&& forall|a: int, b: int|
        0 <= a < b < k && key(points, order, b) - key(points, order, a) <= d
            ==> #[trigger] places.contains((a, b))
}

/// A finished sweep is a detection.
proof fn lemma_swept_is_detection(
    points: Seq<Point>,
    order: Seq<usize>,
    d: int,
    pairs: Seq<(usize, usize)>,
    places: Seq<(int, int)>,
)
    requires
        lists_each_index_once(order, points.len() as int),
        in_sweep_order(points, order),
        swept(points, order, d, pairs, places, order.len() as int),
    ensures
        is_detection(points, d, pairs),
{
    lemma_sweep_order_ascends(points, order);
    assert forall|k: int| 0 <= k < pairs.len() implies {
        &&& near(points, (#[trigger] pairs[k]).0 as int, pairs[k].1 as int, d)
        &&& before(points, pairs[k].0 as int, pairs[k].1 as int)
    } by {
        let (a, b) = places[k];
        assert(key(points, order, a) <= key(points, order, b));
        assert(before(points, order[a] as int, order[b] as int));
    }
    assert forall|k: int, l: int| 0 <= k < l < pairs.len() implies pair_before(
        points,
        #[trigger] pairs[k],
        #[trigger] pairs[l],
    ) by {
        let (a, b) = places[k];
        let (a2, b2) = places[l];
        assert(places[k].1 < places[l].1 || (places[k].1 == places[l].1 && places[k].0
            < places[l].0));
        if b < b2 {
            assert(before(points, order[b] as int, order[b2] as int));
        } else {
            assert(before(points, order[a] as int, order[a2] as int));
        }
    }
    assert forall|i: usize, j: usize|
        near(points, i as int, j as int, d) && before(
            points,
            i as int,
            j as int,
        ) implies #[trigger] pairs.contains((i, j)) by {
        assert(order.contains(i));
        assert(order.contains(j));
        let a = choose|a: int| 0 <= a < order.len() && order[a] == i;
        let b = choose|b: int| 0 <= b < order.len() && order[b] == j;
        if b < a {
            assert(before(points, order[b] as int, order[a] as int));
        }
        assert(a < b);
        assert(key(points, order, b) - key(points, order, a) <= d);
        assert(places.contains((a, b)));
        let l = choose|l: int| 0 <= l < places.len() && places[l] == (a, b);
        assert(pairs[l] == (i, j));
    }
}

/// Drops from the active set the points that the sweep has left behind:
/// those whose x coordinate, moved right by `d`, is left of `front`. The
/// active set is the stretch of `order` from `start` up to `k`; what is
/// kept is the stretch from the returned position up to `k`.
fn prune(
    points: &Vec<Point>,
    active: &Vec<usize>,
    front: i64,
    d: i64,
    Ghost(order): Ghost<Seq<usize>>,
    Ghost(start): Ghost<int>,
    Ghost(k): Ghost<int>,
) -> (r: (Vec<usize>, Ghost<int>))
    requires
        lists_each_index_once(order, points.len() as int),
        ascending(points@, order),
        0 <= start <= k <= order.len(),
        active@ == order.subrange(start, k),
    ensures
        start <= r.1@ <= k,
        r.0@ == order.subrange(r.1@, k),
        forall|m: int| start <= m < r.1@ ==> #[trigger] key(points@, order, m) + d < front,
        forall|m: int| r.1@ <= m < k ==> #[trigger] key(points@, order, m) + d >= front,
{
    let mut kept: Vec<usize> = Vec::new();
    let ghost mut first: int = start;
    let mut t: usize = 0;
    while t < active.len()
        invariant
            lists_each_index_once(order, points.len() as int),
            ascending(points@, order),
            0 <= start <= k <= order.len(),
            active@ == order.subrange(start, k),
            t <= active.len(),
            start <= first <= start + t,
            kept@ == order.subrange(first, start + t),
            forall|m: int| start <= m < first ==> #[trigger] key(points@, order, m) + d < front,
            forall|m: int|
                first <= m < start + t ==> #[trigger] key(points@, order, m) + d >= front,
        decreases active.len() - t,
    {
        let j: usize = active[t];
        assert(j == order[start + t]);
        assert(points@[j as int].x == key(points@, order, start + t));
        if points[j].x as i128 + d as i128 >= front as i128 {
            kept.push(j);
            assert(kept@ =~= order.subrange(first, start + t + 1));
        } else {
            proof {
                if first < start + t {
                    assert(key(points@, order, first) + d >= front);
                    assert(key(points@, order, first) <= key(points@, order, start + t));
                }
                first = start + t + 1;
                assert(kept@ =~= order.subrange(first, start + t + 1));
            }
        }
        t = t + 1;
    }
    (kept, Ghost(first))
}

/// Finds the pairs of points whose x coordinates are at most
/// `interaction_distance` apart, by a sweep: the points are visited from
/// left to right; the active set holds the visited points that a later one
/// can still reach; each point is paired with every active point in reach
/// and then becomes active itself.
pub fn detect(points: &Vec<Point>, interaction_distance: i64) -> (pairs: Vec<(usize, usize)>)
    ensures
        is_detection(points@, interaction_distance as int, pairs@),
{
    let d: i64 = interaction_distance;
    let order: Vec<usize> = sort_by_x(points);
    let mut pairs: Vec<(usize, usize)> = Vec::new();
    let mut active: Vec<usize> = Vec::new();
    let ghost mut places: Seq<(int, int)> = Seq::empty();
    let ghost mut start: int = 0;
    let mut k: usize = 0;
    proof {
        lemma_sweep_order_ascends(points@, order@);
        assert(active@ =~= order@.subrange(0, 0));
    }
    while k < order.len()
        invariant
            lists_each_index_once(order@, points.len() as int),
            in_sweep_order(points@, order@),
            ascending(points@, order@),
            k <= order.len(),
            0 <= start <= k,
            active@ == order@.subrange(start, k as int),
            swept(points@, order@, d as int, pairs@, places, k as int),
            forall|m: int, b: int|
                0 <= m < start && k <= b < order.len() ==> #[trigger] key(points@, order@, m) + d
                    < #[trigger] key(points@, order@, b),
        decreases order.len() - k,
    {
        let i: usize = order[k];
        let xi: i64 = points[i].x;
        assert(xi == key(points@, order@, k as int));
        let ghost old_start = start;
        let (kept, Ghost(first)) = prune(
            points,
            &active,
            xi,
            d,
            Ghost(order@),
            Ghost(start),
            Ghost(k as int),
        );
        active = kept;
        proof {
            start = first;
            assert forall|m: int, b: int| 0 <= m < start && k <= b < order.len() implies #[trigger] key(
                points@,
                order@,
                m,
            ) + d < #[trigger] key(points@, order@, b) by {
                assert(key(points@, order@, k as int) <= key(points@, order@, b));
                if m >= old_start {
                    assert(key(points@, order@, m) + d < xi);
                } else {
                    assert(key(points@, order@, m) + d < key(points@, order@, k as int));
                }
            }
        }
        let ghost old_pairs = pairs@;
        let ghost old_places = places;
        let mut t: usize = 0;
        while t < active.len()
            invariant
                lists_each_index_once(order@, points.len() as int),
                ascending(points@, order@),
                k < order.len(),
                i == order@[k as int],
                xi == key(points@, order@, k as int),
                0 <= start <= k,
                active@ == order@.subrange(start, k as int),
                t <= active.len(),
                forall|m: int| start <= m < k ==> #[trigger] key(points@, order@, m) + d >= xi,
                pairs@ == old_pairs + Seq::new(
                    t as nat,
                    |u: int| (order@[start + u], order@[k as int]),
                ),
                places == old_places + Seq::new(t as nat, |u: int| (start + u, k as int)),
            decreases active.len() - t,
        {
            let j: usize = active[t];
            assert(j == order@[start + t]);
            assert(points@[j as int].x == key(points@, order@, start + t));
            assert(key(points@, order@, start + t) <= key(points@, order@, k as int));
            assert(key(points@, order@, start + t) + d >= xi);
            let gap: i128 = xi as i128 - points[j].x as i128;
            if j != i && gap <= d as i128 {
                pairs.push((j, i));
            }
            proof {
                assert(order@[start + t] != order@[k as int]);
                places = places.push((start + t, k as int));
                assert(pairs@ =~= old_pairs + Seq::new(
                    (t + 1) as nat,
                    |u: int| (order@[start + u], order@[k as int]),
                ));
                assert(places =~= old_places + Seq::new(
                    (t + 1) as nat,
                    |u: int| (start + u, k as int),
                ));
            }
            t = t + 1;
        }
        active.push(i);
        proof {
            assert(active@ =~= order@.subrange(start, k + 1));
            lemma_sweep_step(points@, order@, d as int, old_pairs, old_places, k as int, start);
        }
        k = k + 1;
    }
    proof {
        lemma_swept_is_detection(points@, order@, d as int, pairs@, places);
    }
    pairs
}

/// One step of the sweep: the point at position `k` is paired with the
/// active points, which are those at the positions from `start` up to `k`.
proof fn lemma_sweep_step(
    points: Seq<Point>,
    order: Seq<usize>,
    d: int,
    pairs: Seq<(usize, usize)>,
    places: Seq<(int, int)>,
    k: int,
    start: int,
)
    requires
        ascending(points, order),
        0 <= start <= k < order.len(),
        swept(points, order, d, pairs, places, k),
        forall|m: int| 0 <= m < start ==> #[trigger] key(points, order, m) + d < key(
            points,
            order,
            k,
        ),
        forall|m: int| start <= m < k ==> #[trigger] key(points, order, m) + d >= key(
            points,
            order,
            k,
        ),
    ensures
        swept(
            points,
            order,
            d,
            pairs + Seq::new((k - start) as nat, |u: int| (order[start + u], order[k])),
            places + Seq::new((k - start) as nat, |u: int| (start + u, k)),
            k + 1,
        ),
{
    let more_pairs = Seq::new((k - start) as nat, |u: int| (order[start + u], order[k]));
    let more_places = Seq::new((k - start) as nat, |u: int| (start + u, k));
    let all_pairs = pairs + more_pairs;
    let all_places = places + more_places;
    assert forall|l: int| 0 <= l < all_places.len() implies {
        &&& 0 <= (#[trigger] all_places[l]).0 < all_places[l].1 < k + 1
        &&& all_pairs[l] == (order[all_places[l].0], order[all_places[l].1])
        &&& key(points, order, all_places[l].1) - key(points, order, all_places[l].0) <= d
    } by {
        if l < places.len() {
            assert(all_places[l] == places[l]);
            assert(all_pairs[l] == pairs[l]);
        } else {
            let u = l - places.len();
            assert(all_places[l] == more_places[u]);
            assert(all_pairs[l] == more_pairs[u]);
            assert(key(points, order, start + u) + d >= key(points, order, k));
        }
    }
    assert forall|l: int, m: int| 0 <= l < m < all_places.len() implies {
        ||| (#[trigger] all_places[l]).1 < (#[trigger] all_places[m]).1
        ||| (all_places[l].1 == all_places[m].1 && all_places[l].0 < all_places[m].0)
    } by {
        if m < places.len() {
            assert(all_places[l] == places[l]);
            assert(all_places[m] == places[m]);
        } else if l < places.len() {
            assert(all_places[l] == places[l]);
            assert(all_places[m] == more_places[m - places.len()]);
        } else {
            assert(all_places[l] == more_places[l - places.len()]);
            assert(all_places[m] == more_places[m - places.len()]);
        }
    }
    assert forall|a: int, b: int|
        0 <= a < b < k + 1 && key(points, order, b) - key(points, order, a)
            <= d implies #[trigger] all_places.contains((a, b)) by {
        if b < k {
            assert(places.contains((a, b)));
            let l = choose|l: int| 0 <= l < places.len() && places[l] == (a, b);
            assert(all_places[l] == (a, b));
        } else {
            if a < start {
                assert(key(points, order, a) + d < key(points, order, k));
            }
            let l = places.len() + (a - start);
            assert(all_places[l] == more_places[a - start]);
            assert(all_places[l] == (a, b));
        }
    }
}

} // verus!
