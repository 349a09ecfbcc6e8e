use vstd::prelude::*;
use crate::geometry::{Point, rect_area, deltas_fit, get_rectangle_area};

verus! {

/// A filter deciding whether a candidate pair of corner points may count
/// toward the maximum-area search. `admits` is the mathematical decision,
/// `valid_pair` the precondition under which `check` may be asked, and
/// `check` computes the decision without changing what the filter admits.
pub trait Admissibility: Sized {
    spec fn admits(&self, a: Point, b: Point) -> bool;

    spec fn valid_pair(&self, a: Point, b: Point) -> bool;

    fn check(&mut self, a: Point, b: Point) -> (r: bool)
        requires
            old(self).valid_pair(a, b),
        ensures
            r == old(self).admits(a, b),
            forall|p: Point, q: Point| #[trigger] final(self).admits(p, q) == old(self).admits(
                p,
                q,
            ),
            forall|p: Point, q: Point| #[trigger] final(self).valid_pair(p, q) == old(
                self,
            ).valid_pair(p, q),
    ;
}

/// The unconstrained variant: every pair is admissible.
pub struct AlwaysAdmit;

impl Admissibility for AlwaysAdmit {
    open spec fn admits(&self, a: Point, b: Point) -> bool {
        true
    }

    open spec fn valid_pair(&self, a: Point, b: Point) -> bool {
        true
    }

    fn check(&mut self, a: Point, b: Point) -> (r: bool) {
        true
    }
}

/// The pairs the scanner considers: an outer index `i` and any index `j`
/// holding a different point value that has not already been fully handled
/// as an outer point (that is, its value does not occur before `i`).
pub open spec fn candidate_pair(points: Seq<Point>, i: int, j: int) -> bool {
    &&& 0 <= i < points.len()
    &&& 0 <= j < points.len()
    &&& points[j] != points[i]
    &&& !points.subrange(0, i).contains(points[j])
}

/// `r` is the largest rectangle area over all admissible candidate pairs,
/// and 0 when no such pair exists.
pub open spec fn is_max_admissible_area(
    points: Seq<Point>,
    admits: spec_fn(Point, Point) -> bool,
    r: int,
) -> bool {
    &&& r >= 0
    &&& forall|i: int, j: int|
        #[trigger] candidate_pair(points, i, j) && admits(points[i], points[j]) ==> rect_area(
            points[i],
            points[j],
        ) <= r
    &&& (r == 0 || exists|i: int, j: int|
        #[trigger] candidate_pair(points, i, j) && admits(points[i], points[j]) && rect_area(
            points[i],
            points[j],
        ) == r)
}

/// The always-true admissibility decision.
pub open spec fn admit_all() -> spec_fn(Point, Point) -> bool {
    |a: Point, b: Point| true
}

/// Reachability (or any other filter) can only remove candidates, so the
/// constrained maximum never exceeds the unconstrained one.
pub proof fn lemma_constrained_at_most_unconstrained(
    points: Seq<Point>,
    admits: spec_fn(Point, Point) -> bool,
    r_all: int,
    r_constrained: int,
)
    requires
        is_max_admissible_area(points, admit_all(), r_all),
        is_max_admissible_area(points, admits, r_constrained),
    ensures
        r_constrained <= r_all,
{
    if r_constrained != 0 {
        let (i, j) = choose|i: int, j: int|
            #[trigger] candidate_pair(points, i, j) && admits(points[i], points[j]) && rect_area(
                points[i],
                points[j],
            ) == r_constrained;
        assert(candidate_pair(points, i, j));
        assert(admit_all()(points[i], points[j]));
        assert(rect_area(points[i], points[j]) <= r_all);
    }
}

/// A pair of equal point values is never a candidate: the scanner skips
/// self-pairs, so the area of a point with itself is never consulted.
pub proof fn lemma_self_pair_excluded(points: Seq<Point>, i: int, j: int)
    requires
        0 <= i < points.len(),
        0 <= j < points.len(),
        points[i] == points[j],
    ensures
        !candidate_pair(points, i, j),
{
}

fn prefix_contains(points: &Vec<Point>, n: usize, p: Point) -> (r: bool)
    requires
        n <= points@.len(),
    ensures
        r == points@.subrange(0, n as int).contains(p),
{
    let mut k: usize = 0;
    while k < n
        invariant
            0 <= k <= n <= points@.len(),
            forall|k2: int| 0 <= k2 < k ==> points@[k2] != p,
        decreases n - k,
    {
        if points[k] == p {
            assert(points@.subrange(0, n as int)[k as int] == p);
            return true;
        }
        k += 1;
    }
    assert(forall|k2: int|
        0 <= k2 < n ==> points@.subrange(0, n as int)[k2] == points@[k2]);
    false
}

/// Scan every unordered pair of distinct point values exactly once and
/// return the largest admissible rectangle area, 0 when no pair qualifies.
/// The filter is only consulted for a pair whose area would improve the
/// running maximum; what it admits must not change while it is consulted.
pub fn find_biggest_rectangle<F: Admissibility>(points: &Vec<Point>, filter: &mut F) -> (r: i64)
    requires
        forall|i: int, j: int|
            0 <= i < points@.len() && 0 <= j < points@.len() ==> #[trigger] old(filter).valid_pair(
                points@[i],
                points@[j],
            ),
        forall|i: int, j: int|
            0 <= i < points@.len() && 0 <= j < points@.len() ==> #[trigger] deltas_fit(
                points@[i],
                points@[j],
            ),
    ensures
        is_max_admissible_area(
            points@,
            (|a: Point, b: Point| old(filter).admits(a, b)),
            r as int,
        ),
        points@.len() < 2 ==> r == 0,
        forall|p: Point, q: Point| #[trigger] final(filter).admits(p, q) == old(filter).admits(
            p,
            q,
        ),
        forall|p: Point, q: Point| #[trigger] final(filter).valid_pair(p, q) == old(
            filter,
        ).valid_pair(p, q),
{
    let ghost admits0 = |a: Point, b: Point| old(filter).admits(a, b);
    let mut result: i64 = 0;
    let mut i: usize = 0;
    while i < points.len()
        invariant
            0 <= i <= points@.len(),
            result >= 0,
            forall|p: Point, q: Point| #[trigger] filter.admits(p, q) == admits0(p, q),
            forall|p: Point, q: Point| #[trigger] filter.valid_pair(p, q) == old(
                filter,
            ).valid_pair(p, q),
            forall|i2: int, j2: int|
                0 <= i2 < points@.len() && 0 <= j2 < points@.len() ==> #[trigger] old(
                    filter,
                ).valid_pair(points@[i2], points@[j2]),
            forall|i2: int, j2: int|
                0 <= i2 < points@.len() && 0 <= j2 < points@.len() ==> #[trigger] deltas_fit(
                    points@[i2],
                    points@[j2],
                ),
            forall|i2: int, j2: int|
                #[trigger] candidate_pair(points@, i2, j2) && i2 < i && admits0(
                    points@[i2],
                    points@[j2],
                ) ==> rect_area(points@[i2], points@[j2]) <= result as int,
            result == 0 || exists|i2: int, j2: int|
                #[trigger] candidate_pair(points@, i2, j2) && i2 < i && admits0(
                    points@[i2],
                    points@[j2],
                ) && rect_area(points@[i2], points@[j2]) == result as int,
        decreases points@.len() - i,
    {
        let point_a = points[i];
        let mut j: usize = 0;
        while j < points.len()
            invariant
                0 <= i < points@.len(),
                0 <= j <= points@.len(),
                point_a == points@[i as int],
                result >= 0,
                forall|p: Point, q: Point| #[trigger] filter.admits(p, q) == admits0(p, q),
                forall|p: Point, q: Point| #[trigger] filter.valid_pair(p, q) == old(
                    filter,
                ).valid_pair(p, q),
                forall|i2: int, j2: int|
                    0 <= i2 < points@.len() && 0 <= j2 < points@.len() ==> #[trigger] old(
                        filter,
                    ).valid_pair(points@[i2], points@[j2]),
                forall|i2: int, j2: int|
                    0 <= i2 < points@.len() && 0 <= j2 < points@.len() ==> #[trigger] deltas_fit(
                        points@[i2],
                        points@[j2],
                    ),
                forall|i2: int, j2: int|
                    #[trigger] candidate_pair(points@, i2, j2) && (i2 < i || (i2 == i && j2 < j))
                        && admits0(points@[i2], points@[j2]) ==> rect_area(
                        points@[i2],
                        points@[j2],
                    ) <= result as int,
                result == 0 || exists|i2: int, j2: int|
                    #[trigger] candidate_pair(points@, i2, j2) && (i2 < i || (i2 == i && j2 < j))
                        && admits0(points@[i2], points@[j2]) && rect_area(
                        points@[i2],
                        points@[j2],
                    ) == result as int,
            decreases points@.len() - j,
        {
            let point_b = points[j];
            if !(point_a == point_b || prefix_contains(points, i, point_b)) {
                let area = get_rectangle_area(point_a, point_b);
                if area > result {
                    if filter.check(point_a, point_b) {
                        result = area;
                        assert(candidate_pair(points@, i as int, j as int));
                    }
                }
            }
            j += 1;
        }
        i += 1;
    }
    proof {
        if result != 0 {
            let (i2, j2) = choose|i2: int, j2: int|
                #[trigger] candidate_pair(points@, i2, j2) && i2 < points@.len() && admits0(
                    points@[i2],
                    points@[j2],
                ) && rect_area(points@[i2], points@[j2]) == result as int;
            assert(points@[j2] != points@[i2]);
            assert(points@.len() >= 2);
        }
    }
    result
}

/// The unconstrained maximum rectangle area over the point set.
pub fn find_biggest_rectangle_default(points: &Vec<Point>) -> (r: i64)
    requires
        forall|i: int, j: int|
            0 <= i < points@.len() && 0 <= j < points@.len() ==> #[trigger] deltas_fit(
                points@[i],
                points@[j],
            ),
    ensures
        is_max_admissible_area(points@, admit_all(), r as int),
        points@.len() < 2 ==> r == 0,
{
    let mut filter = AlwaysAdmit;
    let r = find_biggest_rectangle(points, &mut filter);
    proof {
        assert(forall|a: Point, b: Point| #[trigger] admit_all()(a, b) == filter.admits(a, b));
    }
    r
}

} // verus!
