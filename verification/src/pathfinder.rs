use vstd::prelude::*;
use vstd::set_lib::lemma_len_subset;
use vstd::seq_lib::seq_to_set_is_finite;
use crate::geometry::{Point, Rect, deltas_fit};
use crate::grid::{GridAxis, build_axis};
use crate::scanner::{Admissibility, find_biggest_rectangle, is_max_admissible_area};

verus! {

pub open spec fn min_i32(a: i32, b: i32) -> i32 {
    if a <= b {
        a
    } else {
        b
    }
}

pub open spec fn max_i32(a: i32, b: i32) -> i32 {
    if a >= b {
        a
    } else {
        b
    }
}

pub open spec fn in_interval(v: int, a: int, b: int) -> bool {
    a <= v && v <= b
}

pub open spec fn strictly_straddles(v1: int, v2: int, a: int, b: int) -> bool {
    v1 < a && v2 > b
}

pub open spec fn point_in_rect(p: Point, r: Rect) -> bool {
    in_interval(p.x as int, r.starting_point.x as int, r.ending_point.x as int) && in_interval(
        p.y as int,
        r.starting_point.y as int,
        r.ending_point.y as int,
    )
}

/// Whether the axis-aligned segment between two points touches the forbidden
/// rectangle: an endpoint inside it, or the segment crossing clean over it.
pub open spec fn segment_blocked(f: Rect, p1: Point, p2: Point) -> bool {
    let q1 = Point { x: min_i32(p1.x, p2.x), y: min_i32(p1.y, p2.y) };
    let q2 = Point { x: max_i32(p1.x, p2.x), y: max_i32(p1.y, p2.y) };
    if point_in_rect(q1, f) || point_in_rect(q2, f) {
        true
    } else if q1.y == q2.y {
        strictly_straddles(
            q1.x as int,
            q2.x as int,
            f.starting_point.x as int,
            f.ending_point.x as int,
        ) && in_interval(q1.y as int, f.starting_point.y as int, f.ending_point.y as int)
    } else if q1.x == q2.x {
        strictly_straddles(
            q1.y as int,
            q2.y as int,
            f.starting_point.y as int,
            f.ending_point.y as int,
        ) && in_interval(q1.x as int, f.starting_point.x as int, f.ending_point.x as int)
    } else {
        false
    }
}

/// The directional search, mirrored as fuelled functions. The fuel only
/// bounds the recursion; with enough fuel (see `route_fuel`) the search
/// runs to completion, so the fuelled result is the search's result.
/// A horizontal step looks along the row of the current point, a vertical
/// step along its column; the explored set is threaded through and only
/// grown by vertical visits, exactly as the searcher works.
pub open spec fn spec_search_h(
    x2y: GridAxis,
    y2x: GridAxis,
    forb: Rect,
    point: Point,
    explored: Set<Point>,
    end: Point,
    fuel: nat,
) -> (bool, Set<Point>)
    decreases fuel, 2int, 0int,
{
    if fuel == 0 {
        (false, explored)
    } else if explored.contains(point) {
        (false, explored)
    } else {
        let xs = y2x.vals_at(point.y);
        if end.y == point.y && !segment_blocked(forb, point, end) && xs.len() >= 1 && xs[0]
            <= end.x && end.x <= xs[xs.len() - 1] {
            (true, explored)
        } else {
            spec_try_h(x2y, y2x, forb, xs, 0, point, explored, end, fuel)
        }
    }
}

pub open spec fn spec_try_h(
    x2y: GridAxis,
    y2x: GridAxis,
    forb: Rect,
    xs: Seq<i32>,
    i: int,
    point: Point,
    explored: Set<Point>,
    end: Point,
    fuel: nat,
) -> (bool, Set<Point>)
    decreases fuel, 1int, xs.len() - i,
{
    if fuel == 0 || i < 0 || i >= xs.len() {
        (false, explored)
    } else {
        let q = Point { x: xs[i], y: point.y };
        if !segment_blocked(forb, point, q) {
            let res = spec_search_v(x2y, y2x, forb, q, explored, end, (fuel - 1) as nat);
            if res.0 {
                res
            } else {
                spec_try_h(x2y, y2x, forb, xs, i + 1, point, res.1, end, fuel)
            }
        } else {
            spec_try_h(x2y, y2x, forb, xs, i + 1, point, explored, end, fuel)
        }
    }
}

pub open spec fn spec_search_v(
    x2y: GridAxis,
    y2x: GridAxis,
    forb: Rect,
    point: Point,
    explored: Set<Point>,
    end: Point,
    fuel: nat,
) -> (bool, Set<Point>)
    decreases fuel, 2int, 0int,
{
    if fuel == 0 {
        (false, explored)
    } else if explored.contains(point) {
        (false, explored)
    } else {
        let ys = x2y.vals_at(point.x);
        if end.x == point.x && !segment_blocked(forb, point, end) && ys.len() >= 1 && ys[0]
            <= end.y && end.y <= ys[ys.len() - 1] {
            (true, explored)
        } else {
            spec_try_v(x2y, y2x, forb, ys, 0, point, explored.insert(point), end, fuel)
        }
    }
}

pub open spec fn spec_try_v(
    x2y: GridAxis,
    y2x: GridAxis,
    forb: Rect,
    ys: Seq<i32>,
    i: int,
    point: Point,
    explored: Set<Point>,
    end: Point,
    fuel: nat,
) -> (bool, Set<Point>)
    decreases fuel, 1int, ys.len() - i,
{
    if fuel == 0 || i < 0 || i >= ys.len() {
        (false, explored)
    } else {
        let q = Point { x: point.x, y: ys[i] };
        if !segment_blocked(forb, point, q) {
            let res = spec_search_h(x2y, y2x, forb, q, explored, end, (fuel - 1) as nat);
            if res.0 {
                res
            } else {
                spec_try_v(x2y, y2x, forb, ys, i + 1, point, res.1, end, fuel)
            }
        } else {
            spec_try_v(x2y, y2x, forb, ys, i + 1, point, explored, end, fuel)
        }
    }
}

/// How many points of the set the search has not visited yet.
pub open spec fn unexplored(pts: Set<Point>, explored: Set<Point>) -> nat {
    pts.difference(explored).len()
}

/// Fuel that lets the search run to completion on a point set: each
/// vertical visit consumes one unvisited point, each horizontal step sits
/// between two vertical ones.
pub open spec fn route_fuel(pts: Set<Point>) -> nat {
    2 * pts.len() + 2
}

proof fn lemma_push_to_set(s: Seq<Point>, p: Point)
    ensures
        s.push(p).to_set() == s.to_set().insert(p),
{
    assert forall|x: Point| s.push(p).to_set().contains(x) implies s.to_set().insert(p).contains(
        x,
    ) by {
        let i = choose|i: int| 0 <= i < s.push(p).len() && s.push(p)[i] == x;
        if i < s.len() {
            assert(s[i] == x);
        } else {
            assert(x == p);
        }
    }
    assert forall|x: Point| s.to_set().insert(p).contains(x) implies s.push(p).to_set().contains(
        x,
    ) by {
        if x == p {
            assert(s.push(p)[s.len() as int] == x);
        } else {
            let i = choose|i: int| 0 <= i < s.len() && s[i] == x;
            assert(s.push(p)[i] == x);
        }
    }
    assert(s.push(p).to_set() =~= s.to_set().insert(p));
}

proof fn lemma_unexplored_le(pts: Set<Point>, e1: Set<Point>, e2: Set<Point>)
    requires
        pts.finite(),
        e1.subset_of(e2),
    ensures
        unexplored(pts, e2) <= unexplored(pts, e1),
{
    assert(pts.difference(e2).subset_of(pts.difference(e1)));
    assert(pts.difference(e1).subset_of(pts));
    lemma_len_subset(pts.difference(e1), pts);
    lemma_len_subset(pts.difference(e2), pts.difference(e1));
}

proof fn lemma_unexplored_insert_lt(pts: Set<Point>, e: Set<Point>, p: Point)
    requires
        pts.finite(),
        pts.contains(p),
        !e.contains(p),
    ensures
        unexplored(pts, e.insert(p)) < unexplored(pts, e),
{
    pts.lemma_set_insert_diff_decreases(e, p);
}

/// Decides whether two points, as opposite corners of a candidate
/// rectangle, are connected by an orthogonal path along the grid lines of
/// the point set, once around the left of the candidate box and once
/// around its right.
pub struct PathFinder {
    pub forbidden_area: Rect,
    pub map_x_to_y: GridAxis,
    pub map_y_to_x: GridAxis,
    pub points: Ghost<Set<Point>>,
}

/// Neither corner coordinate sits at the very edge of the `i32` range, so
/// the forbidden regions beside the candidate box can be formed.
pub open spec fn region_bounds_ok(a: Point, b: Point) -> bool {
    &&& min_i32(a.x, b.x) < i32::MAX
    &&& min_i32(a.y, b.y) < i32::MAX
    &&& max_i32(a.x, b.x) > i32::MIN
    &&& max_i32(a.y, b.y) > i32::MIN
}

/// The region blocking passage to the right of the candidate box.
pub open spec fn first_forbidden(a: Point, b: Point) -> Rect {
    Rect {
        starting_point: Point {
            x: ((min_i32(a.x, b.x) + 1) as i32),
            y: ((min_i32(a.y, b.y) + 1) as i32),
        },
        ending_point: Point { x: i32::MAX, y: ((max_i32(a.y, b.y) - 1) as i32) },
    }
}

/// The region blocking passage to the left of the candidate box.
pub open spec fn second_forbidden(a: Point, b: Point) -> Rect {
    Rect {
        starting_point: Point { x: 0, y: ((min_i32(a.y, b.y) + 1) as i32) },
        ending_point: Point {
            x: ((max_i32(a.x, b.x) - 1) as i32),
            y: ((max_i32(a.y, b.y) - 1) as i32),
        },
    }
}

/// The oracle's answer: both bypass searches must find a clear path.
pub open spec fn spec_reachable(
    pts: Set<Point>,
    x2y: GridAxis,
    y2x: GridAxis,
    a: Point,
    b: Point,
) -> bool {
    spec_search_h(x2y, y2x, first_forbidden(a, b), a, Set::empty(), b, route_fuel(pts)).0
        && spec_search_h(x2y, y2x, second_forbidden(a, b), a, Set::empty(), b, route_fuel(pts)).0
}

fn contains_point(v: &Vec<Point>, p: Point) -> (r: bool)
    ensures
        r == v@.contains(p),
{
    let mut k: usize = 0;
    while k < v.len()
        invariant
            0 <= k <= v@.len(),
            forall|k2: int| 0 <= k2 < k ==> v@[k2] != p,
        decreases v@.len() - k,
    {
        if v[k] == p {
            return true;
        }
        k += 1;
    }
    false
}

impl PathFinder {
    /// The grid indices exactly mirror the point set; grid lines are sorted
    /// and non-empty.
    pub open spec fn wf(self) -> bool {
        &&& self.map_x_to_y.wf()
        &&& self.map_y_to_x.wf()
        &&& self.points@.finite()
        &&& forall|p: Point| #[trigger] self.points@.contains(p) <==> self.map_x_to_y.contains_pair(
            p.x,
            p.y,
        )
        &&& forall|p: Point| #[trigger] self.points@.contains(p) <==> self.map_y_to_x.contains_pair(
            p.y,
            p.x,
        )
    }

    /// Build the two coordinate indices of the point set.
    pub fn new(points: &Vec<Point>) -> (r: PathFinder)
        ensures
            r.wf(),
            r.points@ == points@.to_set(),
    {
        let mut pairs_x: Vec<(i32, i32)> = Vec::new();
        let mut pairs_y: Vec<(i32, i32)> = Vec::new();
        let mut i: usize = 0;
        while i < points.len()
            invariant
                0 <= i <= points@.len(),
                pairs_x@.len() == i,
                pairs_y@.len() == i,
                forall|t: int| 0 <= t < i ==> pairs_x@[t] == (points@[t].x, points@[t].y),
                forall|t: int| 0 <= t < i ==> pairs_y@[t] == (points@[t].y, points@[t].x),
            decreases points@.len() - i,
        {
            let p = points[i];
            pairs_x.push((p.x, p.y));
            pairs_y.push((p.y, p.x));
            i += 1;
        }
        let map_x_to_y = build_axis(&pairs_x);
        let map_y_to_x = build_axis(&pairs_y);
        let pf = PathFinder {
            forbidden_area: Rect {
                starting_point: Point { x: 0, y: 0 },
                ending_point: Point { x: 0, y: 0 },
            },
            map_x_to_y,
            map_y_to_x,
            points: Ghost(points@.to_set()),
        };
        proof {
            seq_to_set_is_finite(points@);
            assert forall|p: Point| #[trigger] pf.points@.contains(p) implies (
            pf.map_x_to_y.contains_pair(p.x, p.y) && pf.map_y_to_x.contains_pair(p.y, p.x)) by {
                let t = choose|t: int| 0 <= t < points@.len() && points@[t] == p;
                assert(pairs_x@[t] == (p.x, p.y));
                assert(pairs_x@.contains((p.x, p.y)));
                assert(pairs_y@[t] == (p.y, p.x));
                assert(pairs_y@.contains((p.y, p.x)));
            }
            assert forall|p: Point| pf.map_x_to_y.contains_pair(p.x, p.y) implies
                #[trigger] pf.points@.contains(p) by {
                let t = choose|t: int| 0 <= t < pairs_x@.len() && pairs_x@[t] == (p.x, p.y);
                assert(points@[t] == p);
            }
            assert forall|p: Point| pf.map_y_to_x.contains_pair(p.y, p.x) implies
                #[trigger] pf.points@.contains(p) by {
                let t = choose|t: int| 0 <= t < pairs_y@.len() && pairs_y@[t] == (p.y, p.x);
                assert(points@[t] == p);
            }
        }
        pf
    }

    /// Whether the axis-aligned segment between the two points is stopped
    /// by the current forbidden region.
    pub fn _in_forbidden_area(&self, point1: Point, point2: Point) -> (r: bool)
        requires
            point1.x == point2.x || point1.y == point2.y,
        ensures
            r == segment_blocked(self.forbidden_area, point1, point2),
    {
        let q1 = Point {
            x: if point1.x <= point2.x {
                point1.x
            } else {
                point2.x
            },
            y: if point1.y <= point2.y {
                point1.y
            } else {
                point2.y
            },
        };
        let q2 = Point {
            x: if point1.x >= point2.x {
                point1.x
            } else {
                point2.x
            },
            y: if point1.y >= point2.y {
                point1.y
            } else {
                point2.y
            },
        };
        let f = &self.forbidden_area;
        if (f.starting_point.x <= q1.x && q1.x <= f.ending_point.x && f.starting_point.y <= q1.y
            && q1.y <= f.ending_point.y) || (f.starting_point.x <= q2.x && q2.x <= f.ending_point.x
            && f.starting_point.y <= q2.y && q2.y <= f.ending_point.y) {
            true
        } else if q1.y == q2.y {
            q1.x < f.starting_point.x && q2.x > f.ending_point.x && f.starting_point.y <= q1.y
                && q1.y <= f.ending_point.y
        } else {
            q1.y < f.starting_point.y && q2.y > f.ending_point.y && f.starting_point.x <= q1.x
                && q1.x <= f.ending_point.x
        }
    }

    #[verifier::loop_isolation(false)]
    pub fn _search_horizontally(
        &self,
        point: Point,
        explored: &mut Vec<Point>,
        ending_point: Point,
        Ghost(fuel): Ghost<nat>,
    ) -> (r: bool)
        requires
            self.wf(),
            self.points@.contains(point),
            fuel >= 2 * unexplored(self.points@, old(explored)@.to_set()) + 2,
        ensures
            ({
                let res = spec_search_h(
                    self.map_x_to_y,
                    self.map_y_to_x,
                    self.forbidden_area,
                    point,
                    old(explored)@.to_set(),
                    ending_point,
                    fuel,
                );
                r == res.0 && final(explored)@.to_set() == res.1
            }),
            forall|p: Point| #[trigger] old(explored)@.contains(p) ==> final(explored)@.contains(p),
        decreases fuel,
    {
        let ghost x2y = self.map_x_to_y;
        let ghost y2x = self.map_y_to_x;
        let ghost forb = self.forbidden_area;
        let ghost pre = explored@;
        let ghost e0 = pre.to_set();
        let ghost full = spec_search_h(x2y, y2x, forb, point, e0, ending_point, fuel);
        if contains_point(explored, point) {
            proof {
                assert(e0.contains(point));
                assert(full == (false, e0));
            }
            return false;
        }
        let vals = match self.map_y_to_x.lookup(point.y) {
            Some(v) => v,
            None => {
                proof {
                    assert(self.map_y_to_x.contains_pair(point.y, point.x));
                    assert(false);
                }
                return false;
            },
        };
        let ghost xs = y2x.vals_at(point.y);
        proof {
            assert(0 <= y2x.key_index(point.y) < y2x.entries@.len());
            assert(xs.len() >= 1);
        }
        let mut immediate = false;
        if ending_point.y == point.y {
            if !self._in_forbidden_area(point, ending_point) {
                if vals[0] <= ending_point.x && ending_point.x <= vals[vals.len() - 1] {
                    immediate = true;
                }
            }
        }
        if immediate {
            proof {
                assert(full == (true, e0));
            }
            return true;
        }
        proof {
            assert(full == spec_try_h(x2y, y2x, forb, xs, 0, point, e0, ending_point, fuel));
        }
        let mut idx: usize = 0;
        while idx < vals.len()
            invariant
                self.wf(),
                self.points@.contains(point),
                x2y == self.map_x_to_y,
                y2x == self.map_y_to_x,
                forb == self.forbidden_area,
                vals@ == xs,
                xs == y2x.vals_at(point.y),
                0 <= idx <= xs.len(),
                fuel >= 2 * unexplored(self.points@, e0) + 2,
                e0 == pre.to_set(),
                forall|p: Point| #[trigger] pre.contains(p) ==> explored@.contains(p),
                full == spec_try_h(
                    x2y,
                    y2x,
                    forb,
                    xs,
                    idx as int,
                    point,
                    explored@.to_set(),
                    ending_point,
                    fuel,
                ),
            decreases xs.len() - idx,
        {
            let x = vals[idx];
            let new_point = Point { x, y: point.y };
            let ghost e_cur = explored@.to_set();
            if !self._in_forbidden_area(point, new_point) {
                proof {
                    assert(xs[idx as int] == x);
                    assert(y2x.vals_at(point.y).contains(x));
                    assert(y2x.contains_pair(point.y, x));
                    assert(self.points@.contains(new_point));
                    assert(e0.subset_of(e_cur));
                    lemma_unexplored_le(self.points@, e0, e_cur);
                }
                let rec = self._search_vertically(
                    new_point,
                    explored,
                    ending_point,
                    Ghost((fuel - 1) as nat),
                );
                proof {
                    let res = spec_search_v(
                        x2y,
                        y2x,
                        forb,
                        new_point,
                        e_cur,
                        ending_point,
                        (fuel - 1) as nat,
                    );
                    assert(rec == res.0 && explored@.to_set() == res.1);
                    assert(spec_try_h(
                        x2y,
                        y2x,
                        forb,
                        xs,
                        idx as int,
                        point,
                        e_cur,
                        ending_point,
                        fuel,
                    ) == if res.0 {
                        res
                    } else {
                        spec_try_h(
                            x2y,
                            y2x,
                            forb,
                            xs,
                            idx as int + 1,
                            point,
                            res.1,
                            ending_point,
                            fuel,
                        )
                    });
                }
                if rec {
                    proof {
                        assert(full == (true, explored@.to_set()));
                    }
                    return true;
                }
            } else {
                proof {
                    assert(spec_try_h(
                        x2y,
                        y2x,
                        forb,
                        xs,
                        idx as int,
                        point,
                        e_cur,
                        ending_point,
                        fuel,
                    ) == spec_try_h(
                        x2y,
                        y2x,
                        forb,
                        xs,
                        idx as int + 1,
                        point,
                        e_cur,
                        ending_point,
                        fuel,
                    ));
                }
            }
            idx += 1;
        }
        proof {
            assert(full == (false, explored@.to_set()));
        }
        false
    }

    #[verifier::loop_isolation(false)]
    pub fn _search_vertically(
        &self,
        point: Point,
        explored: &mut Vec<Point>,
        ending_point: Point,
        Ghost(fuel): Ghost<nat>,
    ) -> (r: bool)
        requires
            self.wf(),
            self.points@.contains(point),
            fuel >= 2 * unexplored(self.points@, old(explored)@.to_set()) + 1,
        ensures
            ({
                let res = spec_search_v(
                    self.map_x_to_y,
                    self.map_y_to_x,
                    self.forbidden_area,
                    point,
                    old(explored)@.to_set(),
                    ending_point,
                    fuel,
                );
                r == res.0 && final(explored)@.to_set() == res.1
            }),
            forall|p: Point| #[trigger] old(explored)@.contains(p) ==> final(explored)@.contains(p),
        decreases fuel,
    {
        let ghost x2y = self.map_x_to_y;
        let ghost y2x = self.map_y_to_x;
        let ghost forb = self.forbidden_area;
        let ghost pre = explored@;
        let ghost e0 = pre.to_set();
        let ghost full = spec_search_v(x2y, y2x, forb, point, e0, ending_point, fuel);
        if contains_point(explored, point) {
            proof {
                assert(e0.contains(point));
                assert(full == (false, e0));
            }
            return false;
        }
        let vals = match self.map_x_to_y.lookup(point.x) {
            Some(v) => v,
            None => {
                proof {
                    assert(self.map_x_to_y.contains_pair(point.x, point.y));
                    assert(false);
                }
                return false;
            },
        };
        let ghost ys = x2y.vals_at(point.x);
        proof {
            assert(0 <= x2y.key_index(point.x) < x2y.entries@.len());
            assert(ys.len() >= 1);
        }
        let mut immediate = false;
        if ending_point.x == point.x {
            if !self._in_forbidden_area(point, ending_point) {
                if vals[0] <= ending_point.y && ending_point.y <= vals[vals.len() - 1] {
                    immediate = true;
                }
            }
        }
        if immediate {
            proof {
                assert(full == (true, e0));
            }
            return true;
        }
        explored.push(point);
        let ghost e1 = e0.insert(point);
        proof {
            lemma_push_to_set(pre, point);
            assert(explored@.to_set() == e1);
            assert(full == spec_try_v(x2y, y2x, forb, ys, 0, point, e1, ending_point, fuel));
            lemma_unexplored_insert_lt(self.points@, e0, point);
            assert forall|p: Point| #[trigger] pre.contains(p) implies explored@.contains(p) by {
                let t = choose|t: int| 0 <= t < pre.len() && pre[t] == p;
                assert(explored@[t] == p);
            }
        }
        let mut idx: usize = 0;
        while idx < vals.len()
            invariant
                self.wf(),
                self.points@.contains(point),
                x2y == self.map_x_to_y,
                y2x == self.map_y_to_x,
                forb == self.forbidden_area,
                vals@ == ys,
                ys == x2y.vals_at(point.x),
                0 <= idx <= ys.len(),
                fuel >= 2 * unexplored(self.points@, e0) + 1,
                unexplored(self.points@, e1) < unexplored(self.points@, e0),
                e1 == e0.insert(point),
                forall|p: Point| #[trigger] pre.contains(p) ==> explored@.contains(p),
                forall|p: Point| #[trigger] e1.contains(p) ==> explored@.to_set().contains(p),
                full == spec_try_v(
                    x2y,
                    y2x,
                    forb,
                    ys,
                    idx as int,
                    point,
                    explored@.to_set(),
                    ending_point,
                    fuel,
                ),
            decreases ys.len() - idx,
        {
            let y = vals[idx];
            let new_point = Point { x: point.x, y };
            let ghost e_cur = explored@.to_set();
            if !self._in_forbidden_area(point, new_point) {
                proof {
                    assert(ys[idx as int] == y);
                    assert(x2y.vals_at(point.x).contains(y));
                    assert(x2y.contains_pair(point.x, y));
                    assert(self.points@.contains(new_point));
                    assert(e1.subset_of(e_cur));
                    lemma_unexplored_le(self.points@, e1, e_cur);
                }
                let rec = self._search_horizontally(
                    new_point,
                    explored,
                    ending_point,
                    Ghost((fuel - 1) as nat),
                );
                proof {
                    let res = spec_search_h(
                        x2y,
                        y2x,
                        forb,
                        new_point,
                        e_cur,
                        ending_point,
                        (fuel - 1) as nat,
                    );
                    assert(rec == res.0 && explored@.to_set() == res.1);
                    assert(spec_try_v(
                        x2y,
                        y2x,
                        forb,
                        ys,
                        idx as int,
                        point,
                        e_cur,
                        ending_point,
                        fuel,
                    ) == if res.0 {
                        res
                    } else {
                        spec_try_v(
                            x2y,
                            y2x,
                            forb,
                            ys,
                            idx as int + 1,
                            point,
                            res.1,
                            ending_point,
                            fuel,
                        )
                    });
                }
                if rec {
                    proof {
                        assert(full == (true, explored@.to_set()));
                    }
                    return true;
                }
            } else {
                proof {
                    assert(spec_try_v(
                        x2y,
                        y2x,
                        forb,
                        ys,
                        idx as int,
                        point,
                        e_cur,
                        ending_point,
                        fuel,
                    ) == spec_try_v(
                        x2y,
                        y2x,
                        forb,
                        ys,
                        idx as int + 1,
                        point,
                        e_cur,
                        ending_point,
                        fuel,
                    ));
                }
            }
            idx += 1;
        }
        proof {
            assert(full == (false, explored@.to_set()));
        }
        false
    }

    /// Decide reachability for a candidate pair: first force the path
    /// around the left of the candidate box, then around the right; both
    /// attempts must find a way. The forbidden-region field is fully
    /// overwritten before each attempt, so the answer depends only on
    /// the indices and the two points.
    pub fn are_points_reachable(&mut self, starting_point: Point, ending_point: Point) -> (r: bool)
        requires
            old(self).wf(),
            old(self).points@.contains(starting_point),
            region_bounds_ok(starting_point, ending_point),
        ensures
            final(self).wf(),
            final(self).map_x_to_y == old(self).map_x_to_y,
            final(self).map_y_to_x == old(self).map_y_to_x,
            final(self).points == old(self).points,
            r == spec_reachable(
                old(self).points@,
                old(self).map_x_to_y,
                old(self).map_y_to_x,
                starting_point,
                ending_point,
            ),
    {
        let min_x = if starting_point.x <= ending_point.x {
            starting_point.x
        } else {
            ending_point.x
        };
        let max_x = if starting_point.x >= ending_point.x {
            starting_point.x
        } else {
            ending_point.x
        };
        let min_y = if starting_point.y <= ending_point.y {
            starting_point.y
        } else {
            ending_point.y
        };
        let max_y = if starting_point.y >= ending_point.y {
            starting_point.y
        } else {
            ending_point.y
        };
        self.forbidden_area = Rect {
            starting_point: Point { x: min_x + 1, y: min_y + 1 },
            ending_point: Point { x: i32::MAX, y: max_y - 1 },
        };
        proof {
            assert(self.forbidden_area == first_forbidden(starting_point, ending_point));
            assert(Seq::<Point>::empty().to_set() =~= Set::<Point>::empty());
            assert(self.points@.difference(Set::empty()) =~= self.points@);
        }
        let mut explored: Vec<Point> = Vec::new();
        let first = self._search_horizontally(
            starting_point,
            &mut explored,
            ending_point,
            Ghost(route_fuel(self.points@)),
        );
        if !first {
            return false;
        }
        self.forbidden_area = Rect {
            starting_point: Point { x: 0, y: min_y + 1 },
            ending_point: Point { x: max_x - 1, y: max_y - 1 },
        };
        proof {
            assert(self.forbidden_area == second_forbidden(starting_point, ending_point));
        }
        let mut explored2: Vec<Point> = Vec::new();
        let second = self._search_horizontally(
            starting_point,
            &mut explored2,
            ending_point,
            Ghost(route_fuel(self.points@)),
        );
        second
    }
}

impl Admissibility for PathFinder {
    open spec fn admits(&self, a: Point, b: Point) -> bool {
        spec_reachable(self.points@, self.map_x_to_y, self.map_y_to_x, a, b)
    }

    open spec fn valid_pair(&self, a: Point, b: Point) -> bool {
        self.wf() && self.points@.contains(a) && region_bounds_ok(a, b)
    }

    fn check(&mut self, a: Point, b: Point) -> (r: bool) {
        self.are_points_reachable(a, b)
    }
}

/// The constrained variant: the maximum rectangle area over the pairs that
/// some reachability oracle for this very point set admits.
pub fn find_biggest_rectangle_with_red_and_green_tiles(points: &Vec<Point>) -> (r: i64)
    requires
        forall|i: int, j: int|
            0 <= i < points@.len() && 0 <= j < points@.len() ==> #[trigger] deltas_fit(
                points@[i],
                points@[j],
            ),
        forall|i: int, j: int|
            0 <= i < points@.len() && 0 <= j < points@.len() ==> #[trigger] region_bounds_ok(
                points@[i],
                points@[j],
            ),
    ensures
        exists|oracle: PathFinder|
            oracle.wf() && oracle.points@ == points@.to_set() && is_max_admissible_area(
                points@,
                (|a: Point, b: Point| oracle.admits(a, b)),
                r as int,
            ),
        points@.len() < 2 ==> r == 0,
{
    let mut path_finder = PathFinder::new(points);
    proof {
        assert forall|i: int, j: int|
            0 <= i < points@.len() && 0 <= j < points@.len() implies #[trigger] path_finder
            .valid_pair(points@[i], points@[j]) by {
            assert(points@.contains(points@[i]));
        }
    }
    let ghost oracle0 = path_finder;
    let r = find_biggest_rectangle(points, &mut path_finder);
    proof {
        assert(is_max_admissible_area(
            points@,
            (|a: Point, b: Point| oracle0.admits(a, b)),
            r as int,
        ));
    }
    r
}

} // verus!
