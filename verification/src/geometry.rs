use vstd::prelude::*;

verus! {

/// A lattice point with integer coordinates.
#[derive(PartialEq, Eq, Structural, Clone, Copy, Debug)]
pub struct Point {
    pub x: i32,
    pub y: i32,
}

/// An axis-aligned box given by two opposite corner points.
#[derive(PartialEq, Eq, Structural, Clone, Copy, Debug)]
pub struct Rect {
    pub starting_point: Point,
    pub ending_point: Point,
}

pub open spec fn abs_diff(a: int, b: int) -> int {
    if a >= b {
        a - b
    } else {
        b - a
    }
}

/// The inclusive lattice-cell count of the box spanned by two corner points.
pub open spec fn rect_area(a: Point, b: Point) -> int {
    (abs_diff(a.x as int, b.x as int) + 1) * (abs_diff(a.y as int, b.y as int) + 1)
}

/// Machine limit: both coordinate differences must be representable so that
/// the area fits into an `i64`.
pub open spec fn deltas_fit(a: Point, b: Point) -> bool {
    abs_diff(a.x as int, b.x as int) <= i32::MAX as int && abs_diff(a.y as int, b.y as int)
        <= i32::MAX as int
}

/// The area is the same whichever of the two corners comes first.
pub proof fn lemma_area_symmetric(a: Point, b: Point)
    ensures
        rect_area(a, b) == rect_area(b, a),
{
}

pub fn get_rectangle_area(a: Point, b: Point) -> (r: i64)
    requires
        deltas_fit(a, b),
    ensures
        r as int == rect_area(a, b),
        r >= 1,
{
    let dx = (a.x as i64) - (b.x as i64);
    let dx = if dx < 0 {
        -dx
    } else {
        dx
    };
    let dy = (a.y as i64) - (b.y as i64);
    let dy = if dy < 0 {
        -dy
    } else {
        dy
    };
    assert((dx + 1) * (dy + 1) <= 0x4000000000000000 && (dx + 1) * (dy + 1) >= 1)
        by (nonlinear_arith)
        requires
            0 <= dx < 0x80000000 && 0 <= dy < 0x80000000,
    ;
    (dx + 1) * (dy + 1)
}

impl Rect {
    /// The inclusive area of the box spanned by the two corner points.
    pub fn area(&self) -> (r: i64)
        requires
            deltas_fit(self.starting_point, self.ending_point),
        ensures
            r as int == rect_area(self.starting_point, self.ending_point),
    {
        get_rectangle_area(self.starting_point, self.ending_point)
    }
}

} // verus!
