use rect_grid::geometry::{Point, Rect, get_rectangle_area};
use rect_grid::loader::parse_points;
use rect_grid::pathfinder::{PathFinder, find_biggest_rectangle_with_red_and_green_tiles};
use rect_grid::scanner::{AlwaysAdmit, find_biggest_rectangle, find_biggest_rectangle_default};

fn bytes(lines: &[&str]) -> Vec<Vec<u8>> {
    let mut out: Vec<Vec<u8>> = Vec::new();
    for l in lines {
        out.push(l.as_bytes().to_vec());
    }
    out
}

fn p(x: i32, y: i32) -> Point {
    Point { x, y }
}

#[test]
fn area_of_concrete_rectangle() {
    assert_eq!(get_rectangle_area(p(0, 0), p(3, 4)), 20);
    let r = Rect { starting_point: p(0, 0), ending_point: p(3, 4) };
    assert_eq!(r.area(), 20);
}

#[test]
fn area_is_symmetric() {
    assert_eq!(get_rectangle_area(p(0, 0), p(3, 4)), get_rectangle_area(p(3, 4), p(0, 0)));
    assert_eq!(get_rectangle_area(p(-2, 5), p(7, -1)), get_rectangle_area(p(7, -1), p(-2, 5)));
}

#[test]
fn single_point_has_no_pair() {
    let points = vec![p(4, 4)];
    assert_eq!(find_biggest_rectangle_default(&points), 0);
}

#[test]
fn duplicate_points_are_no_pair() {
    let points = vec![p(4, 4), p(4, 4), p(4, 4)];
    assert_eq!(find_biggest_rectangle_default(&points), 0);
}

#[test]
fn empty_point_set_scans_to_zero() {
    let points: Vec<Point> = Vec::new();
    assert_eq!(find_biggest_rectangle_default(&points), 0);
    assert_eq!(find_biggest_rectangle_with_red_and_green_tiles(&points), 0);
}

#[test]
fn scanner_picks_largest_pair() {
    let points = vec![p(0, 0), p(1, 1), p(3, 4)];
    assert_eq!(find_biggest_rectangle_default(&points), 20);
    let mut filter = AlwaysAdmit;
    assert_eq!(find_biggest_rectangle(&points, &mut filter), 20);
}

#[test]
fn empty_input_loads_zero_points() {
    let lines: Vec<Vec<u8>> = Vec::new();
    let pts = parse_points(&lines).expect("empty input must load");
    assert_eq!(pts.len(), 0);
    assert_eq!(find_biggest_rectangle_default(&pts), 0);
}

#[test]
fn loader_accepts_records_and_blank_lines() {
    let lines = bytes(&["1,2", "", "3,4", "", "-5,+6"]);
    let pts = parse_points(&lines).expect("valid input must load");
    assert_eq!(pts.len(), 3);
    assert_eq!(pts[0], p(1, 2));
    assert_eq!(pts[1], p(3, 4));
    assert_eq!(pts[2], p(-5, 6));
}

#[test]
fn loader_accepts_extreme_values() {
    let lines = bytes(&["2147483647,-2147483648", "0000000000123,0"]);
    let pts = parse_points(&lines).expect("extreme values fit in i32");
    assert_eq!(pts[0], p(2147483647, -2147483648));
    assert_eq!(pts[1], p(123, 0));
}

#[test]
fn loader_rejects_three_fields() {
    let lines = bytes(&["1,2", "1,2,3"]);
    assert!(parse_points(&lines).is_none());
}

#[test]
fn loader_rejects_non_numeric_fields() {
    assert!(parse_points(&bytes(&["a,b"])).is_none());
    assert!(parse_points(&bytes(&["1,"])).is_none());
    assert!(parse_points(&bytes(&[",2"])).is_none());
    assert!(parse_points(&bytes(&["1 ,2"])).is_none());
    assert!(parse_points(&bytes(&["+,2"])).is_none());
}

#[test]
fn loader_rejects_out_of_range_values() {
    assert!(parse_points(&bytes(&["2147483648,0"])).is_none());
    assert!(parse_points(&bytes(&["0,-2147483649"])).is_none());
    assert!(parse_points(&bytes(&["99999999999999999999,0"])).is_none());
}

#[test]
fn closed_rectangle_is_reachable_both_ways() {
    let points = vec![p(0, 0), p(0, 2), p(2, 0), p(2, 2)];
    assert_eq!(find_biggest_rectangle_default(&points), 9);
    assert_eq!(find_biggest_rectangle_with_red_and_green_tiles(&points), 9);
    let mut oracle = PathFinder::new(&points);
    assert!(oracle.are_points_reachable(p(0, 0), p(2, 2)));
}

#[test]
fn blocked_pair_is_never_selected() {
    // The only grid lines of this pair sit inside the forbidden regions, so
    // the oracle rejects it even though its area is the numeric maximum.
    let points = vec![p(0, 0), p(1, 1)];
    let mut oracle = PathFinder::new(&points);
    assert!(!oracle.are_points_reachable(p(0, 0), p(1, 1)));
    assert_eq!(find_biggest_rectangle_default(&points), 4);
    assert_eq!(find_biggest_rectangle_with_red_and_green_tiles(&points), 0);
}

#[test]
fn reachability_is_idempotent() {
    let points = vec![p(0, 0), p(0, 2), p(2, 0), p(2, 2), p(1, 1)];
    let mut oracle = PathFinder::new(&points);
    let first = oracle.are_points_reachable(p(0, 0), p(2, 2));
    let again = oracle.are_points_reachable(p(0, 0), p(2, 2));
    assert_eq!(first, again);
    // A different query in between must not leak forbidden-region state.
    let other = oracle.are_points_reachable(p(0, 2), p(2, 0));
    let third = oracle.are_points_reachable(p(0, 0), p(2, 2));
    assert_eq!(first, third);
    let other_again = oracle.are_points_reachable(p(0, 2), p(2, 0));
    assert_eq!(other, other_again);
}

#[test]
fn constrained_never_exceeds_unconstrained() {
    let sets = [
        vec![p(0, 0), p(1, 1)],
        vec![p(0, 0), p(0, 2), p(2, 0), p(2, 2)],
        vec![p(0, 0), p(0, 3), p(3, 0), p(3, 3), p(1, 1), p(2, 2)],
        vec![p(5, 5)],
    ];
    for points in sets.iter() {
        let unconstrained = find_biggest_rectangle_default(points);
        let constrained = find_biggest_rectangle_with_red_and_green_tiles(points);
        assert!(constrained <= unconstrained);
    }
}
