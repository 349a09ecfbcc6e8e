/// Points, rectangles and the inclusive lattice area of a corner pair.
pub mod geometry;
/// The coordinate index: one axis value to the sorted orthogonal values.
pub mod grid;
/// The point loader: strict `x,y` records, one per non-empty line.
pub mod loader;
/// The reachability oracle deciding which corner pairs are admissible.
pub mod pathfinder;
/// The maximum-area scan over all pairs of distinct points.
pub mod scanner;
