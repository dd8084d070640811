use vstd::prelude::*;

verus! {

/// Number of fixed-point units in one unit of length: coordinates are
/// stored in millionths.
pub const UNITS_PER_LENGTH: i64 = 1_000_000;

/// A position in space, each coordinate in millionths of a unit.
#[derive(Clone, Copy, Debug, PartialEq, Eq, Structural)]
pub struct Point {
    pub x: i64,
    pub y: i64,
    pub z: i64,
}

/// A point of a polyline, held exactly as a rational point: its coordinates
/// are `x / den`, `y / den` and `z / den`, in millionths of a unit.
#[derive(Clone, Copy, Debug, PartialEq, Eq, Structural)]
pub struct CurvePoint {
    pub x: i128,
    pub y: i128,
    pub z: i128,
    pub den: u64,
}

/// One corner of a mesh triangle: a position and a normal.
#[derive(Clone, Copy, Debug, PartialEq, Eq, Structural)]
pub struct Vertex {
    pub position: Point,
    pub normal: Point,
}

/// A control point taken over verbatim as a polyline point.
pub open spec fn exact(p: Point) -> CurvePoint {
    CurvePoint { x: p.x as i128, y: p.y as i128, z: p.z as i128, den: 1 }
}

/// Two polyline points stand for the same position in space.
pub open spec fn same_position(a: CurvePoint, b: CurvePoint) -> bool {
    &&& a.x * b.den == b.x * a.den
    &&& a.y * b.den == b.y * a.den
    &&& a.z * b.den == b.z * a.den
}

impl CurvePoint {
    /// The control point `p` as a polyline point, unchanged.
    pub fn from_point(p: Point) -> (r: CurvePoint)
        ensures
            r == exact(p),
    {
        CurvePoint { x: p.x as i128, y: p.y as i128, z: p.z as i128, den: 1 }
    }
}

} // verus!
