use vstd::prelude::*;

verus! {

/// A 2D coordinate in fixed-point board units: one unit is a millionth of a
/// millimetre, so a millimetre is 1_000_000 units.
#[derive(Clone, Copy, PartialEq, Eq, Structural, Debug)]
pub struct Point {
    pub x: i64,
    pub y: i64,
}

impl Point {
    pub fn new(x: i64, y: i64) -> (r: Self)
        ensures
            r.x == x,
            r.y == y,
    {
        Point { x, y }
    }
}

/// Both coordinates within the range accepted from input data.
pub open spec fn in_input_range(p: Point) -> bool {
    &&& -crate::MAX_COORD <= p.x <= crate::MAX_COORD
    &&& -crate::MAX_COORD <= p.y <= crate::MAX_COORD
}

/// Both coordinates within the bound that synthesized geometry keeps.
pub open spec fn in_geom_range(p: Point) -> bool {
    &&& -crate::GEOM_BOUND <= p.x <= crate::GEOM_BOUND
    &&& -crate::GEOM_BOUND <= p.y <= crate::GEOM_BOUND
}

/// Both coordinates within the range the overlay engine documents as safe
/// for its 64-bit integer variant.
pub open spec fn in_safe_range(p: Point) -> bool {
    &&& -0x4000000000000000 <= p.x < 0x4000000000000000
    &&& -0x4000000000000000 <= p.y < 0x4000000000000000
}

/// Every point of the sequence is within the input range.
pub open spec fn all_in_input_range(s: Seq<Point>) -> bool {
    forall|i: int| 0 <= i < s.len() ==> in_input_range(#[trigger] s[i])
}

/// Every point of the sequence is within the synthesized-geometry bound.
pub open spec fn all_in_geom_range(s: Seq<Point>) -> bool {
    forall|i: int| 0 <= i < s.len() ==> in_geom_range(#[trigger] s[i])
}

} // verus!
