use vstd::prelude::*;

use crate::MAX_COORD;
use crate::MAX_SCALE;
use crate::MAX_SCALED;

verus! {

/// Scaling configuration applied uniformly to every generated primitive.
/// The multipliers are in thousandths: 1000 means a scale factor of one.
#[derive(Clone, Copy, PartialEq, Eq, Structural, Debug)]
pub struct Configuration {
    /// Aperture size multiplier, in thousandths.
    pub aperture_thickness: i64,
    /// Trace width multiplier, in thousandths.
    pub trace_thickness: i64,
    /// Suppress trace rendering on the primary layer, keeping pads.
    pub pads_only: bool,
}

impl Configuration {
    /// Both multipliers are non-negative and within the supported range.
    pub open spec fn valid(self) -> bool {
        &&& 0 <= self.aperture_thickness <= MAX_SCALE
        &&& 0 <= self.trace_thickness <= MAX_SCALE
    }

    /// The default configuration: both multipliers one, traces rendered.
    pub fn new(aperture_thickness: i64, trace_thickness: i64, pads_only: bool) -> (r: Self)
        requires
            0 <= aperture_thickness <= MAX_SCALE,
            0 <= trace_thickness <= MAX_SCALE,
        ensures
            r == (Configuration { aperture_thickness, trace_thickness, pads_only }),
            r.valid(),
    {
        Configuration { aperture_thickness, trace_thickness, pads_only }
    }
}

/// A dimension scaled by a multiplier in thousandths, truncated.
pub open spec fn scaled_spec(v: int, s: int) -> int {
    v * s / 1000
}

/// Applies a scale multiplier (in thousandths) to a non-negative dimension.
pub fn scale_value(v: i64, s: i64) -> (r: i64)
    requires
        0 <= v <= MAX_COORD,
        0 <= s <= MAX_SCALE,
    ensures
        r == scaled_spec(v as int, s as int),
        0 <= r <= MAX_SCALED,
{
    proof {
        assert(v * s <= MAX_COORD * MAX_SCALE) by (nonlinear_arith)
            requires 0 <= v <= MAX_COORD && 0 <= s <= MAX_SCALE;
        assert(0 <= v * s) by (nonlinear_arith)
            requires 0 <= v && 0 <= s;
        assert(v * s / 1000 <= MAX_COORD * MAX_SCALE / 1000) by (nonlinear_arith)
            requires 0 <= v * s <= MAX_COORD * MAX_SCALE;
    }
    let wide: u128 = (v as u128) * (s as u128) / 1000;
    wide as i64
}

} // verus!
