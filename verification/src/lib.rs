use vstd::prelude::*;

use vstd::string::StrSliceExecFns;

pub mod config;
pub mod drill;
pub mod geometry;
pub mod numeric;
pub mod parser;
pub mod pcb;
pub mod point;

pub use config::Configuration;
pub use drill::DrillFile;
pub use drill::DrillOperations;
pub use parser::ParseError;
pub use parser::Parser;
pub use pcb::ApertureShape;
pub use pcb::Operation;
pub use pcb::Pcb;
pub use pcb::Scene;
pub use point::Point;

verus! {

/// Number of sides used when a circle is approximated by a regular polygon.
pub const CIRCLE_SIDES: u32 = 50;

/// Coordinates are fixed-point board units: one millimetre is `UNITS_PER_MM`
/// units, so a unit is a millionth of a millimetre.
pub const UNITS_PER_MM: i64 = 1000000;

/// Largest coordinate magnitude accepted from input data (2^31 units,
/// about 2.1 metres), leaving ample headroom for the geometry arithmetic.
pub const MAX_COORD: i64 = 0x80000000;

/// Largest scale multiplier accepted in a configuration, in thousandths:
/// 1000000 is a multiplier of one thousand.
pub const MAX_SCALE: i64 = 1000000;

/// Largest magnitude a scaled dimension can reach: MAX_COORD * MAX_SCALE / 1000.
pub const MAX_SCALED: i64 = 0x80000000 * 1000;

/// Bound on every coordinate of synthesized geometry (2^42 units): inputs are
/// bounded by MAX_COORD and every offset a synthesizer adds is bounded by
/// MAX_SCALED, whose sum stays below this.
pub const GEOM_BOUND: i64 = 0x40000000000;

/// The index right after the last occurrence of c, or 0 when c does not
/// occur.
pub open spec fn after_last(s: Seq<char>, c: char) -> int
    decreases s.len(),
{
    if s.len() == 0 {
        0
    } else if s.last() == c {
        s.len() as int
    } else {
        after_last(s.drop_last(), c)
    }
}

/// The extension of the path's final component: the characters after its
/// last dot, unless the dot would be the component's first character.
pub open spec fn file_extension_spec(s: Seq<char>) -> Option<Seq<char>> {
    let name_start = after_last(s, '/');
    let d = after_last(s, '.');
    if d >= 1 && d - 1 > name_start {
        Some(s.subrange(d, s.len() as int))
    } else {
        None
    }
}

/// The extension of a path's file name: the characters after the last dot
/// of the final path component, or nothing when that component has no
/// usable dot.
pub fn file_extension(path: &str) -> (r: Option<String>)
    ensures
        match r {
            Some(e) => file_extension_spec(path@) == Some(e@),
            None => file_extension_spec(path@) is None,
        },
{
    let ghost s = path@;
    let n = path.unicode_len();
    let mut name_start: usize = 0;
    let mut d: usize = 0;
    proof {
        assert(s.take(0) =~= Seq::<char>::empty());
    }
    for i in 0..n
        invariant
            s == path@,
            n == s.len(),
            name_start as int == after_last(s.take(i as int), '/'),
            d as int == after_last(s.take(i as int), '.'),
            name_start <= i,
            d <= i,
    {
        proof {
            assert(s.take(i + 1).drop_last() =~= s.take(i as int));
            assert(s.take(i + 1).last() == s[i as int]);
        }
        let c = path.get_char(i);
        if c == '/' {
            name_start = i + 1;
        }
        if c == '.' {
            d = i + 1;
        }
    }
    proof {
        assert(s.take(n as int) =~= s);
    }
    if d >= 1 && d - 1 > name_start {
        let ext = path.substring_char(d, n);
        Some(ext.to_owned())
    } else {
        None
    }
}

} // verus!
