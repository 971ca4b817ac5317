use vstd::prelude::*;

use i_float::int::point::IntPoint;

use crate::numeric::cos_sin_turn;
use crate::numeric::cos_sin_turn_spec;
use crate::numeric::isqrt;
use crate::numeric::lemma_sqrt_floor;
use crate::numeric::lemma_sqrt_le;
use crate::numeric::sqrt_floor;
use crate::numeric::ONE_Q30;
use crate::point::all_in_geom_range;
use crate::point::all_in_input_range;
use crate::point::in_geom_range;
use crate::point::Point;
use crate::GEOM_BOUND;
use crate::MAX_COORD;
use crate::MAX_SCALED;

verus! {

/// A length scaled by a Q30 factor in [-1, 1], truncated toward zero.
pub open spec fn scale_q30_spec(len: int, q: int) -> int {
    if q >= 0 {
        len * q / (ONE_Q30 as int)
    } else {
        -(len * (-q) / (ONE_Q30 as int))
    }
}

fn scale_q30(len: i64, q: i64) -> (r: i64)
    requires
        0 <= len <= MAX_SCALED,
        -ONE_Q30 <= q <= ONE_Q30,
    ensures
        r == scale_q30_spec(len as int, q as int),
        -len <= r <= len,
{
    let mag: u64 = if q >= 0 {
        q as u64
    } else {
        (-q) as u64
    };
    proof {
        let l = len as int;
        let m = mag as int;
        let one = ONE_Q30 as int;
        assert(l * m <= l * one) by (nonlinear_arith)
            requires 0 <= l && 0 <= m <= one;
        assert(0 <= l * m) by (nonlinear_arith)
            requires 0 <= l && 0 <= m;
        assert(l * one / one == l) by (nonlinear_arith)
            requires 0 <= l && 0 < one;
        assert(l * m / one <= l * one / one) by (nonlinear_arith)
            requires 0 <= l * m <= l * one && 0 < one;
    }
    let scaled: u64 = (((len as u64) as u128) * (mag as u128) / (ONE_Q30 as u128)) as u64;
    if q >= 0 {
        scaled as i64
    } else {
        -(scaled as i64)
    }
}

/// Vertex k of the regular n-gon inscribed in the circle around `center` with
/// the given radius, starting at angle zero in increasing-angle order.
pub open spec fn circle_vertex_spec(center: Point, radius: int, k: int, n: int) -> Point {
    let cs = cos_sin_turn_spec(k, n);
    Point {
        x: (center.x + scale_q30_spec(radius, cs.0)) as i64,
        y: (center.y + scale_q30_spec(radius, cs.1)) as i64,
    }
}

/// The first k vertices of the regular n-gon.
pub open spec fn circle_pts_spec(center: Point, radius: int, n: int, k: int) -> Seq<Point>
    decreases k,
{
    if k <= 0 {
        Seq::empty()
    } else {
        circle_pts_spec(center, radius, n, k - 1).push(
            circle_vertex_spec(center, radius, k - 1, n),
        )
    }
}

/// A circle approximated by a regular polygon with n sides; a non-positive
/// radius yields no points.
pub open spec fn generate_circle_spec(center: Point, radius: int, n: int) -> Seq<Point> {
    if radius <= 0 {
        Seq::empty()
    } else {
        circle_pts_spec(center, radius, n, n)
    }
}

/// The first k vertices are k points.
pub proof fn lemma_circle_pts_len(center: Point, radius: int, n: int, k: int)
    requires
        k >= 0,
    ensures
        circle_pts_spec(center, radius, n, k).len() == k,
    decreases k,
{
    if k > 0 {
        lemma_circle_pts_len(center, radius, n, k - 1);
    }
}

/// Generates a polygon approximating a circle with the given number of sides.
pub fn generate_circle(center: Point, radius: i64, sides: u32) -> (r: Vec<Point>)
    requires
        -(MAX_COORD + MAX_SCALED) <= center.x <= MAX_COORD + MAX_SCALED,
        -(MAX_COORD + MAX_SCALED) <= center.y <= MAX_COORD + MAX_SCALED,
        radius <= MAX_SCALED,
        3 <= sides,
    ensures
        r@ == generate_circle_spec(center, radius as int, sides as int),
        r@.len() == if radius <= 0 { 0int } else { sides as int },
        all_in_geom_range(r@),
{
    let mut out: Vec<Point> = Vec::new();
    if radius <= 0 {
        return out;
    }
    for i in 0..sides
        invariant
            out@ == circle_pts_spec(center, radius as int, sides as int, i as int),
            out@.len() == i,
            all_in_geom_range(out@),
            -(MAX_COORD + MAX_SCALED) <= center.x <= MAX_COORD + MAX_SCALED,
            -(MAX_COORD + MAX_SCALED) <= center.y <= MAX_COORD + MAX_SCALED,
            0 < radius <= MAX_SCALED,
            3 <= sides,
    {
        let (c, s) = cos_sin_turn(i, sides);
        let x = center.x + scale_q30(radius, c);
        let y = center.y + scale_q30(radius, s);
        out.push(Point { x, y });
    }
    proof {
        lemma_circle_pts_len(center, radius as int, sides as int, sides as int);
    }
    out
}

/// The four corners of an axis-aligned rectangle around `center` whose full
/// width and height are given by `size`, in the order top-left, top-right,
/// bottom-right, bottom-left. Halves are truncated integer divisions.
pub open spec fn generate_rectangle_spec(center: Point, size: Point) -> Seq<Point> {
    let hw = size.x as int / 2;
    let hh = size.y as int / 2;
    seq![
        Point { x: (center.x - hw) as i64, y: (center.y + hh) as i64 },
        Point { x: (center.x + hw) as i64, y: (center.y + hh) as i64 },
        Point { x: (center.x + hw) as i64, y: (center.y - hh) as i64 },
        Point { x: (center.x - hw) as i64, y: (center.y - hh) as i64 },
    ]
}

/// Generates the four corners of an axis-aligned rectangle.
pub fn generate_rectangle(center: Point, size: Point) -> (r: Vec<Point>)
    requires
        -(MAX_COORD + MAX_SCALED) <= center.x <= MAX_COORD + MAX_SCALED,
        -(MAX_COORD + MAX_SCALED) <= center.y <= MAX_COORD + MAX_SCALED,
        0 <= size.x <= MAX_SCALED,
        0 <= size.y <= MAX_SCALED,
    ensures
        r@ == generate_rectangle_spec(center, size),
        r@.len() == 4,
        all_in_geom_range(r@),
{
    let hw = (size.x as u64 / 2) as i64;
    let hh = (size.y as u64 / 2) as i64;
    let top_left = Point { x: center.x - hw, y: center.y + hh };
    let top_right = Point { x: center.x + hw, y: center.y + hh };
    let bottom_right = Point { x: center.x + hw, y: center.y - hh };
    let bottom_left = Point { x: center.x - hw, y: center.y - hh };
    let out = vec![top_left, top_right, bottom_right, bottom_left];
    proof {
        assert(out@ =~= generate_rectangle_spec(center, size));
    }
    out
}

/// a * half / len with the sign of a, divisions truncated toward zero.
pub open spec fn normal_comp_spec(a: int, half: int, len: int) -> int {
    if a >= 0 {
        a * half / len
    } else {
        -((-a) * half / len)
    }
}

/// The left-hand normal of the segment from p1 to p2, scaled to half the
/// path thickness; the zero vector when the points coincide.
pub open spec fn seg_normal_spec(p1: Point, p2: Point, thickness: int) -> (int, int) {
    let dx = p2.x - p1.x;
    let dy = p2.y - p1.y;
    let half = thickness / 2;
    let len = sqrt_floor(dx * dx + dy * dy);
    if len == 0 {
        (0, 0)
    } else {
        (-normal_comp_spec(dy, half, len), normal_comp_spec(dx, half, len))
    }
}

/// The four corners of the quad thickening one segment: p1 and p2 each
/// offset by the scaled normal on either side.
pub open spec fn seg_quad_spec(p1: Point, p2: Point, thickness: int) -> Seq<Point> {
    let n = seg_normal_spec(p1, p2, thickness);
    seq![
        Point { x: (p1.x + n.0) as i64, y: (p1.y + n.1) as i64 },
        Point { x: (p1.x - n.0) as i64, y: (p1.y - n.1) as i64 },
        Point { x: (p2.x - n.0) as i64, y: (p2.y - n.1) as i64 },
        Point { x: (p2.x + n.0) as i64, y: (p2.y + n.1) as i64 },
    ]
}

/// The concatenated quads of the first k segments of the path.
pub open spec fn quads_upto_spec(path: Seq<Point>, thickness: int, k: int) -> Seq<Point>
    decreases k,
{
    if k <= 0 {
        Seq::empty()
    } else {
        quads_upto_spec(path, thickness, k - 1) + seg_quad_spec(path[k - 1], path[k], thickness)
    }
}

/// A path of n points thickened into n - 1 per-segment quads; fewer than two
/// points yield no polygon.
pub open spec fn close_path_spec(path: Seq<Point>, thickness: int) -> Seq<Point> {
    if path.len() < 2 {
        Seq::empty()
    } else {
        quads_upto_spec(path, thickness, path.len() - 1)
    }
}

/// The first k quads hold 4 * k points.
pub proof fn lemma_quads_upto_len(path: Seq<Point>, thickness: int, k: int)
    requires
        k >= 0,
    ensures
        quads_upto_spec(path, thickness, k).len() == 4 * k,
    decreases k,
{
    if k > 0 {
        lemma_quads_upto_len(path, thickness, k - 1);
    }
}

/// A thickened path holds four points per segment: 4 * (n - 1) points for
/// n >= 2 input points, and no points for fewer.
pub proof fn lemma_close_path_len(path: Seq<Point>, thickness: int)
    ensures
        close_path_spec(path, thickness).len() == if path.len() >= 2 {
            4 * (path.len() - 1)
        } else {
            0int
        },
{
    if path.len() >= 2 {
        lemma_quads_upto_len(path, thickness, path.len() - 1);
    }
}

/// One component of the scaled normal: a magnitude times half the thickness,
/// divided by the segment length.
fn normal_comp(a: i64, half: u64, len: u64) -> (r: i64)
    requires
        -0x200000000 <= a <= 0x200000000,
        half <= MAX_SCALED,
        0 < len <= 0x200000000,
        -(len as int) <= a <= len as int,
    ensures
        r == normal_comp_spec(a as int, half as int, len as int),
        -(half as int) <= r <= half as int,
{
    let mag: u64 = if a >= 0 {
        a as u64
    } else {
        (-a) as u64
    };
    proof {
        let m = mag as int;
        let h = half as int;
        let l = len as int;
        assert(m * h <= l * h) by (nonlinear_arith)
            requires 0 <= m <= l && 0 <= h;
        assert(0 <= m * h) by (nonlinear_arith)
            requires 0 <= m && 0 <= h;
        assert(l * h / l == h) by (nonlinear_arith)
            requires 0 <= h && 0 < l;
        assert(m * h / l <= l * h / l) by (nonlinear_arith)
            requires 0 <= m * h <= l * h && 0 < l;
        assert(m * h <= 0x200000000 * (MAX_SCALED as int)) by (nonlinear_arith)
            requires 0 <= m <= 0x200000000 && 0 <= h <= MAX_SCALED;
    }
    let scaled: u64 = (((mag as u128) * (half as u128)) / (len as u128)) as u64;
    if a >= 0 {
        scaled as i64
    } else {
        -(scaled as i64)
    }
}

/// Converts the input path into a polygon with the defined thickness: each
/// segment becomes a quad of its two endpoints offset by the scaled
/// left-hand normal. The quads overlap at shared vertices; the union step
/// later merges them into one region.
#[verifier::rlimit(100)]
pub fn close_path(path: Vec<Point>, thickness: i64) -> (r: Vec<Point>)
    requires
        all_in_input_range(path@),
        0 <= thickness <= MAX_SCALED,
    ensures
        r@ == close_path_spec(path@, thickness as int),
        r@.len() == if path@.len() >= 2 {
            4 * (path@.len() - 1)
        } else {
            0int
        },
        all_in_geom_range(r@),
{
    let mut out: Vec<Point> = Vec::new();
    proof {
        lemma_close_path_len(path@, thickness as int);
    }
    if path.len() < 2 {
        return out;
    }
    let half: u64 = (thickness as u64) / 2;
    let end = path.len() - 1;
    for i in 0..end
        invariant
            out@ == quads_upto_spec(path@, thickness as int, i as int),
            all_in_geom_range(out@),
            all_in_input_range(path@),
            0 <= thickness <= MAX_SCALED,
            half == thickness as int / 2,
            end == path@.len() - 1,
            2 <= path@.len(),
    {
        let p1 = path[i];
        let p2 = path[i + 1];
        let dx = p2.x - p1.x;
        let dy = p2.y - p1.y;
        proof {
            let dxi = dx as int;
            let dyi = dy as int;
            assert(dxi * dxi <= 0x100000000 * 0x100000000 && 0 <= dxi * dxi) by (nonlinear_arith)
                requires -0x100000000 <= dxi <= 0x100000000;
            assert(dyi * dyi <= 0x100000000 * 0x100000000 && 0 <= dyi * dyi) by (nonlinear_arith)
                requires -0x100000000 <= dyi <= 0x100000000;
        }
        let sq: u128 = ((dx as i128) * (dx as i128) + (dy as i128) * (dy as i128)) as u128;
        let len = isqrt(sq);
        let (nx, ny) = if len == 0 {
            (0i64, 0i64)
        } else {
            proof {
                let dxi = dx as int;
                let dyi = dy as int;
                let l = len as int;
                lemma_sqrt_floor(sq as int);
                assert(l <= 0x200000000) by (nonlinear_arith)
                    requires
                        0 <= l,
                        l * l <= sq as int,
                        (sq as int) < 0x40000000000000000;
                assert(dyi * dyi <= sq as int) by (nonlinear_arith)
                    requires 0 <= dxi * dxi && sq as int == dxi * dxi + dyi * dyi;
                assert(dxi * dxi <= sq as int) by (nonlinear_arith)
                    requires 0 <= dyi * dyi && sq as int == dxi * dxi + dyi * dyi;
                if dyi >= 0 {
                    lemma_sqrt_le(dyi, sq as int);
                } else {
                    assert((-dyi) * (-dyi) == dyi * dyi) by (nonlinear_arith);
                    lemma_sqrt_le(-dyi, sq as int);
                }
                if dxi >= 0 {
                    lemma_sqrt_le(dxi, sq as int);
                } else {
                    assert((-dxi) * (-dxi) == dxi * dxi) by (nonlinear_arith);
                    lemma_sqrt_le(-dxi, sq as int);
                }
            }
            let nc_y = normal_comp(dy, half, len);
            let nc_x = normal_comp(dx, half, len);
            (-nc_y, nc_x)
        };
        out.push(Point { x: p1.x + nx, y: p1.y + ny });
        out.push(Point { x: p1.x - nx, y: p1.y - ny });
        out.push(Point { x: p2.x - nx, y: p2.y - ny });
        out.push(Point { x: p2.x + nx, y: p2.y + ny });
        proof {
            assert(out@ =~= quads_upto_spec(path@, thickness as int, i + 1));
        }
    }
    out
}

/// Component-wise minimum and maximum over the first k points, starting from
/// the extreme sentinels, so an empty stream yields the sentinels.
pub open spec fn bounds_upto_spec(s: Seq<Point>, k: int) -> (Point, Point)
    decreases k,
{
    if k <= 0 {
        (Point { x: i64::MAX, y: i64::MAX }, Point { x: i64::MIN, y: i64::MIN })
    } else {
        let (mn, mx) = bounds_upto_spec(s, k - 1);
        let p = s[k - 1];
        (
            Point {
                x: if p.x < mn.x { p.x } else { mn.x },
                y: if p.y < mn.y { p.y } else { mn.y },
            },
            Point {
                x: if p.x > mx.x { p.x } else { mx.x },
                y: if p.y > mx.y { p.y } else { mx.y },
            },
        )
    }
}

/// Component-wise minimum and maximum over a point stream.
pub open spec fn bounds_spec(s: Seq<Point>) -> (Point, Point) {
    bounds_upto_spec(s, s.len() as int)
}

/// Component-wise minimum and maximum over a point stream; the extreme
/// sentinel values for an empty stream, which callers must guard against.
pub fn bounds(points: &Vec<Point>) -> (r: (Point, Point))
    ensures
        r == bounds_spec(points@),
{
    let mut min = Point { x: i64::MAX, y: i64::MAX };
    let mut max = Point { x: i64::MIN, y: i64::MIN };
    for i in 0..points.len()
        invariant
            (min, max) == bounds_upto_spec(points@, i as int),
    {
        let p = points[i];
        if p.x < min.x {
            min.x = p.x;
        }
        if p.y < min.y {
            min.y = p.y;
        }
        if p.x > max.x {
            max.x = p.x;
        }
        if p.y > max.y {
            max.y = p.y;
        }
    }
    (min, max)
}

/// The views of a collection of polygons.
pub open spec fn path_views(v: Seq<Vec<Point>>) -> Seq<Seq<Point>> {
    v.map_values(|p: Vec<Point>| p@)
}

/// The views of a collection of shapes, each a collection of contours.
pub open spec fn shape_views(v: Seq<Vec<Vec<Point>>>) -> Seq<Seq<Seq<Point>>> {
    v.map_values(|s: Vec<Vec<Point>>| path_views(s@))
}

/// Every point of the path is within the overlay engine's safe range.
pub open spec fn path_in_safe_range(s: Seq<Point>) -> bool {
    forall|j: int| 0 <= j < s.len() ==> crate::point::in_safe_range(#[trigger] s[j])
}

/// Every point of every path is within the overlay engine's safe range.
pub open spec fn paths_in_safe_range(s: Seq<Seq<Point>>) -> bool {
    forall|i: int| 0 <= i < s.len() ==> path_in_safe_range(#[trigger] s[i])
}

/// Every point of every contour of every shape is within the safe range.
pub open spec fn shapes_in_safe_range(s: Seq<Seq<Seq<Point>>>) -> bool {
    forall|i: int| 0 <= i < s.len() ==> paths_in_safe_range(#[trigger] s[i])
}

/// The contours of a collection of shapes, flattened in order: the engine
/// reads nested shapes contour by contour, so shape boundaries carry no
/// information for a union with even-odd fill.
pub open spec fn shapes_contours(s: Seq<Seq<Seq<Point>>>) -> Seq<Seq<Point>>
    decreases s.len(),
{
    if s.len() == 0 {
        Seq::empty()
    } else {
        shapes_contours(s.drop_last()) + s.last()
    }
}

/// Flattening keeps every point within the safe range.
pub proof fn lemma_shapes_contours_safe(s: Seq<Seq<Seq<Point>>>)
    requires
        shapes_in_safe_range(s),
    ensures
        paths_in_safe_range(shapes_contours(s)),
    decreases s.len(),
{
    if s.len() > 0 {
        assert(forall|i: int| 0 <= i < s.drop_last().len() ==> paths_in_safe_range(
            #[trigger] s.drop_last()[i],
        ));
        lemma_shapes_contours_safe(s.drop_last());
        let flat = shapes_contours(s);
        let prefix = shapes_contours(s.drop_last());
        assert(paths_in_safe_range(s.last()));
        assert forall|i: int| 0 <= i < flat.len() implies path_in_safe_range(
            #[trigger] flat[i],
        ) by {
            if i < prefix.len() {
                assert(flat[i] == prefix[i]);
            } else {
                assert(flat[i] == s.last()[i - prefix.len()]);
            }
        }
    }
}

/// Copies every contour of a union result into one flat collection.
fn flatten_shapes(shapes: &Vec<Vec<Vec<Point>>>) -> (r: Vec<Vec<Point>>)
    ensures
        path_views(r@) == shapes_contours(shape_views(shapes@)),
{
    let ghost sv = shape_views(shapes@);
    let mut out: Vec<Vec<Point>> = Vec::new();
    proof {
        assert(sv.take(0) =~= Seq::<Seq<Seq<Point>>>::empty());
        assert(path_views(out@) =~= shapes_contours(sv.take(0)));
    }
    for i in 0..shapes.len()
        invariant
            sv == shape_views(shapes@),
            sv.len() == shapes@.len(),
            path_views(out@) == shapes_contours(sv.take(i as int)),
    {
        proof {
            assert(sv.take(i + 1).drop_last() =~= sv.take(i as int));
            assert(sv.take(i + 1).last() == sv[i as int]);
        }
        let ghost base_s = path_views(out@);
        let ghost cv = sv[i as int];
        let shape = &shapes[i];
        for j in 0..shape.len()
            invariant
                cv == path_views(shape@),
                cv.len() == shape@.len(),
                path_views(out@) == base_s + cv.take(j as int),
        {
            let ghost pts = cv[j as int];
            let contour = &shape[j];
            let mut copy: Vec<Point> = Vec::new();
            for k in 0..contour.len()
                invariant
                    pts == contour@,
                    copy@ =~= pts.take(k as int),
                    path_views(out@) == base_s + cv.take(j as int),
            {
                copy.push(contour[k]);
                proof {
                    assert(copy@ =~= pts.take(k + 1));
                }
            }
            proof {
                assert(pts.take(pts.len() as int) =~= pts);
                assert(copy@ == pts);
            }
            out.push(copy);
            proof {
                assert(cv.take(j + 1) =~= cv.take(j as int).push(cv[j as int]));
                assert(path_views(out@) =~= (base_s + cv.take(j as int)).push(pts));
                assert(path_views(out@) =~= base_s + cv.take(j + 1));
            }
        }
        proof {
            assert(cv.take(cv.len() as int) =~= cv);
            assert(path_views(out@) =~= shapes_contours(sv.take(i + 1)));
        }
    }
    proof {
        assert(sv.take(sv.len() as int) =~= sv);
    }
    out
}

/// What the overlay engine returns when one more closed contour is merged
/// into the accumulated contours under the union rule with even-odd fill.
pub uninterp spec fn union_step(acc: Seq<Seq<Point>>, next: Seq<Point>) -> Seq<Seq<Seq<Point>>>;

/// Relies on i_overlay's `SingleIntOverlay::overlay` on the 64-bit integer
/// engine with `OverlayRule::Union` and `FillRule::EvenOdd`: the result is a
/// function of the input contours alone, and its documentation demands every
/// input coordinate within -2^62..2^62; its intersection points stay within
/// the input segments' bounds, so outputs stay in that range.
#[verifier::external_body]
fn overlay_union(acc: &Vec<Vec<Point>>, next: &Vec<Point>) -> (r: Vec<Vec<Vec<Point>>>)
    requires
        paths_in_safe_range(path_views(acc@)),
        path_in_safe_range(next@),
    ensures
        shape_views(r@) == union_step(path_views(acc@), next@),
        shapes_in_safe_range(shape_views(r@)),
{
    let f = |p: &Point| IntPoint::new(p.x, p.y);
    let subj: Vec<Vec<IntPoint<i64>>> = acc.iter().map(|c| c.iter().map(f).collect()).collect();
    let clip: Vec<_> = next.iter().map(f).collect();
    i_overlay::core::single::SingleIntOverlay::overlay(
        &subj,
        &clip[..],
        i_overlay::core::overlay_rule::OverlayRule::Union,
        i_overlay::core::fill_rule::FillRule::EvenOdd,
    ).into_iter().map(|s| s.into_iter().map(|c| c.into_iter().map(|p| Point { x: p.x, y: p.y }).collect()).collect()).collect()
}

/// The union accumulator after the first k polygons: the first polygon seeds
/// the accumulator as a single shape, and each later polygon is merged by
/// one union step over the accumulated contours.
pub open spec fn union_upto_spec(paths: Seq<Seq<Point>>, k: int) -> Seq<Seq<Seq<Point>>>
    decreases k,
{
    if k <= 1 {
        seq![seq![paths[0]]]
    } else {
        union_step(shapes_contours(union_upto_spec(paths, k - 1)), paths[k - 1])
    }
}

/// The union of a collection of polygons; empty input yields empty output.
pub open spec fn union_shapes_spec(paths: Seq<Seq<Point>>) -> Seq<Seq<Seq<Point>>> {
    if paths.len() == 0 {
        Seq::empty()
    } else {
        union_upto_spec(paths, paths.len() as int)
    }
}

/// Folds every polygon into one unioned collection of shapes, each an outer
/// contour followed by its holes.
pub fn union_shapes(mut shapes: Vec<Vec<Point>>) -> (r: Vec<Vec<Vec<Point>>>)
    requires
        paths_in_safe_range(path_views(shapes@)),
    ensures
        shape_views(r@) == union_shapes_spec(path_views(shapes@)),
        shapes_in_safe_range(shape_views(r@)),
{
    let ghost orig = path_views(shapes@);
    if shapes.len() == 0 {
        let empty: Vec<Vec<Vec<Point>>> = Vec::new();
        proof {
            assert(shape_views(empty@) =~= union_shapes_spec(orig));
        }
        return empty;
    }
    let first = shapes.remove(0);
    let mut acc: Vec<Vec<Vec<Point>>> = vec![vec![first]];
    proof {
        assert(shape_views(acc@) =~= union_upto_spec(orig, 1)) by {
            assert(path_views(acc@[0]@) =~= seq![orig[0]]);
        }
        assert forall|i: int| 0 <= i < shape_views(acc@).len() implies paths_in_safe_range(
            #[trigger] shape_views(acc@)[i],
        ) by {
            assert(shape_views(acc@)[i] =~= seq![orig[0]]);
            assert(path_in_safe_range(orig[0]));
        }
    }
    for i in 0..shapes.len()
        invariant
            path_views(shapes@) =~= orig.drop_first(),
            orig.len() == shapes@.len() + 1,
            paths_in_safe_range(orig),
            shape_views(acc@) == union_upto_spec(orig, i + 1),
            shapes_in_safe_range(shape_views(acc@)),
    {
        proof {
            assert(shapes@[i as int]@ == orig.drop_first()[i as int]);
            assert(orig.drop_first()[i as int] == orig[i + 1]);
            lemma_shapes_contours_safe(shape_views(acc@));
        }
        let flat = flatten_shapes(&acc);
        acc = overlay_union(&flat, &shapes[i]);
    }
    acc
}

/// The bounding box of a rectangle's four corners is exactly the center
/// offset by half the width and half the height on each side (halves
/// truncated as in the corner computation).
pub proof fn lemma_rectangle_bounds(center: Point, size: Point)
    requires
        -(MAX_COORD + MAX_SCALED) <= center.x <= MAX_COORD + MAX_SCALED,
        -(MAX_COORD + MAX_SCALED) <= center.y <= MAX_COORD + MAX_SCALED,
        0 <= size.x <= MAX_SCALED,
        0 <= size.y <= MAX_SCALED,
    ensures
        ({
            let b = bounds_spec(generate_rectangle_spec(center, size));
            &&& b.0.x == center.x - size.x / 2
            &&& b.0.y == center.y - size.y / 2
            &&& b.1.x == center.x + size.x / 2
            &&& b.1.y == center.y + size.y / 2
        }),
{
    let r = generate_rectangle_spec(center, size);
    assert(bounds_upto_spec(r, 1) == {
        let (mn, mx) = bounds_upto_spec(r, 0);
        let p = r[0];
        (
            Point {
                x: if p.x < mn.x { p.x } else { mn.x },
                y: if p.y < mn.y { p.y } else { mn.y },
            },
            Point {
                x: if p.x > mx.x { p.x } else { mx.x },
                y: if p.y > mx.y { p.y } else { mx.y },
            },
        )
    });
    assert(bounds_upto_spec(r, 2) == {
        let (mn, mx) = bounds_upto_spec(r, 1);
        let p = r[1];
        (
            Point {
                x: if p.x < mn.x { p.x } else { mn.x },
                y: if p.y < mn.y { p.y } else { mn.y },
            },
            Point {
                x: if p.x > mx.x { p.x } else { mx.x },
                y: if p.y > mx.y { p.y } else { mx.y },
            },
        )
    });
    assert(bounds_upto_spec(r, 3) == {
        let (mn, mx) = bounds_upto_spec(r, 2);
        let p = r[2];
        (
            Point {
                x: if p.x < mn.x { p.x } else { mn.x },
                y: if p.y < mn.y { p.y } else { mn.y },
            },
            Point {
                x: if p.x > mx.x { p.x } else { mx.x },
                y: if p.y > mx.y { p.y } else { mx.y },
            },
        )
    });
    assert(bounds_upto_spec(r, 4) == {
        let (mn, mx) = bounds_upto_spec(r, 3);
        let p = r[3];
        (
            Point {
                x: if p.x < mn.x { p.x } else { mn.x },
                y: if p.y < mn.y { p.y } else { mn.y },
            },
            Point {
                x: if p.x > mx.x { p.x } else { mx.x },
                y: if p.y > mx.y { p.y } else { mx.y },
            },
        )
    });
}

} // verus!
