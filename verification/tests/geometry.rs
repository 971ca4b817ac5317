use pcbplot::file_extension;
use pcbplot::geometry::bounds;
use pcbplot::geometry::close_path;
use pcbplot::geometry::generate_circle;
use pcbplot::geometry::generate_rectangle;
use pcbplot::geometry::union_shapes;
use pcbplot::Point;
use pcbplot::CIRCLE_SIDES;

fn pt(x: i64, y: i64) -> Point {
    Point::new(x, y)
}

#[test]
fn close_path_point_counts() {
    assert_eq!(close_path(vec![], 500000).len(), 0);
    assert_eq!(close_path(vec![pt(1, 2)], 500000).len(), 0);
    assert_eq!(close_path(vec![pt(0, 0), pt(1000000, 0)], 500000).len(), 4);
    assert_eq!(
        close_path(
            vec![pt(0, 0), pt(1000000, 0), pt(1000000, 1000000), pt(0, 1000000)],
            500000,
        )
        .len(),
        12
    );
}

#[test]
fn close_path_horizontal_segment_quad() {
    let out = close_path(vec![pt(0, 0), pt(1000000, 0)], 500000);
    let expected = [
        (0, 250000),
        (0, -250000),
        (1000000, -250000),
        (1000000, 250000),
    ];
    assert_eq!(out.len(), 4);
    for (p, e) in out.iter().zip(expected.iter()) {
        assert_eq!((p.x, p.y), *e);
    }
}

#[test]
fn close_path_zero_thickness_degenerates_to_centerline() {
    let out = close_path(vec![pt(0, 0), pt(1000000, 0)], 0);
    assert_eq!(out.len(), 4);
    assert_eq!((out[0].x, out[0].y), (0, 0));
    assert_eq!((out[2].x, out[2].y), (1000000, 0));
}

#[test]
fn close_path_coincident_points_collapse_to_one_spot() {
    let out = close_path(vec![pt(5, 5), pt(5, 5)], 500000);
    assert_eq!(out.len(), 4);
    for p in &out {
        assert_eq!((p.x, p.y), (5, 5));
    }
}

#[test]
fn circle_point_count() {
    let out = generate_circle(pt(0, 0), 500000, CIRCLE_SIDES);
    assert_eq!(out.len(), CIRCLE_SIDES as usize);
    let tri = generate_circle(pt(0, 0), 500000, 3);
    assert_eq!(tri.len(), 3);
}

#[test]
fn circle_nonpositive_radius_is_empty() {
    assert_eq!(generate_circle(pt(0, 0), 0, CIRCLE_SIDES).len(), 0);
    assert_eq!(generate_circle(pt(0, 0), -5, CIRCLE_SIDES).len(), 0);
}

#[test]
fn circle_vertices_lie_on_the_circle() {
    let r: i64 = 500000;
    let c = pt(1000000, 2000000);
    let out = generate_circle(c, r, CIRCLE_SIDES);
    assert_eq!(out.len(), 50);
    for p in out.iter() {
        let dx = (p.x - c.x) as f64;
        let dy = (p.y - c.y) as f64;
        let dist = (dx * dx + dy * dy).sqrt();
        assert!((dist - r as f64).abs() < 5.0, "distance {dist} too far from {r}");
    }
    // The first vertex is at angle zero, exactly one radius to the right.
    assert_eq!((out[0].x, out[0].y), (c.x + r, c.y));
}

#[test]
fn rectangle_corners_and_bounds() {
    let out = generate_rectangle(pt(10, 20), pt(6, 4));
    let expected = [(7, 22), (13, 22), (13, 18), (7, 18)];
    assert_eq!(out.len(), 4);
    for (p, e) in out.iter().zip(expected.iter()) {
        assert_eq!((p.x, p.y), *e);
    }
    let (mn, mx) = bounds(&out);
    assert_eq!((mn.x, mn.y), (7, 18));
    assert_eq!((mx.x, mx.y), (13, 22));
}

#[test]
fn bounds_of_empty_stream_is_sentinel() {
    let (mn, mx) = bounds(&vec![]);
    assert_eq!((mn.x, mn.y), (i64::MAX, i64::MAX));
    assert_eq!((mx.x, mx.y), (i64::MIN, i64::MIN));
}

#[test]
fn union_of_nothing_is_empty() {
    let out = union_shapes(vec![]);
    assert!(out.is_empty());
}

#[test]
fn union_of_polygon_with_itself_is_the_polygon() {
    let square = vec![pt(0, 0), pt(1000000, 0), pt(1000000, 1000000), pt(0, 1000000)];
    let out = union_shapes(vec![square.clone(), square.clone()]);
    assert_eq!(out.len(), 1, "one group expected");
    assert_eq!(out[0].len(), 1, "one outer contour, no holes");
    let mut got: Vec<(i64, i64)> = out[0][0].iter().map(|p| (p.x, p.y)).collect();
    let mut want: Vec<(i64, i64)> = square.iter().map(|p| (p.x, p.y)).collect();
    got.sort();
    want.sort();
    assert_eq!(got, want);
}

#[test]
fn file_extension_cases() {
    assert_eq!(file_extension("board.gbr").as_deref(), Some("gbr"));
    assert_eq!(file_extension("out/board.drl").as_deref(), Some("drl"));
    assert_eq!(file_extension("archive.tar.gz").as_deref(), Some("gz"));
    assert_eq!(file_extension("dir.d/file"), None);
    assert_eq!(file_extension(".bashrc"), None);
    assert_eq!(file_extension("plain"), None);
}
