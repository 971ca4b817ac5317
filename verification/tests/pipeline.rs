use std::collections::HashMap;

use pcbplot::pcb::process_gerber;
use pcbplot::pcb::PolygonKind;
use pcbplot::ApertureShape;
use pcbplot::Configuration;
use pcbplot::DrillFile;
use pcbplot::Operation;
use pcbplot::Pcb;
use pcbplot::Point;

fn pt(x: i64, y: i64) -> Point {
    Point::new(x, y)
}

fn unit_config(pads_only: bool) -> Configuration {
    Configuration::new(1000, 1000, pads_only)
}

#[test]
fn pads_only_suppresses_traces_but_not_guides() {
    let commands = vec![Operation::Move(pt(0, 0)), Operation::Interpolate(pt(1000000, 0))];
    let apertures: HashMap<u32, ApertureShape> = HashMap::new();

    let mut pcb = Pcb::new(unit_config(true));
    pcb.add_traces(&commands, &apertures);
    assert_eq!(pcb.paths.len(), 0, "trace layer must stay empty in pads-only mode");

    pcb.add_guide(&commands, &apertures);
    assert!(pcb.guides.len() > 0, "guide layer must still render");
}

#[test]
fn select_move_interpolate_emits_caps_and_quad() {
    let mut apertures = HashMap::new();
    apertures.insert(10u32, ApertureShape::Circle { diameter: 400000 });
    let commands = vec![
        Operation::SelectAperture(10),
        Operation::Move(pt(0, 0)),
        Operation::Interpolate(pt(2000000, 0)),
    ];
    let mut pcb = Pcb::new(unit_config(false));
    pcb.add_traces(&commands, &apertures);
    // A cap at each of the two vertices, plus the flushed thickened segment.
    assert_eq!(pcb.paths.len(), 3);
    assert_eq!(pcb.paths[0].len(), 50);
    assert_eq!(pcb.paths[1].len(), 50);
    assert_eq!(pcb.paths[2].len(), 4);
}

#[test]
fn end_to_end_trace_bounding_box() {
    let mut apertures = HashMap::new();
    apertures.insert(10u32, ApertureShape::Circle { diameter: 400000 });
    let commands = vec![
        Operation::SelectAperture(10),
        Operation::Move(pt(0, 0)),
        Operation::Interpolate(pt(2000000, 0)),
    ];
    let mut pcb = Pcb::new(unit_config(false));
    pcb.add_traces(&commands, &apertures);
    let scene = pcb.into_svg().expect("geometry was drawn");
    // Thickness 0.4 mm: the box is the 2 mm segment widened by 0.2 mm and
    // extended by the 0.2 mm cap radius on each end.
    assert_eq!((scene.min.x, scene.min.y), (-200000, -200000));
    assert_eq!((scene.max.x, scene.max.y), (2200000, 200000));
    assert!(scene.polygons.len() >= 1);
    assert!(scene.polygons.iter().all(|p| p.kind == PolygonKind::Trace));
}

#[test]
fn obround_flash_decomposes_into_two_circles_and_a_rectangle() {
    let mut apertures = HashMap::new();
    apertures.insert(1u32, ApertureShape::Obround { width: 600000, height: 200000 });
    let commands = vec![Operation::SelectAperture(1), Operation::Flash(pt(0, 0))];
    let mut pcb = Pcb::new(unit_config(false));
    pcb.add_traces(&commands, &apertures);
    assert_eq!(pcb.paths.len(), 3);
    // Two 50-gons of radius 100000 centered at x = -200000 and x = +200000.
    assert_eq!(pcb.paths[0].len(), 50);
    assert_eq!((pcb.paths[0][0].x, pcb.paths[0][0].y), (-200000 + 100000, 0));
    assert_eq!(pcb.paths[1].len(), 50);
    assert_eq!((pcb.paths[1][0].x, pcb.paths[1][0].y), (200000 + 100000, 0));
    // The rectangle spans the straight section: size (400000, 200000).
    let rect = &pcb.paths[2];
    let corners: Vec<(i64, i64)> = rect.iter().map(|p| (p.x, p.y)).collect();
    assert_eq!(
        corners,
        vec![(-200000, 100000), (200000, 100000), (200000, -100000), (-200000, -100000)]
    );
}

#[test]
fn square_obround_omits_the_degenerate_rectangle() {
    let mut apertures = HashMap::new();
    apertures.insert(1u32, ApertureShape::Obround { width: 200000, height: 200000 });
    let commands = vec![Operation::SelectAperture(1), Operation::Flash(pt(0, 0))];
    let mut pcb = Pcb::new(unit_config(false));
    pcb.add_traces(&commands, &apertures);
    assert_eq!(pcb.paths.len(), 2, "two coincident circles, no straight section");
}

#[test]
fn flash_with_unknown_aperture_degrades_to_nothing() {
    let apertures: HashMap<u32, ApertureShape> = HashMap::new();
    let commands = vec![Operation::SelectAperture(9), Operation::Flash(pt(0, 0))];
    let mut pcb = Pcb::new(unit_config(false));
    pcb.add_traces(&commands, &apertures);
    assert_eq!(pcb.paths.len(), 0);
}

#[test]
fn flash_without_selection_emits_nothing() {
    let mut apertures = HashMap::new();
    apertures.insert(1u32, ApertureShape::Circle { diameter: 400000 });
    let commands = vec![Operation::Flash(pt(0, 0))];
    let mut pcb = Pcb::new(unit_config(false));
    pcb.add_traces(&commands, &apertures);
    assert_eq!(pcb.paths.len(), 0);
}

#[test]
fn rectangle_flash_scales_with_aperture_multiplier() {
    let mut apertures = HashMap::new();
    apertures.insert(1u32, ApertureShape::Rectangle { width: 1000000, height: 500000 });
    let commands = vec![Operation::SelectAperture(1), Operation::Flash(pt(0, 0))];
    // Aperture multiplier two, trace multiplier one.
    let mut pcb = Pcb::new(Configuration::new(2000, 1000, false));
    pcb.add_traces(&commands, &apertures);
    assert_eq!(pcb.paths.len(), 1);
    let corners: Vec<(i64, i64)> = pcb.paths[0].iter().map(|p| (p.x, p.y)).collect();
    assert_eq!(
        corners,
        vec![(-1000000, 500000), (1000000, 500000), (1000000, -500000), (-1000000, -500000)]
    );
}

#[test]
fn process_gerber_appends_to_existing_collection() {
    let mut apertures = HashMap::new();
    apertures.insert(1u32, ApertureShape::Rectangle { width: 200000, height: 200000 });
    let commands = vec![Operation::SelectAperture(1), Operation::Flash(pt(0, 0))];
    let config = unit_config(false);
    let mut shapes: Vec<Vec<Point>> = vec![vec![pt(1, 1), pt(2, 2), pt(3, 1)]];
    process_gerber(&config, &mut shapes, &commands, &apertures, false);
    assert_eq!(shapes.len(), 2);
    assert_eq!(shapes[0].len(), 3, "existing polygons are kept");
}

#[test]
fn drill_hits_become_circles_on_the_trace_layer() {
    let drill = DrillFile::parse("M48\nT1C0.5\nT1\nX1.0Y2.0\n").unwrap();
    let mut pcb = Pcb::new(unit_config(false));
    pcb.add_drill(drill);
    assert_eq!(pcb.paths.len(), 1);
    assert_eq!(pcb.paths[0].len(), 50);
    // Radius 0.25 mm around (1.0, 2.0): the first vertex is at angle zero.
    assert_eq!((pcb.paths[0][0].x, pcb.paths[0][0].y), (1250000, 2000000));
}

#[test]
fn empty_drawing_yields_no_scene() {
    let pcb = Pcb::new(unit_config(false));
    assert!(pcb.into_svg().is_none());
}

#[test]
fn scene_flips_the_vertical_axis() {
    let mut apertures = HashMap::new();
    apertures.insert(1u32, ApertureShape::Rectangle { width: 2000000, height: 1000000 });
    let commands = vec![Operation::SelectAperture(1), Operation::Flash(pt(0, 0))];
    let mut pcb = Pcb::new(unit_config(false));
    pcb.add_traces(&commands, &apertures);
    let scene = pcb.into_svg().expect("geometry was drawn");
    assert_eq!((scene.min.x, scene.min.y), (-1000000, -500000));
    assert_eq!((scene.max.x, scene.max.y), (1000000, 500000));
    // min.y + max.y == 0, so the flip is y -> -y.
    for poly in &scene.polygons {
        for p in &poly.points {
            assert!(p.y == 500000 || p.y == -500000);
        }
    }
}

#[test]
fn guides_are_emitted_after_traces() {
    let mut apertures = HashMap::new();
    apertures.insert(1u32, ApertureShape::Rectangle { width: 1000000, height: 1000000 });
    let commands = vec![Operation::SelectAperture(1), Operation::Flash(pt(0, 0))];
    let mut pcb = Pcb::new(unit_config(false));
    pcb.add_traces(&commands, &apertures);
    pcb.add_guide(&commands, &apertures);
    let scene = pcb.into_svg().expect("geometry was drawn");
    let kinds: Vec<PolygonKind> = scene.polygons.iter().map(|p| p.kind).collect();
    let first_guide = kinds.iter().position(|k| *k == PolygonKind::Guide).unwrap();
    assert!(kinds[..first_guide].iter().all(|k| *k == PolygonKind::Trace));
    assert!(kinds[first_guide..].iter().all(|k| *k == PolygonKind::Guide));
}
