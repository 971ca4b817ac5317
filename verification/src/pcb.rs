use vstd::prelude::*;

use std::collections::HashMap;

use crate::config::scale_value;
use crate::drill::holes_view;
use crate::drill::DrillFile;
use crate::drill::DrillOpsView;
use crate::geometry::bounds;
use crate::geometry::bounds_spec;
use crate::geometry::path_in_safe_range;
use crate::geometry::shape_views;
use crate::geometry::union_shapes;
use crate::geometry::union_shapes_spec;
use crate::point::in_safe_range;
use crate::config::scaled_spec;
use crate::config::Configuration;
use crate::geometry::close_path;
use crate::geometry::close_path_spec;
use crate::geometry::generate_circle;
use crate::geometry::generate_circle_spec;
use crate::geometry::generate_rectangle;
use crate::geometry::generate_rectangle_spec;
use crate::geometry::path_views;
use crate::point::all_in_geom_range;
use crate::point::all_in_input_range;
use crate::point::in_input_range;
use crate::point::Point;
use crate::CIRCLE_SIDES;
use crate::MAX_COORD;
use crate::MAX_SCALED;

verus! {

broadcast use vstd::std_specs::hash::group_hash_axioms;

/// A stamp shape from the aperture table, with its dimensions in board
/// units.
#[derive(Clone, Copy, PartialEq, Eq, Structural, Debug)]
pub enum ApertureShape {
    Circle { diameter: i64 },
    Rectangle { width: i64, height: i64 },
    Obround { width: i64, height: i64 },
}

/// One decoded drawing command.
#[derive(Clone, Copy, PartialEq, Eq, Structural, Debug)]
pub enum Operation {
    SelectAperture(u32),
    Move(Point),
    Interpolate(Point),
    Flash(Point),
}

/// The shape's dimensions are non-negative and within the input range.
pub open spec fn shape_valid(a: ApertureShape) -> bool {
    match a {
        ApertureShape::Circle { diameter } => 0 <= diameter <= MAX_COORD,
        ApertureShape::Rectangle { width, height } => 0 <= width <= MAX_COORD && 0 <= height
            <= MAX_COORD,
        ApertureShape::Obround { width, height } => 0 <= width <= MAX_COORD && 0 <= height
            <= MAX_COORD,
    }
}

/// Every shape of the table is valid.
pub open spec fn table_valid(t: Map<u32, ApertureShape>) -> bool {
    forall|id: u32| t.contains_key(id) ==> shape_valid(#[trigger] t[id])
}

/// The command's coordinates are within the input range.
pub open spec fn op_valid(o: Operation) -> bool {
    match o {
        Operation::SelectAperture(_) => true,
        Operation::Move(p) => in_input_range(p),
        Operation::Interpolate(p) => in_input_range(p),
        Operation::Flash(p) => in_input_range(p),
    }
}

/// Every command of the stream is valid.
pub open spec fn ops_valid(s: Seq<Operation>) -> bool {
    forall|i: int| 0 <= i < s.len() ==> op_valid(#[trigger] s[i])
}

/// Every point of every polygon is within the synthesized-geometry bound.
pub open spec fn polys_in_geom(s: Seq<Seq<Point>>) -> bool {
    forall|i: int| 0 <= i < s.len() ==> all_in_geom_range(#[trigger] s[i])
}

/// The aggregator's running state: the selected aperture id, the derived
/// trace width, and the pending centerline.
pub ghost struct AggSt {
    pub cur: Option<u32>,
    pub thickness: int,
    pub path: Seq<Point>,
}

/// The state before any command: no aperture, zero width, empty path.
pub open spec fn agg_init() -> AggSt {
    AggSt { cur: None, thickness: 0, path: Seq::empty() }
}

/// Appends a polygon unless it is empty: degenerate polygons are never
/// emitted to a layer.
pub open spec fn push_poly(shapes: Seq<Seq<Point>>, poly: Seq<Point>) -> Seq<Seq<Point>> {
    if poly.len() == 0 {
        shapes
    } else {
        shapes.push(poly)
    }
}

/// The round pen cap drawn at a path vertex: a circle of half the trace
/// width.
pub open spec fn cap_circle(p: Point, thickness: int) -> Seq<Point> {
    generate_circle_spec(p, thickness / 2, CIRCLE_SIDES as int)
}

/// The polygons a flash of an obround aperture emits: two circles at the
/// ends of the long axis plus the rectangle spanning the straight section,
/// which is omitted when the obround is a circle (no straight section).
pub open spec fn obround_polys(pos: Point, w: int, h: int) -> Seq<Seq<Point>> {
    if w >= h {
        let r = h / 2;
        let dx = w / 2 - h / 2;
        let c1 = generate_circle_spec(
            Point { x: (pos.x - dx) as i64, y: pos.y },
            r,
            CIRCLE_SIDES as int,
        );
        let c2 = generate_circle_spec(
            Point { x: (pos.x + dx) as i64, y: pos.y },
            r,
            CIRCLE_SIDES as int,
        );
        let rect = if w == h {
            Seq::<Point>::empty()
        } else {
            generate_rectangle_spec(pos, Point { x: (w - h) as i64, y: h as i64 })
        };
        push_poly(push_poly(push_poly(Seq::empty(), c1), c2), rect)
    } else {
        let r = w / 2;
        let dy = h / 2 - w / 2;
        let c1 = generate_circle_spec(
            Point { x: pos.x, y: (pos.y - dy) as i64 },
            r,
            CIRCLE_SIDES as int,
        );
        let c2 = generate_circle_spec(
            Point { x: pos.x, y: (pos.y + dy) as i64 },
            r,
            CIRCLE_SIDES as int,
        );
        let rect = generate_rectangle_spec(pos, Point { x: w as i64, y: (h - w) as i64 });
        push_poly(push_poly(push_poly(Seq::empty(), c1), c2), rect)
    }
}

/// The polygons a flash emits: the current aperture's shape stamped at the
/// flash position, scaled by the aperture multiplier; nothing when no
/// usable aperture is selected.
pub open spec fn flash_polys(
    cfg: Configuration,
    table: Map<u32, ApertureShape>,
    cur: Option<u32>,
    p: Point,
) -> Seq<Seq<Point>> {
    match cur {
        None => Seq::empty(),
        Some(id) => if !table.contains_key(id) {
            Seq::empty()
        } else {
            match table[id] {
                ApertureShape::Circle { diameter } => push_poly(
                    Seq::empty(),
                    generate_circle_spec(
                        p,
                        scaled_spec(diameter as int, cfg.aperture_thickness as int) / 2,
                        CIRCLE_SIDES as int,
                    ),
                ),
                ApertureShape::Rectangle { width, height } => push_poly(
                    Seq::empty(),
                    generate_rectangle_spec(
                        p,
                        Point {
                            x: scaled_spec(width as int, cfg.aperture_thickness as int) as i64,
                            y: scaled_spec(height as int, cfg.aperture_thickness as int) as i64,
                        },
                    ),
                ),
                ApertureShape::Obround { width, height } => obround_polys(
                    p,
                    scaled_spec(width as int, cfg.aperture_thickness as int),
                    scaled_spec(height as int, cfg.aperture_thickness as int),
                ),
            }
        },
    }
}

/// One command's effect on the aggregator: the successor state and the
/// polygons emitted, with trace synthesis active only when `traces` holds.
pub open spec fn agg_step(
    cfg: Configuration,
    table: Map<u32, ApertureShape>,
    traces: bool,
    st: AggSt,
    op: Operation,
) -> (AggSt, Seq<Seq<Point>>) {
    match op {
        Operation::SelectAperture(id) => (
            AggSt {
                cur: Some(id),
                thickness: if table.contains_key(id) {
                    match table[id] {
                        ApertureShape::Circle { diameter } => scaled_spec(
                            diameter as int,
                            cfg.trace_thickness as int,
                        ),
                        _ => st.thickness,
                    }
                } else {
                    st.thickness
                },
                path: st.path,
            },
            Seq::empty(),
        ),
        Operation::Move(p) => if traces {
            let flushed = if st.path.len() > 0 {
                push_poly(Seq::empty(), close_path_spec(st.path, st.thickness))
            } else {
                Seq::empty()
            };
            (
                AggSt { cur: st.cur, thickness: st.thickness, path: seq![p] },
                push_poly(flushed, cap_circle(p, st.thickness)),
            )
        } else {
            (st, Seq::empty())
        },
        Operation::Interpolate(p) => if traces {
            (
                AggSt { cur: st.cur, thickness: st.thickness, path: st.path.push(p) },
                push_poly(Seq::empty(), cap_circle(p, st.thickness)),
            )
        } else {
            (st, Seq::empty())
        },
        Operation::Flash(p) => (st, flash_polys(cfg, table, st.cur, p)),
    }
}

/// The aggregator's state and emitted polygons after a whole command
/// stream, folded from the initial state.
pub open spec fn agg_run(
    cfg: Configuration,
    table: Map<u32, ApertureShape>,
    traces: bool,
    ops: Seq<Operation>,
) -> (AggSt, Seq<Seq<Point>>)
    decreases ops.len(),
{
    if ops.len() == 0 {
        (agg_init(), Seq::empty())
    } else {
        let prev = agg_run(cfg, table, traces, ops.drop_last());
        let stepped = agg_step(cfg, table, traces, prev.0, ops.last());
        (stepped.0, prev.1 + stepped.1)
    }
}

/// Everything one aggregation pass emits: the fold over the command stream,
/// then the final flush of a still-pending path. Trace synthesis is
/// suppressed for the primary layer in pads-only mode, never for the guide
/// layer.
pub open spec fn process_gerber_spec(
    cfg: Configuration,
    table: Map<u32, ApertureShape>,
    ops: Seq<Operation>,
    guide: bool,
) -> Seq<Seq<Point>> {
    let traces = !cfg.pads_only || guide;
    let run = agg_run(cfg, table, traces, ops);
    if run.0.path.len() > 0 {
        push_poly(run.1, close_path_spec(run.0.path, run.0.thickness))
    } else {
        run.1
    }
}

/// Walks one command stream for one layer, synthesizing trace and pad
/// polygons into `shapes` as `process_gerber_spec` describes.
#[verifier::rlimit(100)]
pub fn process_gerber(
    config: &Configuration,
    shapes: &mut Vec<Vec<Point>>,
    commands: &Vec<Operation>,
    apertures: &HashMap<u32, ApertureShape>,
    guide: bool,
) -> (r: ())
    requires
        config.valid(),
        ops_valid(commands@),
        table_valid(apertures@),
        polys_in_geom(path_views(old(shapes)@)),
    ensures
        path_views(final(shapes)@) == path_views(old(shapes)@) + process_gerber_spec(
            *config,
            apertures@,
            commands@,
            guide,
        ),
        polys_in_geom(path_views(final(shapes)@)),
{
    let ghost cfg = *config;
    let ghost table = apertures@;
    let ghost ops = commands@;
    let ghost base = path_views(shapes@);
    let traces = !config.pads_only || guide;
    let mut cur: Option<u32> = None;
    let mut thickness: i64 = 0;
    let mut path: Vec<Point> = Vec::new();
    proof {
        assert(ops.take(0) =~= Seq::<Operation>::empty());
        assert(path_views(shapes@) =~= base + agg_run(cfg, table, traces, ops.take(0)).1);
    }
    for i in 0..commands.len()
        invariant
            cfg == *config,
            table == apertures@,
            ops == commands@,
            config.valid(),
            ops_valid(ops),
            table_valid(table),
            traces == (!cfg.pads_only || guide),
            vstd::std_specs::hash::obeys_key_model::<u32>(),
            ({
                let run = agg_run(cfg, table, traces, ops.take(i as int));
                &&& cur == run.0.cur
                &&& thickness as int == run.0.thickness
                &&& path@ == run.0.path
                &&& path_views(shapes@) == base + run.1
            }),
            0 <= thickness <= MAX_SCALED,
            all_in_input_range(path@),
            polys_in_geom(path_views(shapes@)),
    {
        proof {
            assert(ops.take(i + 1).drop_last() =~= ops.take(i as int));
            assert(ops.take(i + 1).last() == ops[i as int]);
        }
        let ghost st = agg_run(cfg, table, traces, ops.take(i as int)).0;
        let op = commands[i];
        match op {
            Operation::SelectAperture(id) => {
                cur = Some(id);
                match apertures.get(&id) {
                    Some(shape) => {
                        match shape {
                            ApertureShape::Circle { diameter } => {
                                thickness = scale_value(*diameter, config.trace_thickness);
                            },
                            _ => {},
                        }
                    },
                    None => {},
                }
            },
            Operation::Move(p) => {
                if traces {
                    if path.len() > 0 {
                        let pending = path;
                        path = Vec::new();
                        let poly = close_path(pending, thickness);
                        if poly.len() > 0 {
                            shapes.push(poly);
                        }
                    }
                    let cap = generate_circle(p, ((thickness as u64) / 2) as i64, CIRCLE_SIDES);
                    if cap.len() > 0 {
                        shapes.push(cap);
                    }
                    path.push(p);
                    proof {
                        assert(path@ =~= seq![p]);
                    }
                }
            },
            Operation::Interpolate(p) => {
                if traces {
                    let cap = generate_circle(p, ((thickness as u64) / 2) as i64, CIRCLE_SIDES);
                    if cap.len() > 0 {
                        shapes.push(cap);
                    }
                    path.push(p);
                }
            },
            Operation::Flash(p) => {
                match cur {
                    None => {},
                    Some(id) => {
                        match apertures.get(&id) {
                            None => {},
                            Some(shape) => {
                                match *shape {
                                    ApertureShape::Circle { diameter } => {
                                        let radius = ((scale_value(
                                            diameter,
                                            config.aperture_thickness,
                                        ) as u64) / 2) as i64;
                                        let c = generate_circle(p, radius, CIRCLE_SIDES);
                                        if c.len() > 0 {
                                            shapes.push(c);
                                        }
                                    },
                                    ApertureShape::Rectangle { width, height } => {
                                        let size = Point {
                                            x: scale_value(width, config.aperture_thickness),
                                            y: scale_value(height, config.aperture_thickness),
                                        };
                                        let rect = generate_rectangle(p, size);
                                        shapes.push(rect);
                                    },
                                    ApertureShape::Obround { width, height } => {
                                        let w = scale_value(width, config.aperture_thickness);
                                        let h = scale_value(height, config.aperture_thickness);
                                        if w >= h {
                                            let r = ((h as u64) / 2) as i64;
                                            let dx = ((w as u64) / 2) as i64 - ((h as u64) / 2)
                                                as i64;
                                            let c1 = generate_circle(
                                                Point { x: p.x - dx, y: p.y },
                                                r,
                                                CIRCLE_SIDES,
                                            );
                                            if c1.len() > 0 {
                                                shapes.push(c1);
                                            }
                                            let c2 = generate_circle(
                                                Point { x: p.x + dx, y: p.y },
                                                r,
                                                CIRCLE_SIDES,
                                            );
                                            if c2.len() > 0 {
                                                shapes.push(c2);
                                            }
                                            if w != h {
                                                let rect = generate_rectangle(
                                                    p,
                                                    Point { x: w - h, y: h },
                                                );
                                                shapes.push(rect);
                                            }
                                        } else {
                                            let r = ((w as u64) / 2) as i64;
                                            let dy = ((h as u64) / 2) as i64 - ((w as u64) / 2)
                                                as i64;
                                            let c1 = generate_circle(
                                                Point { x: p.x, y: p.y - dy },
                                                r,
                                                CIRCLE_SIDES,
                                            );
                                            if c1.len() > 0 {
                                                shapes.push(c1);
                                            }
                                            let c2 = generate_circle(
                                                Point { x: p.x, y: p.y + dy },
                                                r,
                                                CIRCLE_SIDES,
                                            );
                                            if c2.len() > 0 {
                                                shapes.push(c2);
                                            }
                                            let rect = generate_rectangle(
                                                p,
                                                Point { x: w, y: h - w },
                                            );
                                            shapes.push(rect);
                                        }
                                    },
                                }
                            },
                        }
                    },
                }
            },
        }
        proof {
            let prev = agg_run(cfg, table, traces, ops.take(i as int));
            let stepped = agg_step(cfg, table, traces, st, ops[i as int]);
            assert(path_views(shapes@) =~= (base + prev.1) + stepped.1);
            assert((base + prev.1) + stepped.1 =~= base + (prev.1 + stepped.1));
            let run1 = agg_run(cfg, table, traces, ops.take(i + 1));
            assert(run1.1 == prev.1 + stepped.1);
            assert(run1.0 == stepped.0);
            assert(polys_in_geom(path_views(shapes@)));
        }
    }
    proof {
        assert(ops.take(commands@.len() as int) =~= ops);
    }
    if path.len() > 0 {
        let ghost run = agg_run(cfg, table, traces, ops);
        let poly = close_path(path, thickness);
        let ghost pv = poly@;
        proof {
            assert(pv == close_path_spec(run.0.path, run.0.thickness));
        }
        if poly.len() > 0 {
            shapes.push(poly);
            proof {
                assert(path_views(shapes@) =~= (base + run.1).push(pv));
                assert((base + run.1).push(pv) =~= base + run.1.push(pv));
                assert(path_views(shapes@) =~= base + process_gerber_spec(
                    cfg,
                    table,
                    ops,
                    guide,
                ));
                assert(polys_in_geom(path_views(shapes@)));
            }
        } else {
            proof {
                assert(path_views(shapes@) =~= base + process_gerber_spec(
                    cfg,
                    table,
                    ops,
                    guide,
                ));
            }
        }
    }
}


/// The radius of a drilled hole's circle: half the scaled diameter; zero,
/// yielding no polygon, for a diameter outside the accepted range.
pub open spec fn hit_radius(diameter: i64, cfg: Configuration) -> int {
    if 0 <= diameter <= MAX_COORD {
        scaled_spec(diameter as int, cfg.aperture_thickness as int) / 2
    } else {
        0
    }
}

/// The circle polygon one drill hit emits; nothing for a hit outside the
/// accepted coordinate range.
pub open spec fn hit_poly(p: Point, radius: int) -> Seq<Seq<Point>> {
    if in_input_range(p) {
        push_poly(Seq::empty(), generate_circle_spec(p, radius, CIRCLE_SIDES as int))
    } else {
        Seq::empty()
    }
}

/// The circle polygons one tool's hits emit, in recorded order.
pub open spec fn tool_polys(ops: DrillOpsView, cfg: Configuration) -> Seq<Seq<Point>>
    decreases ops.holes.len(),
{
    if ops.holes.len() == 0 {
        Seq::empty()
    } else {
        tool_polys(DrillOpsView { diameter: ops.diameter, holes: ops.holes.drop_last() }, cfg)
            + hit_poly(ops.holes.last(), hit_radius(ops.diameter, cfg))
    }
}

/// The circle polygons a whole drill file emits: every tool in definition
/// order, every hit in recorded order.
pub open spec fn drill_polys(
    tools: Seq<u32>,
    holes: Map<u32, DrillOpsView>,
    cfg: Configuration,
) -> Seq<Seq<Point>>
    decreases tools.len(),
{
    if tools.len() == 0 {
        Seq::empty()
    } else {
        drill_polys(tools.drop_last(), holes, cfg) + if holes.contains_key(tools.last()) {
            tool_polys(holes[tools.last()], cfg)
        } else {
            Seq::empty()
        }
    }
}

/// One conversion in progress: the configuration and the raw polygon
/// collections of the trace and guide layers.
pub struct Pcb {
    pub config: Configuration,
    pub paths: Vec<Vec<Point>>,
    pub guides: Vec<Vec<Point>>,
}

impl Pcb {
    /// The configuration is valid and every stored polygon is within the
    /// synthesized-geometry bound.
    pub open spec fn wf(self) -> bool {
        &&& self.config.valid()
        &&& polys_in_geom(path_views(self.paths@))
        &&& polys_in_geom(path_views(self.guides@))
    }

    /// An empty conversion under the given configuration.
    pub fn new(config: Configuration) -> (r: Self)
        requires
            config.valid(),
        ensures
            r.config == config,
            r.paths@.len() == 0,
            r.guides@.len() == 0,
            r.wf(),
    {
        Pcb { config, paths: Vec::new(), guides: Vec::new() }
    }

    /// Aggregates a command stream into the trace layer.
    pub fn add_traces(
        &mut self,
        commands: &Vec<Operation>,
        apertures: &HashMap<u32, ApertureShape>,
    )
        requires
            old(self).wf(),
            ops_valid(commands@),
            table_valid(apertures@),
        ensures
            final(self).wf(),
            final(self).config == old(self).config,
            final(self).guides == old(self).guides,
            path_views(final(self).paths@) == path_views(old(self).paths@) + process_gerber_spec(
                old(self).config,
                apertures@,
                commands@,
                false,
            ),
    {
        let cfg = self.config;
        process_gerber(&cfg, &mut self.paths, commands, apertures, false);
    }

    /// Aggregates a command stream into the guide layer, where trace
    /// synthesis stays active regardless of pads-only mode.
    pub fn add_guide(
        &mut self,
        commands: &Vec<Operation>,
        apertures: &HashMap<u32, ApertureShape>,
    )
        requires
            old(self).wf(),
            ops_valid(commands@),
            table_valid(apertures@),
        ensures
            final(self).wf(),
            final(self).config == old(self).config,
            final(self).paths == old(self).paths,
            path_views(final(self).guides@) == path_views(old(self).guides@) + process_gerber_spec(
                old(self).config,
                apertures@,
                commands@,
                true,
            ),
    {
        let cfg = self.config;
        process_gerber(&cfg, &mut self.guides, commands, apertures, true);
    }

    /// Expands every drill hit into a circle on the trace layer.
    pub fn add_drill(&mut self, drill: DrillFile)
        requires
            old(self).wf(),
        ensures
            final(self).wf(),
            final(self).config == old(self).config,
            final(self).guides == old(self).guides,
            path_views(final(self).paths@) == path_views(old(self).paths@) + drill_polys(
                drill.tools@,
                holes_view(drill.holes@),
                old(self).config,
            ),
    {
        let ghost cfg = self.config;
        let ghost base = path_views(self.paths@);
        let ghost guides0 = self.guides;
        let ghost tools = drill.tools@;
        let ghost hmap = holes_view(drill.holes@);
        proof {
            assert(tools.take(0) =~= Seq::<u32>::empty());
            assert(path_views(self.paths@) =~= base + drill_polys(tools.take(0), hmap, cfg));
        }
        for ti in 0..drill.tools.len()
            invariant
                self.config == cfg,
                cfg.valid(),
                tools == drill.tools@,
                hmap == holes_view(drill.holes@),
                vstd::std_specs::hash::obeys_key_model::<u32>(),
                self.guides == guides0,
                path_views(self.paths@) == base + drill_polys(tools.take(ti as int), hmap, cfg),
                polys_in_geom(path_views(self.paths@)),
                polys_in_geom(path_views(self.guides@)),
        {
            proof {
                assert(tools.take(ti + 1).drop_last() =~= tools.take(ti as int));
                assert(tools.take(ti + 1).last() == tools[ti as int]);
            }
            let ghost base_t = path_views(self.paths@);
            let tool = drill.tools[ti];
            match drill.holes.get(&tool) {
                None => {},
                Some(ops) => {
                    let radius: i64 = if 0 <= ops.diameter && ops.diameter <= MAX_COORD {
                        ((scale_value(ops.diameter, self.config.aperture_thickness) as u64) / 2)
                            as i64
                    } else {
                        0
                    };
                    let ghost ov = hmap[tool];
                    proof {
                        assert(radius as int == hit_radius(ov.diameter, cfg));
                        assert(ov.holes.take(0) =~= Seq::<Point>::empty());
                        assert(tool_polys(
                            DrillOpsView { diameter: ov.diameter, holes: ov.holes.take(0) },
                            cfg,
                        ) =~= Seq::<Seq<Point>>::empty());
                    }
                    for hi in 0..ops.holes.len()
                        invariant
                            self.config == cfg,
                            cfg.valid(),
                            ops@ == ov,
                            0 <= radius <= MAX_SCALED,
                            radius as int == hit_radius(ov.diameter, cfg),
                            self.guides == guides0,
                            path_views(self.paths@) == base_t + tool_polys(
                                DrillOpsView {
                                    diameter: ov.diameter,
                                    holes: ov.holes.take(hi as int),
                                },
                                cfg,
                            ),
                            polys_in_geom(path_views(self.paths@)),
                            polys_in_geom(path_views(self.guides@)),
                    {
                        proof {
                            assert(ov.holes.take(hi + 1).drop_last() =~= ov.holes.take(hi as int));
                            assert(ov.holes.take(hi + 1).last() == ov.holes[hi as int]);
                        }
                        let ghost pv0 = path_views(self.paths@);
                        let hit = ops.holes[hi];
                        if -MAX_COORD <= hit.x && hit.x <= MAX_COORD && -MAX_COORD <= hit.y
                            && hit.y <= MAX_COORD {
                            let c = generate_circle(hit, radius, CIRCLE_SIDES);
                            let ghost cv = c@;
                            proof {
                                assert(hit == ov.holes[hi as int]);
                                assert(cv == generate_circle_spec(
                                    ov.holes[hi as int],
                                    hit_radius(ov.diameter, cfg),
                                    CIRCLE_SIDES as int,
                                ));
                            }
                            if c.len() > 0 {
                                self.paths.push(c);
                                proof {
                                    assert(path_views(self.paths@) =~= pv0.push(cv));
                                    assert(hit_poly(
                                        ov.holes[hi as int],
                                        hit_radius(ov.diameter, cfg),
                                    ) =~= seq![cv]);
                                }
                            }
                        }
                        proof {
                            let prevt = tool_polys(
                                DrillOpsView {
                                    diameter: ov.diameter,
                                    holes: ov.holes.take(hi as int),
                                },
                                cfg,
                            );
                            let stepped = tool_polys(
                                DrillOpsView { diameter: ov.diameter, holes: ov.holes.take(hi + 1) },
                                cfg,
                            );
                            assert(DrillOpsView {
                                diameter: ov.diameter,
                                holes: ov.holes.take(hi + 1).drop_last(),
                            } == DrillOpsView {
                                diameter: ov.diameter,
                                holes: ov.holes.take(hi as int),
                            });
                            assert(stepped == prevt + hit_poly(
                                ov.holes[hi as int],
                                hit_radius(ov.diameter, cfg),
                            ));
                            assert(path_views(self.paths@) =~= base_t + stepped);
                        }
                    }
                    proof {
                        assert(ov.holes.take(ops@.holes.len() as int) =~= ov.holes);
                    }
                },
            }
            proof {
                assert(path_views(self.paths@) =~= base + drill_polys(
                    tools.take(ti + 1),
                    hmap,
                    cfg,
                ));
            }
        }
        proof {
            assert(tools.take(drill.tools@.len() as int) =~= tools);
        }
    }
}


/// How a scene polygon is styled: traces as solid fill, guides as unfilled
/// outline drawn on top.
#[derive(Clone, Copy, PartialEq, Eq, Structural, Debug)]
pub enum PolygonKind {
    Trace,
    Guide,
}

/// One positioned polygon of the output scene, in output coordinates.
#[derive(Debug)]
pub struct ScenePolygon {
    pub points: Vec<Point>,
    pub kind: PolygonKind,
}

/// The mathematical content of one scene polygon.
#[verifier::ext_equal]
pub ghost struct ScenePolyView {
    pub points: Seq<Point>,
    pub kind: PolygonKind,
}

impl View for ScenePolygon {
    type V = ScenePolyView;

    open spec fn view(&self) -> ScenePolyView {
        ScenePolyView { points: self.points@, kind: self.kind }
    }
}

/// The output scene: the bounding box of all unioned geometry and the
/// styled polygons, traces first, guides after (drawn on top).
#[derive(Debug)]
pub struct Scene {
    pub min: Point,
    pub max: Point,
    pub polygons: Vec<ScenePolygon>,
}

/// The mathematical content of a scene.
#[verifier::ext_equal]
pub ghost struct SceneView {
    pub min: Point,
    pub max: Point,
    pub polygons: Seq<ScenePolyView>,
}

impl View for Scene {
    type V = SceneView;

    open spec fn view(&self) -> SceneView {
        SceneView { min: self.min, max: self.max, polygons: scene_views(self.polygons@) }
    }
}

/// The views of a sequence of scene polygons.
pub open spec fn scene_views(v: Seq<ScenePolygon>) -> Seq<ScenePolyView> {
    v.map_values(|sp: ScenePolygon| sp@)
}

/// Every vertex of every contour of every shape, in order.
pub open spec fn contour_points(s: Seq<Seq<Point>>) -> Seq<Point>
    decreases s.len(),
{
    if s.len() == 0 {
        Seq::empty()
    } else {
        contour_points(s.drop_last()) + s.last()
    }
}

/// Every vertex of a whole union result, in order.
pub open spec fn shapes_points(s: Seq<Seq<Seq<Point>>>) -> Seq<Point>
    decreases s.len(),
{
    if s.len() == 0 {
        Seq::empty()
    } else {
        shapes_points(s.drop_last()) + contour_points(s.last())
    }
}

/// An integer clamped into the i64 range.
pub open spec fn clamp_i64(v: int) -> i64 {
    if v > i64::MAX {
        i64::MAX
    } else if v < i64::MIN {
        i64::MIN
    } else {
        v as i64
    }
}

/// A point mapped into the output frame: x kept, the vertical axis flipped
/// within the bounding box so the output's down matches the input's up.
pub open spec fn flip_point(p: Point, mn: Point, mx: Point) -> Point {
    Point { x: p.x, y: clamp_i64(mx.y + mn.y - p.y) }
}

/// A contour mapped into the output frame.
pub open spec fn flip_contour(c: Seq<Point>, mn: Point, mx: Point) -> Seq<Point> {
    c.map_values(|p: Point| flip_point(p, mn, mx))
}

/// The scene polygons of one shape: each contour flipped and styled.
pub open spec fn scene_shape_polys(
    s: Seq<Seq<Point>>,
    mn: Point,
    mx: Point,
    kind: PolygonKind,
) -> Seq<ScenePolyView>
    decreases s.len(),
{
    if s.len() == 0 {
        Seq::empty()
    } else {
        scene_shape_polys(s.drop_last(), mn, mx, kind).push(
            ScenePolyView { points: flip_contour(s.last(), mn, mx), kind },
        )
    }
}

/// The scene polygons of a whole union result, shape by shape.
pub open spec fn scene_polys(
    s: Seq<Seq<Seq<Point>>>,
    mn: Point,
    mx: Point,
    kind: PolygonKind,
) -> Seq<ScenePolyView>
    decreases s.len(),
{
    if s.len() == 0 {
        Seq::empty()
    } else {
        scene_polys(s.drop_last(), mn, mx, kind) + scene_shape_polys(s.last(), mn, mx, kind)
    }
}

/// What composing the two layers yields: each layer unioned independently,
/// the bounding box of every resulting vertex, and the flipped, styled
/// contours, traces before guides; nothing when no geometry came out.
pub open spec fn into_svg_spec(paths: Seq<Seq<Point>>, guides: Seq<Seq<Point>>) -> Option<
    SceneView,
> {
    let tu = union_shapes_spec(paths);
    let gu = union_shapes_spec(guides);
    let all = shapes_points(tu) + shapes_points(gu);
    if all.len() == 0 {
        None
    } else {
        let b = bounds_spec(all);
        Some(
            SceneView {
                min: b.0,
                max: b.1,
                polygons: scene_polys(tu, b.0, b.1, PolygonKind::Trace) + scene_polys(
                    gu,
                    b.0,
                    b.1,
                    PolygonKind::Guide,
                ),
            },
        )
    }
}

/// Appends every vertex of a union result to `out`.
fn collect_points(shapes: &Vec<Vec<Vec<Point>>>, out: &mut Vec<Point>)
    ensures
        final(out)@ == old(out)@ + shapes_points(shape_views(shapes@)),
{
    let ghost base = out@;
    let ghost sv = shape_views(shapes@);
    proof {
        assert(sv.take(0) =~= Seq::<Seq<Seq<Point>>>::empty());
        assert(out@ =~= base + shapes_points(sv.take(0)));
    }
    for i in 0..shapes.len()
        invariant
            sv == shape_views(shapes@),
            sv.len() == shapes@.len(),
            out@ == base + shapes_points(sv.take(i as int)),
    {
        proof {
            assert(sv.take(i + 1).drop_last() =~= sv.take(i as int));
            assert(sv.take(i + 1).last() == sv[i as int]);
        }
        let ghost base_s = out@;
        let ghost cv = sv[i as int];
        let shape = &shapes[i];
        for j in 0..shape.len()
            invariant
                cv == path_views(shape@),
                cv.len() == shape@.len(),
                out@ == base_s + contour_points(cv.take(j as int)),
        {
            proof {
                assert(cv.take(j + 1).drop_last() =~= cv.take(j as int));
                assert(cv.take(j + 1).last() == cv[j as int]);
            }
            let ghost base_c = out@;
            let ghost pts = cv[j as int];
            let contour = &shape[j];
            for k in 0..contour.len()
                invariant
                    pts == contour@,
                    out@ == base_c + pts.take(k as int),
            {
                out.push(contour[k]);
                proof {
                    assert(out@ =~= base_c + pts.take(k + 1));
                }
            }
            proof {
                assert(pts.take(pts.len() as int) =~= pts);
                assert(out@ =~= base_s + contour_points(cv.take(j + 1)));
            }
        }
        proof {
            assert(cv.take(cv.len() as int) =~= cv);
            assert(out@ =~= base + shapes_points(sv.take(i + 1)));
        }
    }
    proof {
        assert(sv.take(sv.len() as int) =~= sv);
    }
}

/// Maps one point into the output frame.
fn flip_point_exec(p: Point, mn: Point, mx: Point) -> (r: Point)
    ensures
        r == flip_point(p, mn, mx),
{
    let wide: i128 = (mx.y as i128) + (mn.y as i128) - (p.y as i128);
    let y: i64 = if wide > i64::MAX as i128 {
        i64::MAX
    } else if wide < i64::MIN as i128 {
        i64::MIN
    } else {
        wide as i64
    };
    Point { x: p.x, y }
}

/// Appends the flipped, styled contours of a union result to `out`.
#[verifier::rlimit(100)]
fn emit_polys(
    shapes: &Vec<Vec<Vec<Point>>>,
    mn: Point,
    mx: Point,
    kind: PolygonKind,
    out: &mut Vec<ScenePolygon>,
)
    ensures
        scene_views(final(out)@) == scene_views(old(out)@) + scene_polys(
            shape_views(shapes@),
            mn,
            mx,
            kind,
        ),
{
    let ghost base = scene_views(out@);
    let ghost sv = shape_views(shapes@);
    proof {
        assert(sv.take(0) =~= Seq::<Seq<Seq<Point>>>::empty());
        assert(scene_views(out@) =~= base + scene_polys(sv.take(0), mn, mx, kind));
    }
    for i in 0..shapes.len()
        invariant
            sv == shape_views(shapes@),
            sv.len() == shapes@.len(),
            scene_views(out@) == base + scene_polys(sv.take(i as int), mn, mx, kind),
    {
        proof {
            assert(sv.take(i + 1).drop_last() =~= sv.take(i as int));
            assert(sv.take(i + 1).last() == sv[i as int]);
        }
        let ghost base_s = scene_views(out@);
        let ghost cv = sv[i as int];
        let shape = &shapes[i];
        for j in 0..shape.len()
            invariant
                cv == path_views(shape@),
                cv.len() == shape@.len(),
                scene_views(out@) == base_s + scene_shape_polys(cv.take(j as int), mn, mx, kind),
        {
            proof {
                assert(cv.take(j + 1).drop_last() =~= cv.take(j as int));
                assert(cv.take(j + 1).last() == cv[j as int]);
            }
            let ghost pts = cv[j as int];
            let contour = &shape[j];
            let mut flipped: Vec<Point> = Vec::new();
            for k in 0..contour.len()
                invariant
                    pts == contour@,
                    flipped@ =~= flip_contour(pts.take(k as int), mn, mx),
                    scene_views(out@) == base_s + scene_shape_polys(
                        cv.take(j as int),
                        mn,
                        mx,
                        kind,
                    ),
            {
                let q = flip_point_exec(contour[k], mn, mx);
                flipped.push(q);
                proof {
                    assert(flipped@ =~= flip_contour(pts.take(k + 1), mn, mx));
                }
            }
            proof {
                assert(pts.take(pts.len() as int) =~= pts);
                assert(flipped@ =~= flip_contour(pts, mn, mx));
                assert(flipped@ == flip_contour(cv[j as int], mn, mx));
            }
            let ghost pre = out@;
            out.push(ScenePolygon { points: flipped, kind });
            proof {
                assert(out@.len() == pre.len() + 1);
                assert(scene_views(out@).len() == out@.len());
                assert(scene_views(pre).len() == pre.len());
                assert(scene_views(pre) == base_s + scene_shape_polys(
                    cv.take(j as int),
                    mn,
                    mx,
                    kind,
                ));
                assert(scene_views(out@).len() == base_s.len() + scene_shape_polys(
                    cv.take(j as int),
                    mn,
                    mx,
                    kind,
                ).len() + 1);
                assert(scene_views(out@).last() =~~= ScenePolyView {
                    points: flip_contour(cv[j as int], mn, mx),
                    kind,
                });
            }
            proof {
                let rhs = base_s + scene_shape_polys(cv.take(j as int), mn, mx, kind).push(
                    ScenePolyView { points: flip_contour(cv[j as int], mn, mx), kind },
                );
                assert(scene_views(out@).len() == rhs.len());
                assert forall|n: int| 0 <= n < rhs.len() implies scene_views(out@)[n] == rhs[n] by {
                    if n < pre.len() {
                        assert(out@[n] == pre[n]);
                        assert(scene_views(out@)[n] == scene_views(pre)[n]);
                        assert(scene_views(pre)[n] == rhs[n]);
                    } else {
                        assert(scene_views(out@)[n] == scene_views(out@).last());
                        assert(rhs[n] == rhs.last());
                    }
                }
                assert(scene_views(out@) =~= rhs);
                assert(scene_views(out@) =~= base_s + scene_shape_polys(
                    cv.take(j + 1),
                    mn,
                    mx,
                    kind,
                ));
            }
        }
        proof {
            assert(cv.take(cv.len() as int) =~= cv);
            assert(scene_views(out@) =~= base + scene_polys(sv.take(i + 1), mn, mx, kind));
        }
    }
    proof {
        assert(sv.take(sv.len() as int) =~= sv);
    }
}

impl Pcb {
    /// Composes the scene: unions each layer, computes the bounding box of
    /// every resulting vertex, and emits the flipped, styled contours,
    /// traces first and guides on top; nothing when no geometry came out.
    pub fn into_svg(self) -> (r: Option<Scene>)
        requires
            self.wf(),
        ensures
            match r {
                Some(scene) => into_svg_spec(
                    path_views(self.paths@),
                    path_views(self.guides@),
                ) == Some(scene@),
                None => into_svg_spec(path_views(self.paths@), path_views(self.guides@))
                    is None,
            },
    {
        let ghost pv = path_views(self.paths@);
        let ghost gv = path_views(self.guides@);
        proof {
            assert forall|i: int| 0 <= i < pv.len() implies path_in_safe_range(#[trigger] pv[i])
            by {
                assert(all_in_geom_range(pv[i]));
                assert forall|j: int| 0 <= j < pv[i].len() implies in_safe_range(
                    #[trigger] pv[i][j],
                ) by {
                    assert(crate::point::in_geom_range(pv[i][j]));
                }
            }
            assert forall|i: int| 0 <= i < gv.len() implies path_in_safe_range(#[trigger] gv[i])
            by {
                assert(all_in_geom_range(gv[i]));
                assert forall|j: int| 0 <= j < gv[i].len() implies in_safe_range(
                    #[trigger] gv[i][j],
                ) by {
                    assert(crate::point::in_geom_range(gv[i][j]));
                }
            }
        }
        let trace_union = union_shapes(self.paths);
        let guide_union = union_shapes(self.guides);
        let mut allpts: Vec<Point> = Vec::new();
        collect_points(&trace_union, &mut allpts);
        collect_points(&guide_union, &mut allpts);
        proof {
            assert(allpts@ =~= shapes_points(shape_views(trace_union@)) + shapes_points(
                shape_views(guide_union@),
            ));
        }
        if allpts.len() == 0 {
            return None;
        }
        let (mn, mx) = bounds(&allpts);
        let mut polys: Vec<ScenePolygon> = Vec::new();
        emit_polys(&trace_union, mn, mx, PolygonKind::Trace, &mut polys);
        emit_polys(&guide_union, mn, mx, PolygonKind::Guide, &mut polys);
        let scene = Scene { min: mn, max: mx, polygons: polys };
        proof {
            assert(scene_views(scene.polygons@) =~= scene_polys(
                shape_views(trace_union@),
                mn,
                mx,
                PolygonKind::Trace,
            ) + scene_polys(shape_views(guide_union@), mn, mx, PolygonKind::Guide));
        }
        Some(scene)
    }
}


/// The command is a move or an interpolation.
pub open spec fn is_move_or_interp(o: Operation) -> bool {
    o is Move || o is Interpolate
}

proof fn lemma_run_no_flash_no_traces(
    cfg: Configuration,
    table: Map<u32, ApertureShape>,
    ops: Seq<Operation>,
)
    requires
        forall|i: int| 0 <= i < ops.len() ==> !((#[trigger] ops[i]) is Flash),
    ensures
        agg_run(cfg, table, false, ops).1.len() == 0,
        agg_run(cfg, table, false, ops).0.path.len() == 0,
    decreases ops.len(),
{
    if ops.len() > 0 {
        assert(forall|i: int|
            0 <= i < ops.drop_last().len() ==> !((#[trigger] ops.drop_last()[i]) is Flash));
        lemma_run_no_flash_no_traces(cfg, table, ops.drop_last());
        assert(ops.last() == ops[ops.len() - 1]);
    }
}

/// In pads-only mode, a command stream with no flash emits nothing on the
/// primary layer: trace synthesis is suppressed there.
pub proof fn lemma_pads_only_suppresses_traces(
    cfg: Configuration,
    table: Map<u32, ApertureShape>,
    ops: Seq<Operation>,
)
    requires
        cfg.pads_only,
        forall|i: int| 0 <= i < ops.len() ==> !((#[trigger] ops[i]) is Flash),
    ensures
        process_gerber_spec(cfg, table, ops, false).len() == 0,
{
    lemma_run_no_flash_no_traces(cfg, table, ops);
}

proof fn lemma_run_mi_path_nonempty(
    cfg: Configuration,
    table: Map<u32, ApertureShape>,
    ops: Seq<Operation>,
)
    requires
        ops.len() >= 1,
        forall|i: int| 0 <= i < ops.len() ==> is_move_or_interp(#[trigger] ops[i]),
    ensures
        agg_run(cfg, table, true, ops).0.path.len() >= 1,
    decreases ops.len(),
{
    if ops.len() > 1 {
        assert(forall|i: int|
            0 <= i < ops.drop_last().len() ==> is_move_or_interp(#[trigger] ops.drop_last()[i]));
        lemma_run_mi_path_nonempty(cfg, table, ops.drop_last());
    }
    assert(is_move_or_interp(ops[ops.len() - 1]));
}

proof fn lemma_run_mi_interp(
    cfg: Configuration,
    table: Map<u32, ApertureShape>,
    ops: Seq<Operation>,
    j: int,
)
    requires
        forall|i: int| 0 <= i < ops.len() ==> is_move_or_interp(#[trigger] ops[i]),
        1 <= j < ops.len(),
        ops[j] is Interpolate,
    ensures
        agg_run(cfg, table, true, ops).1.len() > 0 || agg_run(cfg, table, true, ops).0.path.len()
            >= 2,
    decreases ops.len(),
{
    let n = ops.len() as int;
    let prev = agg_run(cfg, table, true, ops.drop_last());
    assert(forall|i: int|
        0 <= i < ops.drop_last().len() ==> is_move_or_interp(#[trigger] ops.drop_last()[i]));
    if j == n - 1 {
        lemma_run_mi_path_nonempty(cfg, table, ops.drop_last());
        assert(ops.last() is Interpolate);
    } else {
        lemma_run_mi_interp(cfg, table, ops.drop_last(), j);
        assert(is_move_or_interp(ops[n - 1]));
        if prev.1.len() > 0 {
        } else {
            assert(prev.0.path.len() >= 2);
            if ops.last() is Move {
                crate::geometry::lemma_close_path_len(prev.0.path, prev.0.thickness);
                assert(close_path_spec(prev.0.path, prev.0.thickness).len() >= 4);
            }
        }
    }
}

/// A stream of only moves and interpolations, with an interpolation after
/// some earlier command, renders on a layer with trace synthesis active:
/// the guide layer always has it, whatever the pads-only setting.
pub proof fn lemma_guide_layer_renders_traces(
    cfg: Configuration,
    table: Map<u32, ApertureShape>,
    ops: Seq<Operation>,
    j: int,
)
    requires
        forall|i: int| 0 <= i < ops.len() ==> is_move_or_interp(#[trigger] ops[i]),
        1 <= j < ops.len(),
        ops[j] is Interpolate,
    ensures
        process_gerber_spec(cfg, table, ops, true).len() > 0,
{
    lemma_run_mi_interp(cfg, table, ops, j);
    let run = agg_run(cfg, table, true, ops);
    if run.1.len() > 0 {
    } else {
        crate::geometry::lemma_close_path_len(run.0.path, run.0.thickness);
    }
}

/// Obround decomposition for a wider-than-tall obround: exactly two circles
/// of radius h / 2, centered at (-(w/2 - h/2), 0) and (+(w/2 - h/2), 0)
/// from the flash position, plus one rectangle of size (w - h, h).
pub proof fn lemma_obround_decomposition(pos: Point, w: int, h: int)
    requires
        in_input_range(pos),
        2 <= h < w <= MAX_SCALED,
    ensures
        ({
            let r = h / 2;
            let dx = w / 2 - h / 2;
            obround_polys(pos, w, h) == seq![
                generate_circle_spec(
                    Point { x: (pos.x - dx) as i64, y: pos.y },
                    r,
                    CIRCLE_SIDES as int,
                ),
                generate_circle_spec(
                    Point { x: (pos.x + dx) as i64, y: pos.y },
                    r,
                    CIRCLE_SIDES as int,
                ),
                generate_rectangle_spec(pos, Point { x: (w - h) as i64, y: h as i64 }),
            ]
        }),
{
    let r = h / 2;
    let dx = w / 2 - h / 2;
    let c1 = generate_circle_spec(Point { x: (pos.x - dx) as i64, y: pos.y }, r, CIRCLE_SIDES as int);
    let c2 = generate_circle_spec(Point { x: (pos.x + dx) as i64, y: pos.y }, r, CIRCLE_SIDES as int);
    let rect = generate_rectangle_spec(pos, Point { x: (w - h) as i64, y: h as i64 });
    crate::geometry::lemma_circle_pts_len(
        Point { x: (pos.x - dx) as i64, y: pos.y },
        r,
        CIRCLE_SIDES as int,
        CIRCLE_SIDES as int,
    );
    crate::geometry::lemma_circle_pts_len(
        Point { x: (pos.x + dx) as i64, y: pos.y },
        r,
        CIRCLE_SIDES as int,
        CIRCLE_SIDES as int,
    );
    assert(c1.len() == CIRCLE_SIDES);
    assert(c2.len() == CIRCLE_SIDES);
    assert(obround_polys(pos, w, h) =~= seq![c1, c2, rect]);
}


/// Every polygon of the collection is a usable closed contour of at least
/// three points.
pub open spec fn polys_proper(s: Seq<Seq<Point>>) -> bool {
    forall|i: int| 0 <= i < s.len() ==> (#[trigger] s[i]).len() >= 3
}

proof fn lemma_push_poly_proper(s: Seq<Seq<Point>>, poly: Seq<Point>)
    requires
        polys_proper(s),
        poly.len() == 0 || poly.len() >= 3,
    ensures
        polys_proper(push_poly(s, poly)),
{
}

proof fn lemma_circle_spec_sizes(center: Point, radius: int, n: int)
    requires
        n >= 3,
    ensures
        generate_circle_spec(center, radius, n).len() == 0 || generate_circle_spec(
            center,
            radius,
            n,
        ).len() >= 3,
{
    if radius > 0 {
        crate::geometry::lemma_circle_pts_len(center, radius, n, n);
    }
}

proof fn lemma_flash_polys_proper(
    cfg: Configuration,
    table: Map<u32, ApertureShape>,
    cur: Option<u32>,
    p: Point,
)
    ensures
        polys_proper(flash_polys(cfg, table, cur, p)),
{
    if cur is Some && table.contains_key(cur->0) {
        let id = cur->0;
        match table[id] {
            ApertureShape::Circle { diameter } => {
                lemma_circle_spec_sizes(
                    p,
                    scaled_spec(diameter as int, cfg.aperture_thickness as int) / 2,
                    CIRCLE_SIDES as int,
                );
            },
            ApertureShape::Rectangle { width: _, height: _ } => {},
            ApertureShape::Obround { width, height } => {
                let w = scaled_spec(width as int, cfg.aperture_thickness as int);
                let h = scaled_spec(height as int, cfg.aperture_thickness as int);
                if w >= h {
                    lemma_circle_spec_sizes(
                        Point { x: (p.x - (w / 2 - h / 2)) as i64, y: p.y },
                        h / 2,
                        CIRCLE_SIDES as int,
                    );
                    lemma_circle_spec_sizes(
                        Point { x: (p.x + (w / 2 - h / 2)) as i64, y: p.y },
                        h / 2,
                        CIRCLE_SIDES as int,
                    );
                } else {
                    lemma_circle_spec_sizes(
                        Point { x: p.x, y: (p.y - (h / 2 - w / 2)) as i64 },
                        w / 2,
                        CIRCLE_SIDES as int,
                    );
                    lemma_circle_spec_sizes(
                        Point { x: p.x, y: (p.y + (h / 2 - w / 2)) as i64 },
                        w / 2,
                        CIRCLE_SIDES as int,
                    );
                }
            },
        }
    }
}

proof fn lemma_step_proper(
    cfg: Configuration,
    table: Map<u32, ApertureShape>,
    traces: bool,
    st: AggSt,
    op: Operation,
)
    ensures
        polys_proper(agg_step(cfg, table, traces, st, op).1),
{
    match op {
        Operation::SelectAperture(_) => {},
        Operation::Move(p) => {
            if traces {
                crate::geometry::lemma_close_path_len(st.path, st.thickness);
                lemma_circle_spec_sizes(p, st.thickness / 2, CIRCLE_SIDES as int);
            }
        },
        Operation::Interpolate(p) => {
            if traces {
                lemma_circle_spec_sizes(p, st.thickness / 2, CIRCLE_SIDES as int);
            }
        },
        Operation::Flash(p) => {
            lemma_flash_polys_proper(cfg, table, st.cur, p);
        },
    }
}

proof fn lemma_run_proper(
    cfg: Configuration,
    table: Map<u32, ApertureShape>,
    traces: bool,
    ops: Seq<Operation>,
)
    ensures
        polys_proper(agg_run(cfg, table, traces, ops).1),
    decreases ops.len(),
{
    if ops.len() > 0 {
        lemma_run_proper(cfg, table, traces, ops.drop_last());
        let prev = agg_run(cfg, table, traces, ops.drop_last());
        let stepped = agg_step(cfg, table, traces, prev.0, ops.last());
        lemma_step_proper(cfg, table, traces, prev.0, ops.last());
        assert forall|i: int| 0 <= i < (prev.1 + stepped.1).len() implies (#[trigger] (prev.1
            + stepped.1)[i]).len() >= 3 by {
            if i < prev.1.len() {
                assert((prev.1 + stepped.1)[i] == prev.1[i]);
            } else {
                assert((prev.1 + stepped.1)[i] == stepped.1[i - prev.1.len()]);
            }
        }
    }
}

/// Every polygon one aggregation pass emits has at least three points:
/// degenerate contours are never handed to the union step.
pub proof fn lemma_emitted_polygons_are_proper(
    cfg: Configuration,
    table: Map<u32, ApertureShape>,
    ops: Seq<Operation>,
    guide: bool,
)
    ensures
        polys_proper(process_gerber_spec(cfg, table, ops, guide)),
{
    let traces = !cfg.pads_only || guide;
    lemma_run_proper(cfg, table, traces, ops);
    let run = agg_run(cfg, table, traces, ops);
    if run.0.path.len() > 0 {
        crate::geometry::lemma_close_path_len(run.0.path, run.0.thickness);
        lemma_push_poly_proper(run.1, close_path_spec(run.0.path, run.0.thickness));
    }
}

/// Every circle a drill file emits has at least three points too.
pub proof fn lemma_drill_polygons_are_proper(
    tools: Seq<u32>,
    holes: Map<u32, DrillOpsView>,
    cfg: Configuration,
)
    ensures
        polys_proper(drill_polys(tools, holes, cfg)),
    decreases tools.len(),
{
    if tools.len() > 0 {
        lemma_drill_polygons_are_proper(tools.drop_last(), holes, cfg);
        let prev = drill_polys(tools.drop_last(), holes, cfg);
        let tail: Seq<Seq<Point>> = if holes.contains_key(tools.last()) {
            tool_polys(holes[tools.last()], cfg)
        } else {
            Seq::empty()
        };
        if holes.contains_key(tools.last()) {
            lemma_tool_polys_proper(holes[tools.last()], cfg);
        }
        assert forall|i: int| 0 <= i < (prev + tail).len() implies (#[trigger] (prev
            + tail)[i]).len() >= 3 by {
            if i < prev.len() {
                assert((prev + tail)[i] == prev[i]);
            } else {
                assert((prev + tail)[i] == tail[i - prev.len()]);
            }
        }
    }
}

proof fn lemma_tool_polys_proper(ops: DrillOpsView, cfg: Configuration)
    ensures
        polys_proper(tool_polys(ops, cfg)),
    decreases ops.holes.len(),
{
    if ops.holes.len() > 0 {
        lemma_tool_polys_proper(
            DrillOpsView { diameter: ops.diameter, holes: ops.holes.drop_last() },
            cfg,
        );
        lemma_circle_spec_sizes(ops.holes.last(), hit_radius(ops.diameter, cfg), CIRCLE_SIDES as int);
        let prev = tool_polys(
            DrillOpsView { diameter: ops.diameter, holes: ops.holes.drop_last() },
            cfg,
        );
        let tail = hit_poly(ops.holes.last(), hit_radius(ops.diameter, cfg));
        assert forall|i: int| 0 <= i < (prev + tail).len() implies (#[trigger] (prev
            + tail)[i]).len() >= 3 by {
            if i < prev.len() {
                assert((prev + tail)[i] == prev[i]);
            } else {
                assert((prev + tail)[i] == tail[i - prev.len()]);
            }
        }
    }
}

} // verus!
