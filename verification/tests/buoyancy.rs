use bad_spaceship::buoyancy::body::{
    cap_radius, cap_transform, collider_points, frustum_contains, frustum_side_mesh, inner_shape,
    rebuild_shape, refresh_hull_cache, refresh_voxel_cache, shell_mass_props, sync_mass_props,
    voxel_grid, voxelise, BuoyPart, HullCache, PartPlan, VoxelCache, SHAPE_SEGMENTS,
};
use bad_spaceship::buoyancy::forces::{
    apply_hydro_forces, body_drag, bring_near, buoyant_force, cell_force, draw_force_vectors,
    face_force, push_body, Arrow, Elements, Force, ForceVectors, FrameInput, Motion, Push, PhysicsTiming, Pose, Pushes, TriangleMotion, WetCell,
    WetFace,
};
use bad_spaceship::buoyancy::hydro::{
    area_vector, clip_triangle_below, frustum_triangles, ring_point, submerged_volume,
    submerged_volume_centroid, to_world, tri_geom, tri_to_world, world_y, Heading, Rotation, Shape,
    Triangle,
};
use bad_spaceship::buoyancy::panel::{
    above_panel, camera_target, handle_reset, info_url, labeled_slider, orbit_input, screen_lift,
    setup, source_url, ui, zoom_is_off, Finger, OrbitCamera, PanelInput, Spot, Widget, MOST_PITCH,
};
use bad_spaceship::buoyancy::{Method, SimParams, SPAWN_HEIGHT};
use bad_spaceship::geom::{Long, Point};

const METRE: i64 = 1_000_000;

fn at(x: i64, y: i64, z: i64) -> Point {
    Point { x, y, z }
}

fn upright() -> Rotation {
    Rotation {
        x_axis: at(1_000_000, 0, 0),
        y_axis: at(0, 1_000_000, 0),
        z_axis: at(0, 0, 1_000_000),
    }
}

fn headings(n: usize) -> Vec<Heading> {
    (0..n)
        .map(|i| {
            let a = i as f64 / n as f64 * std::f64::consts::TAU;
            Heading { cos: (a.cos() * 1e6) as i64, sin: (a.sin() * 1e6) as i64 }
        })
        .collect()
}

fn can() -> Shape {
    Shape { r_top: 1_200_000, r_bottom: 1_200_000, length: 3_200_000 }
}

fn tri(a: Point, b: Point, c: Point) -> Triangle {
    Triangle { a, b, c }
}

// ---- Triangles under water -----------------------------------------------------------

#[test]
fn a_triangle_is_all_or_nothing_off_the_waterline() {
    let low = tri(at(0, -3, 0), at(5, -2, 0), at(0, -1, 5));
    let mut out = Vec::new();
    clip_triangle_below(&low, 0, &mut out);
    assert_eq!(out, vec![low]);
    out.clear();
    let high = tri(at(0, 3, 0), at(5, 2, 0), at(0, 1, 5));
    clip_triangle_below(&high, 0, &mut out);
    assert!(out.is_empty());
}

#[test]
fn a_cut_triangle_keeps_what_is_below() {
    let cut = tri(at(0, -1_000, 0), at(1_000, 1_000, 0), at(-1_000, 1_000, 0));
    let mut out = Vec::new();
    clip_triangle_below(&cut, 0, &mut out);
    assert_eq!(out.len(), 1);
    for p in [out[0].a, out[0].b, out[0].c] {
        assert!(p.y <= 0);
    }
    // Half as high and half as wide: a quarter of the area.
    assert_eq!(area_vector(&cut).z, 4 * area_vector(&out[0]).z);
    let two = tri(at(0, 1_000, 0), at(1_000, -1_000, 0), at(-1_000, -1_000, 0));
    out.clear();
    clip_triangle_below(&two, 0, &mut out);
    assert_eq!(out.len(), 2);
}

#[test]
fn a_cube_under_water_displaces_itself() {
    // A closed box from -2 m to -1 m, 1 m wide.
    let (l, h) = (0, METRE);
    let (b, t) = (-2 * METRE, -METRE);
    let quad = |p: Point, q: Point, r: Point, s: Point| vec![tri(p, q, r), tri(p, r, s)];
    let mut tris = Vec::new();
    tris.extend(quad(at(l, t, l), at(l, t, h), at(h, t, h), at(h, t, l)));
    tris.extend(quad(at(l, b, l), at(h, b, l), at(h, b, h), at(l, b, h)));
    tris.extend(quad(at(l, b, l), at(l, b, h), at(l, t, h), at(l, t, l)));
    tris.extend(quad(at(h, b, l), at(h, t, l), at(h, t, h), at(h, b, h)));
    tris.extend(quad(at(l, b, l), at(l, t, l), at(h, t, l), at(h, b, l)));
    tris.extend(quad(at(l, b, h), at(h, b, h), at(h, t, h), at(l, t, h)));
    let six = submerged_volume(&tris, 0);
    assert_eq!(six.abs(), 6 * 1_000_000i128.pow(3));
    let b = submerged_volume_centroid(&tris, 0).expect("a volume");
    assert_eq!(b.sixfold.abs(), six.abs());
    assert!(submerged_volume_centroid(&[], 0).is_none());
}

#[test]
fn a_hull_is_closed() {
    let tris = frustum_triangles(&can(), &headings(12), 4);
    let mut sum = at(0, 0, 0);
    for t in &tris {
        let v = area_vector(t);
        sum = at(sum.x + v.x, sum.y + v.y, sum.z + v.z);
    }
    // The area vectors of a closed surface add up to nothing, but for rounding.
    let slack = tris.len() as i64 * 2;
    assert!(sum.x.abs() <= slack && sum.y.abs() <= slack && sum.z.abs() <= slack);
}

#[test]
fn points_are_placed_in_the_world() {
    assert_eq!(ring_point(&Heading { cos: 600_000, sin: 800_000 }, 7, METRE), at(600_000, 7, 800_000));
    let quarter = Rotation {
        x_axis: at(0, 0, -1_000_000),
        y_axis: at(0, 1_000_000, 0),
        z_axis: at(1_000_000, 0, 0),
    };
    let p = at(METRE, 2 * METRE, 0);
    assert_eq!(to_world(&at(0, METRE, 0), &quarter, &p), at(0, 3 * METRE, -METRE));
    assert_eq!(world_y(&at(0, METRE, 0), &quarter, &p), 3 * METRE);
    let t = tri(p, p, p);
    assert_eq!(tri_to_world(&t, &at(0, 0, 0), &upright()), t);
}

#[test]
fn a_triangle_has_its_geometry() {
    let g = tri_geom(&tri(at(0, 0, 0), at(METRE, 0, 0), at(0, METRE, 0))).expect("a triangle");
    assert_eq!(g.normal, at(0, 0, 1_000_000));
    assert_eq!(g.centroid, at(333_333, 333_333, 0));
    assert_eq!(g.area, 500_000_000_000);
    assert!(tri_geom(&tri(at(0, 0, 0), at(1, 0, 0), at(2, 0, 0))).is_none());
}

// ---- The body ------------------------------------------------------------------------

#[test]
fn a_cavity_is_inset() {
    let inner = inner_shape(&can(), 10_000).expect("a cavity");
    assert_eq!((inner.r_top, inner.r_bottom, inner.length), (1_190_000, 1_190_000, 3_180_000));
    assert!(inner_shape(&can(), 1_600_000).is_none());
    assert!(inner_shape(&can(), 1_200_000).is_none());
}

#[test]
fn a_frustum_contains_its_inside() {
    let s = Shape { r_top: 0, r_bottom: 2 * METRE, length: 2 * METRE };
    assert!(frustum_contains(&s, &at(0, 0, 0)));
    assert!(frustum_contains(&s, &at(900_000, 0, 0)));
    assert!(!frustum_contains(&s, &at(1_100_000, 0, 0)));
    assert!(!frustum_contains(&s, &at(0, 1_100_000, 0)));
}

#[test]
fn the_side_is_a_strip() {
    let mesh = frustum_side_mesh(&can(), &headings(SHAPE_SEGMENTS));
    assert_eq!(mesh.positions.len(), mesh.normals.len());
    assert_eq!(mesh.indices.len(), SHAPE_SEGMENTS * 6);
    assert!(mesh.indices.iter().all(|i| (*i as usize) < mesh.positions.len()));
    assert_eq!(collider_points(&can(), &headings(SHAPE_SEGMENTS)).len(), 2 * SHAPE_SEGMENTS);
    assert_eq!((cap_radius(&can(), true), cap_transform(&can(), true).y), (1_200_000, 1_600_000));
    assert_eq!(cap_transform(&can(), false).y, -1_600_000);
}

#[test]
fn a_shape_is_rebuilt_when_it_changes() {
    let mut params = SimParams::default();
    let mut cache = None;
    let parts = [
        BuoyPart::Side,
        BuoyPart::InnerSide,
        BuoyPart::Cap { upper: true },
        BuoyPart::Cap { upper: false },
    ];
    let plans = rebuild_shape(&params, &mut cache, &parts).expect("a first build");
    assert!(matches!(plans[0], PartPlan::Wall { .. }));
    assert!(matches!(plans[1], PartPlan::Cavity { .. }));
    assert!(matches!(plans[2], PartPlan::Disc { radius: 1_200_000, .. }));
    assert!(rebuild_shape(&params, &mut cache, &parts).is_none());
    params.wall = 1_200_000;
    let solid = rebuild_shape(&params, &mut cache, &parts).expect("a new wall");
    assert!(matches!(solid[1], PartPlan::Hidden));
}

#[test]
fn masses_follow_the_shell() {
    let solid = shell_mass_props(&can(), 10_000, 7_850_000);
    assert_eq!(solid.cavity, inner_shape(&can(), 10_000));
    let mut params = SimParams::default();
    let mut cache = None;
    assert!(sync_mass_props(&params, &mut cache).is_some());
    assert!(sync_mass_props(&params, &mut cache).is_none());
    params.density = 1;
    assert!(sync_mass_props(&params, &mut cache).is_some());
}

#[test]
fn cells_lie_inside() {
    let grid = voxel_grid(&can(), 12);
    let cells = voxelise(&can(), &grid);
    assert!(!cells.is_empty());
    for c in &cells {
        assert!(frustum_contains(&can(), c));
    }
    // Their volume is about that of the can: pi r^2 h.
    let side = grid.side as f64 / 12.0 / 1e6;
    let volume = cells.len() as f64 * side.powi(3);
    let want = std::f64::consts::PI * 1.2f64.powi(2) * 3.2;
    assert!((volume / want - 1.0).abs() < 0.1, "{volume} against {want}");
}

#[test]
fn caches_are_kept_until_the_shape_changes() {
    let mut params = SimParams::default();
    let mut voxels = VoxelCache::new();
    refresh_voxel_cache(&params, &mut voxels);
    let n = voxels.centres.len();
    refresh_voxel_cache(&params, &mut voxels);
    assert_eq!(voxels.centres.len(), n);
    params.voxel_res = 6;
    refresh_voxel_cache(&params, &mut voxels);
    assert!(voxels.centres.len() < n);
    let mut hull = HullCache::new();
    refresh_hull_cache(&params, &headings(params.hull_segments()), &mut hull);
    assert_eq!(hull.tris.len(), hull.tri_geoms.len());
    assert!(hull.total_area > 0);
    assert_eq!((params.hull_segments(), params.hull_rings()), (24, 8));
}

// ---- Forces --------------------------------------------------------------------------

fn pose(y: i64) -> Pose {
    Pose { pos: at(0, y, 0), rot: upright() }
}

fn elements(params: &SimParams, y: i64) -> Elements {
    let (mut voxels, mut hull) = (VoxelCache::new(), HullCache::new());
    apply_hydro_forces(params, &headings(params.hull_segments()), &mut voxels, &mut hull, &pose(y))
}

#[test]
fn no_water_no_force() {
    let mut params = SimParams::default();
    assert!(matches!(elements(&params, 10 * METRE), Elements::Cells(c) if c.is_empty()));
    params.method = Method::ClippedVolume;
    assert!(matches!(elements(&params, 10 * METRE), Elements::Body(None)));
    params.method = Method::SurfacePressure;
    match elements(&params, 10 * METRE) {
        Elements::Faces(faces) => assert!(faces.iter().all(|f| f.dry && f.faces.is_empty())),
        _ => panic!("faces"),
    }
}

#[test]
fn every_method_lifts_the_same_weight_of_water() {
    // Half under water: half of pi r^2 h of water, in newtons.
    let want = std::f64::consts::PI * 1.2f64.powi(2) * 1.6 * 9810.0;
    let mut params = SimParams { drag_on: false, pressure_drag_on: false, ..SimParams::default() };
    let still = at(0, 0, 0);
    let cells = match elements(&params, 0) {
        Elements::Cells(cells) => cells,
        _ => panic!("cells"),
    };
    let by_cells: f64 = cells.iter().map(|c| cell_force(c, &params, &still).y as f64).sum();
    params.method = Method::ClippedVolume;
    let by_volume = match elements(&params, 0) {
        Elements::Body(Some(b)) => buoyant_force(&b).y as f64,
        _ => panic!("a body"),
    };
    params.method = Method::SurfacePressure;
    let by_faces: f64 = match elements(&params, 0) {
        Elements::Faces(faces) => faces
            .iter()
            .flat_map(|t| t.faces.iter())
            .map(|f| face_force(f, &params, 0, &still).y as f64)
            .sum(),
        _ => panic!("faces"),
    };
    let unit = by_volume / want;
    assert!(unit > 0.0);
    assert!((by_cells / by_volume - 1.0).abs() < 0.1, "{by_cells} against {by_volume}");
    assert!((by_faces / by_volume - 1.0).abs() < 0.1, "{by_faces} against {by_volume}");
}

#[test]
fn drag_runs_against_the_motion() {
    let params = SimParams::default();
    let cell = WetCell { at: at(0, -METRE, 0), volume: 1_000_000_000_000_000_000 };
    let still = cell_force(&cell, &params, &at(0, 0, 0));
    let east = cell_force(&cell, &params, &at(METRE, 0, 0));
    assert!(east.x < 0 && still.x == 0);
    assert_eq!(east.y, still.y);
    // A cubic metre of water weighs 9810 N.
    assert_eq!(still.y, 9_810_000_000);
    let face = WetFace { at: at(0, -METRE, 0), normal: at(0, -1_000_000, 0), area: 1_000_000_000_000 };
    let push = face_force(&face, &SimParams { drag_on: false, pressure_drag_on: false, ..params }, 0, &at(0, 0, 0));
    // A square metre one metre down.
    assert_eq!((push.x, push.y, push.z), (0, 9_810_000_000, 0));
    let b = match elements(&SimParams { method: Method::ClippedVolume, ..params }, 0) {
        Elements::Body(Some(b)) => b,
        _ => panic!("a body"),
    };
    assert!(body_drag(&b, &params, &at(METRE, 0, 0)).x < 0);
}

/// One frame of a body at height `y` that falls at `speed`, and what its hull remembers.
fn frame_at(params: &SimParams, y: i64, speed: i64, hull: &mut HullCache) -> Pushes {
    let mut voxels = VoxelCache::new();
    let around = headings(params.hull_segments());
    let found = apply_hydro_forces(params, &around, &mut voxels, hull, &pose(y));
    let v = at(0, -speed, 0);
    let motion = match &found {
        Elements::Cells(cells) => Motion::Cells(cells.iter().map(|_| v).collect()),
        Elements::Faces(wet) => Motion::Faces(
            wet.iter()
                .map(|w| TriangleMotion { faces: w.faces.iter().map(|_| v).collect(), middle: v })
                .collect(),
        ),
        Elements::Body(_) => Motion::Body(v, at(1_000_000, 0, 0)),
    };
    let input = FrameInput { friction: 3_000, mass: 1_000_000, dt: 16_000_000 };
    push_body(params, &found, &motion, hull, &pose(y), &input)
}

#[test]
fn a_frame_pushes_the_body_out_of_the_water() {
    for method in [Method::VoxelGrid, Method::SurfacePressure, Method::ClippedVolume] {
        let params = SimParams { method, ..SimParams::default() };
        let mut hull = HullCache::new();
        let wet = frame_at(&params, 0, METRE, &mut hull);
        assert!(wet.forces.iter().map(|p| p.force.y).sum::<i128>() > 0);
        assert_eq!(wet.torque.is_some(), method == Method::ClippedVolume);
        let dry = frame_at(&params, 10 * METRE, METRE, &mut hull);
        assert!(dry.forces.is_empty() && dry.torque.is_none());
    }
    let params = SimParams { method: Method::ClippedVolume, drag_on: false, ..SimParams::default() };
    let wet = frame_at(&params, 0, METRE, &mut HullCache::new());
    assert_eq!(wet.forces.len(), 1);
    assert_eq!((wet.forces[0].force.x, wet.forces[0].force.z), (0, 0));
    assert!(wet.torque.is_none());
}

#[test]
fn slamming_is_remembered_and_slows_the_fall() {
    let params =
        SimParams { method: Method::SurfacePressure, slamming_on: true, ..SimParams::default() };
    let calm = SimParams { slamming_on: false, ..params };
    let (mut slammed, mut plain) = (HullCache::new(), HullCache::new());
    let hard = frame_at(&params, 0, 3 * METRE, &mut slammed);
    let soft = frame_at(&calm, 0, 3 * METRE, &mut plain);
    let lift = |p: &Pushes| p.forces.iter().map(|f| f.force.y).sum::<i128>();
    assert!(hard.forces.len() > soft.forces.len());
    assert!(lift(&hard) > lift(&soft));
    assert!(slammed.prev_dv.iter().any(|v| *v > 0));
    assert!(plain.prev_dv.iter().all(|v| *v == 0));
    // A second frame at the same speed changes nothing, so nothing slams.
    let again = frame_at(&params, 0, 3 * METRE, &mut slammed);
    assert_eq!(again.forces.len(), soft.forces.len());
}

#[test]
fn timings_are_averaged() {
    let mut t = PhysicsTiming::new();
    assert_eq!(t.average, 0);
    for _ in 0..200 {
        t.record(1_000, 16_000_000);
    }
    assert_eq!(t.average, 1_000);
}

#[test]
fn arrows_point_along_their_force() {
    let arrows = [Arrow { at: at(0, 0, 0), force: at(0, METRE, 0) }];
    let drawn = draw_force_vectors(&arrows);
    assert_eq!(drawn.len(), 1);
    assert_eq!((drawn[0].from, drawn[0].to.x), (at(0, 0, 0), 0));
    assert!(drawn[0].to.y > 0);
}

// ---- The panel -----------------------------------------------------------------------

fn no_input() -> PanelInput {
    PanelInput {
        reset: false,
        density: None,
        start_angle: None,
        cylinder_open: false,
        r_top: None,
        r_bottom: None,
        length: None,
        wall: None,
        method_open: false,
        method: None,
        voxel_res: None,
        hull_res: None,
        drag_on: None,
        drag_coeff: None,
        slamming_on: None,
        gamma_max: None,
        pressure_drag_on: None,
        pressure_drag_coeff: None,
        vectors: false,
    }
}

#[test]
fn the_panel_sets_what_it_shows() {
    let mut params = SimParams::default();
    let (mut reset, mut vectors) = (false, false);
    let closed = ui(&mut params, &mut reset, &mut vectors, &no_input());
    assert!(closed.iter().any(|w| matches!(w, Widget::Reset)));
    assert!(!closed.iter().any(|w| matches!(w, Widget::RadiusTop | Widget::GridDensity)));
    let open = PanelInput {
        reset: true,
        cylinder_open: true,
        method_open: true,
        density: Some(1_000_000),
        method: Some(Method::SurfacePressure),
        ..no_input()
    };
    let shown = ui(&mut params, &mut reset, &mut vectors, &open);
    assert!(reset);
    assert_eq!((params.density, params.method), (1_000_000, Method::SurfacePressure));
    assert!(shown.iter().any(|w| matches!(w, Widget::RadiusTop)));
    assert!(shown.iter().any(|w| matches!(w, Widget::Slamming { enabled: true })));
}

#[test]
fn a_reset_puts_the_body_back_once() {
    let params = SimParams { start_angle: 30_000_000, ..SimParams::default() };
    let mut requested = true;
    let pose = handle_reset(&mut requested, &params).expect("a pose");
    assert_eq!((pose.position, pose.tilt), (at(0, SPAWN_HEIGHT, 0), 30_000_000));
    assert!(!requested);
    assert!(handle_reset(&mut requested, &params).is_none());
    let scene = setup(&params);
    assert_eq!(scene.body_y, SPAWN_HEIGHT);
    assert_eq!(scene.parts.len(), 4);
}

#[test]
fn the_camera_orbits_within_bounds() {
    let mut c = OrbitCamera { yaw: 0, pitch: 0, distance: 20_000_000 };
    let still = c;
    orbit_input(&mut c, true, &[], true, &[Spot { x: 100_000, y: 100_000 }], &[]);
    assert_eq!((c.yaw, c.pitch), (still.yaw, still.pitch));
    orbit_input(&mut c, false, &[], true, &[Spot { x: 0, y: 200_000_000 }], &[]);
    assert_eq!(c.pitch, MOST_PITCH);
    let pinch = [
        Finger { now: Spot { x: 0, y: 0 }, before: Spot { x: 0, y: 0 } },
        Finger { now: Spot { x: 200_000, y: 0 }, before: Spot { x: 100_000, y: 0 } },
    ];
    let before = c.distance;
    orbit_input(&mut c, false, &pinch, false, &[], &[]);
    assert!(c.distance < before);
    assert_eq!(camera_target(Some(at(1, 2, 3))), at(1, 2, 3));
}

#[test]
fn links_lead_home() {
    assert_eq!(info_url("https://x.org/a/?q=1#z"), "https://x.org/a/buoyancy/info.html");
    assert_eq!(info_url("https://x.org/a/index.html"), "https://x.org/a/buoyancy/info.html");
    assert_eq!(
        source_url(Some("abc")),
        "https://github.com/samcarey/bad-spaceship/tree/abc/buoyancy"
    );
    assert_eq!(
        source_url(None),
        "https://github.com/samcarey/bad-spaceship/tree/master/buoyancy"
    );
    assert!(zoom_is_off(1_000_000) && !zoom_is_off(1_300_000));
    assert_eq!(labeled_slider(100_000, 300_000), (20_000, 220_000));
    assert_eq!(labeled_slider(130_000, 100_000), (0, 60_000));
    assert_eq!(screen_lift(250_000, 1_000_000), 250_000);
    assert_eq!(screen_lift(5, 0), 5_000);
    assert_eq!(above_panel(100_000), 106_000);
}

#[test]
fn the_overlay_shows_what_was_pushed() {
    let push = |x: i128| Push { at: Long { x, y: 0, z: 0 }, force: Force { x: 0, y: x, z: 0 } };
    let frame = |v: Vec<Push>| Pushes { forces: v, torque: None };
    let mut vis = ForceVectors::default();
    assert!(vis.on && vis.arrows.is_empty());
    vis.record(&frame(vec![push(1), push(2)]));
    assert_eq!(vis.arrows, vec![push(1), push(2)]);
    // Nothing is left over from the frame before.
    vis.record(&frame(vec![push(3)]));
    assert_eq!(vis.arrows, vec![push(3)]);
    vis.on = false;
    vis.record(&frame(vec![push(4)]));
    assert!(vis.arrows.is_empty());
}

#[test]
fn a_far_body_is_brought_to_the_tank() {
    let p = bring_near(&at(500 * METRE, 2 * METRE, -900 * METRE));
    assert_eq!((p.near, p.offset), (at(0, 2 * METRE, 0), at(500 * METRE, 0, -900 * METRE)));
    let deep = bring_near(&at(0, -300 * METRE, 0));
    assert_eq!(deep.near.y + deep.offset.y, -300 * METRE);
    assert!(deep.near.y > -50 * METRE);
}

#[test]
fn the_hull_faces_out_of_the_body() {
    let hull = frustum_triangles(&can(), &headings(24), 4);
    for t in &hull {
        let v = area_vector(t);
        let level = t.a.y == t.b.y && t.b.y == t.c.y;
        let middle = |f: fn(&Point) -> i64| (f(&t.a) + f(&t.b) + f(&t.c)) as i128;
        let out = if level {
            v.y as i128 * middle(|p| p.y)
        } else {
            v.x as i128 * middle(|p| p.x) + v.z as i128 * middle(|p| p.z)
        };
        assert!(out > 0, "{t:?}");
    }
}

#[test]
fn a_sunken_hull_displaces_the_same_at_every_depth() {
    let hull = frustum_triangles(&can(), &headings(24), 4);
    let at_level = |level: i64| {
        let mut clipped = Vec::new();
        for t in &hull {
            clip_triangle_below(t, level, &mut clipped);
        }
        submerged_volume(&clipped, level)
    };
    assert_eq!(at_level(-2 * METRE), 0);
    let whole = at_level(2 * METRE);
    assert!(whole > 0);
    assert_eq!(at_level(3 * METRE), whole);
    assert_eq!(at_level(40 * METRE), whole);
    let mut last = 0;
    for step in 0..=40 {
        let v = at_level(-1_700_000 + step * 85_000);
        assert!(v >= last);
        last = v;
    }
    assert_eq!(last, whole);
}

/// The can tilted by about 37 degrees.
fn tilted() -> Rotation {
    Rotation {
        x_axis: at(800_000, 600_000, 0),
        y_axis: at(-600_000, 800_000, 0),
        z_axis: at(0, 0, 1_000_000),
    }
}

fn placed_can(rot: &Rotation) -> Vec<Triangle> {
    let shape = Shape { r_top: 900_000, r_bottom: 1_200_000, length: 3_200_000 };
    frustum_triangles(&shape, &headings(24), 8)
        .iter()
        .map(|t| tri_to_world(t, &at(0, 0, 0), rot))
        .collect()
}

fn displaced(hull: &[Triangle], level: i64) -> i128 {
    let mut wet = Vec::new();
    for t in hull {
        clip_triangle_below(t, level, &mut wet);
    }
    submerged_volume(&wet, level)
}

#[test]
fn rising_water_displaces_no_less() {
    // What rounding can come to, of triangles that lie within three metres of the water.
    let reach = 3_000_000i128;
    let slack = 16 * reach * reach + 6_000 * reach;
    for rot in [upright(), tilted()] {
        let hull = placed_can(&rot);
        let mut before = 0;
        for step in -22i64..=22 {
            let now = displaced(&hull, step * 100_000);
            assert!(now >= before - 2 * hull.len() as i128 * slack, "at {step}");
            // Away from the ends, much more is under water than rounding can hide.
            assert!(now > before || step < -15 || step > 15, "at {step}");
            before = now;
        }
    }
}

#[test]
fn nothing_is_rounded_off_a_cube() {
    let c = |x: i64, y: i64, z: i64| at(x * METRE, y * METRE, z * METRE);
    let mut cube = Vec::new();
    for (p, q, r, s) in [
        (c(0, 0, 0), c(1, 0, 0), c(1, 0, 1), c(0, 0, 1)),
        (c(0, 1, 0), c(0, 1, 1), c(1, 1, 1), c(1, 1, 0)),
        (c(0, 0, 0), c(0, 1, 0), c(1, 1, 0), c(1, 0, 0)),
        (c(0, 0, 1), c(1, 0, 1), c(1, 1, 1), c(0, 1, 1)),
        (c(0, 0, 0), c(0, 0, 1), c(0, 1, 1), c(0, 1, 0)),
        (c(1, 0, 0), c(1, 1, 0), c(1, 1, 1), c(1, 0, 1)),
    ] {
        cube.push(tri(p, q, r));
        cube.push(tri(p, r, s));
    }
    let whole = 6 * 1_000_000_000_000_000_000i128;
    for (level, part) in [(-1, 0), (250_000, 1), (500_000, 2), (750_000, 3), (2_000_000, 4)] {
        assert_eq!(displaced(&cube, level), whole / 4 * part);
    }
}

#[test]
fn a_reshaped_body_gets_its_own_hull() {
    let mut params = SimParams { method: Method::SurfacePressure, slamming_on: true, ..SimParams::default() };
    let mut hull = HullCache::new();
    frame_at(&params, 0, 3 * METRE, &mut hull);
    assert!(hull.prev_dv.iter().any(|v| *v > 0));
    params.shape = Shape { r_top: 500_000, r_bottom: 900_000, length: 2_000_000 };
    let around = headings(params.hull_segments());
    apply_hydro_forces(&params, &around, &mut VoxelCache::new(), &mut hull, &pose(0));
    assert_eq!(hull.tris, frustum_triangles(&params.shape, &around, params.hull_rings()));
    assert!(hull.prev_dv.iter().all(|v| *v == 0));
}

#[test]
fn a_body_above_the_water_is_left_alone() {
    for method in [Method::VoxelGrid, Method::SurfacePressure, Method::ClippedVolume] {
        for drags in [false, true] {
            let params = SimParams {
                method,
                drag_on: drags,
                pressure_drag_on: drags,
                slamming_on: drags,
                ..SimParams::default()
            };
            let mut hull = HullCache::new();
            frame_at(&params, 0, METRE, &mut hull);
            // The lower end, 1.6 m under the middle, is a micrometre clear of the water.
            let pushes = frame_at(&params, 1_600_001, METRE, &mut hull);
            assert!(pushes.forces.is_empty() && pushes.torque.is_none());
            assert!(hull.prev_dv.iter().all(|v| *v == 0));
            let mut vis = ForceVectors::default();
            vis.record(&pushes);
            assert!(vis.arrows.is_empty());
        }
    }
}

/// What a triangle spans with `o`: positive where it faces away.
fn cone(o: &Point, t: &Triangle) -> i128 {
    let v = area_vector(t);
    v.x as i128 * (t.a.x - o.x) as i128
        + v.y as i128 * (t.a.y - o.y) as i128
        + v.z as i128 * (t.a.z - o.z) as i128
}

#[test]
fn the_hull_faces_away_from_the_middle_however_it_is_turned() {
    let size = 6_400_000i128;
    // From a flat dish to a slender rod, as coarse and as fine as the panel allows.
    for (r_top, r_bottom, length) in
        [(2_500_000, 200_000, 500_000), (200_000, 200_000, 6_400_000), (200_000, 2_500_000, 6_400_000)]
    {
        for (segments, rings) in [(8, 2), (64, 21)] {
            let shape = Shape { r_top, r_bottom, length };
            let hull = frustum_triangles(&shape, &headings(segments), rings);
            assert!(hull.iter().all(|t| cone(&at(0, 0, 0), t) >= 0));
            let pos = at(METRE, -METRE, 5);
            assert!(hull
                .iter()
                .all(|t| cone(&pos, &tri_to_world(t, &pos, &tilted())) >= -162 * size * size));
        }
    }
}

/// The wet share of a tetrahedron, from the heights of its corners.
fn share(mut h: [f64; 4]) -> f64 {
    h.sort_by(|a, b| a.partial_cmp(b).unwrap());
    let [a, b, c, d] = h;
    let r = |u: f64, v: f64| u / (u - v);
    if d <= 0.0 {
        1.0
    } else if c <= 0.0 {
        1.0 - r(d, a) * r(d, b) * r(d, c)
    } else if b <= 0.0 {
        let (p, q, s, t) = (r(a, c), r(a, d), r(b, c), r(b, d));
        p * (1.0 - (1.0 - q) * (1.0 - t)) + (1.0 - p) * s * t
    } else if a <= 0.0 {
        r(a, b) * r(a, c) * r(a, d)
    } else {
        0.0
    }
}

#[test]
fn the_shell_measures_what_is_under_water() {
    let hull = placed_can(&tilted());
    for level in [-1_234_567, -400_000, 0, 777_777, 1_500_000, 2_500_000] {
        for o in [at(0, 0, 0), at(3 * METRE, -2 * METRE, METRE)] {
            let y = |p: &Point| (p.y - level) as f64;
            let solid: f64 = hull
                .iter()
                .map(|t| cone(&o, t) as f64 * share([y(&t.a), y(&t.b), y(&t.c), y(&o)]))
                .sum();
            let shell = displaced(&hull, level) as f64;
            assert!((shell - solid).abs() < 1e15, "{shell} against {solid} at {level}");
        }
    }
}
