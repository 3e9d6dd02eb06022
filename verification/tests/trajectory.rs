use bad_spaceship::client::launch::thrust::AutopilotSnapshot;
use bad_spaceship::client::trajectory::{
    accept_burn, accept_coast, coast_path, draw_flight_path, fade, line_offset, live_position, spawn_trajectory_line, tube_mesh,
    update_flight_path, FlightPath, Forecast, COAST_SAMPLE_EVERY, COAST_STEPS, FADE_HOLD, FADE_RAMP, FADE_STEP,
    FADE_WINDOW, MIN_RADIUS, OPAQUE, TUBE_SIDES,
};
use bad_spaceship::buoyancy::hydro::Heading;
use bad_spaceship::client::tube::{tube_skin, tube_tangents, Corner};
use bad_spaceship::geom::Point;

const METRE: i64 = 1_000_000;

fn at(x: i64, y: i64, z: i64) -> Point {
    Point { x, y, z }
}

fn snapshot(pos: Point, throttle: u32) -> Option<AutopilotSnapshot> {
    Some(AutopilotSnapshot {
        true_pos: pos,
        frame_offset: at(0, 0, 0),
        true_vel: at(20 * METRE, 280 * METRE, 0),
        seed: 7,
        command_angle: 0,
        anchor: None,
        throttle,
        drag: 0,
        net_thrust: 0,
        radius: 4_000_000,
    })
}

fn empty_path() -> FlightPath {
    FlightPath { trail: Vec::new(), future: Vec::new(), plan: None }
}

/// The fade profile must be drawn, not merely sampled wherever the path happens to have
/// points: strength interpolates linearly between rings.
#[test]
fn the_clear_core_survives_a_coarsely_sampled_path() {
    // A straight climb sampled every 300 m, the vehicle on the middle vertex.
    let points: Vec<Option<Point>> = (0..7).map(|i| Some(at(0, i * 300 * METRE, 0))).collect();
    let mesh = tube_mesh(&points, 3, &at(50 * METRE, 900 * METRE, 0)).expect("a drawable tube");
    let rings: Vec<(f32, f32)> = mesh
        .rings
        .iter()
        .map(|r| (r.centre.y as f32 / 1e6, r.alpha as f32 / OPAQUE as f32))
        .collect();

    let shaded = |d: f32| {
        let y = 900.0 + d;
        let hi = rings.iter().position(|&(ry, _)| ry >= y).expect("bracketed");
        if hi == 0 {
            return rings[0].1;
        }
        let ((y0, a0), (y1, a1)) = (rings[hi - 1], rings[hi]);
        a0 + (a1 - a0) * ((y - y0) / (y1 - y0))
    };
    for step in -80..=80 {
        let d = step as f32;
        let want = {
            let hold = FADE_HOLD as f32 / 1e6;
            let ramp = FADE_RAMP as f32 / 1e6;
            let t = ((d.abs() - hold) / ramp).clamp(0.0, 1.0);
            t * t * (3.0 - 2.0 * t)
        };
        let got = shaded(d);
        assert!(
            (got - want).abs() < 0.05,
            "at {d} m the line renders at alpha {got:.2}, profile calls for {want:.2}"
        );
    }
}

/// The forecast starts at the rocket on every frame, not on a timer: each frame asks for a
/// new one.
#[test]
fn the_forecast_starts_at_the_rocket_every_frame() {
    let mut path = empty_path();
    let mut flown: Option<u64> = None;
    let (mut x, mut y) = (0.0f64, 3000.0f64);
    for frame in 0..10 {
        x += 20.0 / 60.0;
        y += 280.0 / 60.0;
        let pos = at((x * 1e6) as i64, (y * 1e6) as i64, 0);
        let asked = update_flight_path(&mut path, &mut flown, &snapshot(pos, 1_000_000), pos.y);
        let Forecast::Burn { from, velocity, .. } = asked else {
            panic!("frame {frame}: no forecast");
        };
        assert_eq!(velocity, at(20 * METRE, 280 * METRE, 0));
        // A preview begins where it was asked to.
        let preview = vec![from, at(from.x, from.y + 100 * METRE, 0)];
        accept_burn(&mut path, preview, false, 4_000 * METRE);
        let stale = path.future[0].distance(&pos);
        assert!(stale < 10_000, "frame {frame}: the forecast starts {stale} um from the rocket");
    }
}

#[test]
fn the_profile_is_a_smooth_step() {
    assert_eq!(fade(0), 0);
    assert_eq!(fade(30_000_000), 0);
    // Halfway up the ramp: 3/4 - 2/8.
    assert_eq!(fade(55_000_000), 500_000);
    // A fifth of the way: 3 * 0.04 - 2 * 0.008.
    assert_eq!(fade(40_000_000), 104_000);
    assert_eq!(fade(80_000_000), OPAQUE);
    assert_eq!(fade(1_000_000_000), OPAQUE);
    assert_eq!(FADE_HOLD + FADE_RAMP, FADE_WINDOW);
}

#[test]
fn rings_inside_the_window_are_close() {
    let points = vec![Some(at(0, 0, 0)), Some(at(0, 600 * METRE, 0)), Some(at(0, 1200 * METRE, 0))];
    let mesh = tube_mesh(&points, 1, &at(0, 600 * METRE, 0)).expect("a tube");
    for pair in mesh.rings.windows(2) {
        let inside = (pair[0].arc - 600_000_000).abs() < FADE_WINDOW
            && (pair[1].arc - 600_000_000).abs() < FADE_WINDOW;
        if inside {
            assert!(pair[1].arc - pair[0].arc <= FADE_STEP + 1_000);
        }
    }
    assert_eq!(mesh.rings[0].alpha, OPAQUE);
    assert!(mesh.rings.iter().any(|r| r.alpha == 0));
    let sides = TUBE_SIDES as usize;
    assert_eq!(mesh.indices.len(), (mesh.rings.len() - 1) * sides * 6);
    let corners = (mesh.rings.len() * sides) as u32;
    assert!(mesh.indices.iter().all(|i| *i < corners));
}

#[test]
fn a_tube_is_no_thinner_than_its_least_radius() {
    let points = vec![Some(at(0, 0, 0)), Some(at(0, 1_000 * METRE, 0))];
    let near = tube_mesh(&points, 0, &at(0, 0, 0)).expect("a tube");
    assert_eq!(near.rings[0].radius, MIN_RADIUS);
    // 0.00075 of a kilometre away.
    let far = near.rings.last().expect("a ring");
    assert_eq!(far.radius, 750_000);
}

#[test]
fn one_point_is_no_line() {
    assert!(tube_mesh(&[Some(at(0, 0, 0))], 0, &at(0, 0, 0)).is_none());
    assert!(tube_mesh(&[], 0, &at(0, 0, 0)).is_none());
    let same = vec![Some(at(0, 0, 0)), Some(at(0, 0, 500))];
    assert!(tube_mesh(&same, 0, &at(0, 0, 0)).is_none());
}

#[test]
fn without_a_flight_there_is_no_path() {
    let mut path = empty_path();
    let mut flown: Option<u64> = Some(7);
    path.trail.push(at(0, 1, 0));
    path.future.push(at(0, 2, 0));
    let asked = update_flight_path(&mut path, &mut flown, &None, 0);
    assert!(matches!(asked, Forecast::Nothing));
    assert!(path.future.is_empty());
    assert!(path.plan.is_none());
}

#[test]
fn the_coast_takes_every_fourth_state_until_the_ground() {
    let states: Vec<Point> = (0..=COAST_STEPS as i64).map(|i| at(0, i * METRE, 0)).collect();
    let mut grounded = vec![false; COAST_STEPS + 1];
    let all = coast_path(&states, &grounded);
    assert_eq!(all.len(), 1 + COAST_STEPS / COAST_SAMPLE_EVERY);
    assert_eq!(all[1], at(0, 4 * METRE, 0));
    grounded[5] = true;
    let cut = coast_path(&states, &grounded);
    assert_eq!(cut, vec![states[0], states[4], states[5]]);
    let mut path = empty_path();
    accept_coast(&mut path, cut.clone());
    assert_eq!(path.future, cut);
}

#[test]
fn the_drawn_path_meets_at_the_vehicle() {
    let path = FlightPath {
        trail: vec![at(0, 0, 0), at(0, 100 * METRE, 0)],
        future: vec![at(0, 150 * METRE, 0), at(0, 300 * METRE, 0)],
        plan: None,
    };
    let (points, anchor) = draw_flight_path(&path, Some(at(0, 150 * METRE, 0)), &at(0, 0, 0));
    assert_eq!(points[anchor], Some(at(0, 150 * METRE, 0)));
    assert_eq!(points.len(), 4);
}

#[test]
fn the_line_is_neon_and_hidden_at_first() {
    let look = spawn_trajectory_line();
    assert_eq!((look.base_color.r, look.base_color.g, look.base_color.b), (950_000, 1_000_000, 50_000));
    assert!(look.unlit && look.blended && !look.fog_enabled && !look.culled && !look.visible);
}

#[test]
fn the_skin_stands_square_to_the_path() {
    let points = vec![Some(at(0, 0, 0)), Some(at(0, 1_000 * METRE, 0)), Some(at(0, 4_000 * METRE, 0))];
    let mesh = tube_mesh(&points, 0, &at(0, 0, 0)).expect("a tube");
    let tangents = tube_tangents(&mesh);
    assert_eq!(tangents.len(), mesh.rings.len());
    assert!(tangents.iter().all(|t| *t == at(0, METRE, 0)));
    let across = vec![at(METRE, 0, 0); tangents.len()];
    let around = [
        Heading { cos: 1_000_000, sin: 0 },
        Heading { cos: 309_017, sin: 951_057 },
        Heading { cos: -809_017, sin: 587_785 },
        Heading { cos: -809_017, sin: -587_785 },
        Heading { cos: 309_017, sin: -951_057 },
    ];
    let skin = tube_skin(&mesh, &tangents, &across, &around);
    let sides = TUBE_SIDES as usize;
    assert_eq!(skin.len(), mesh.rings.len() * sides);
    let last = mesh.rings.len() - 1;
    // 0.00075 of four kilometres.
    assert_eq!(mesh.rings[last].radius, 3_000_000);
    assert_eq!(skin[last * sides].position, at(3_000_000, 4_000 * METRE, 0));
    assert_eq!(skin[last * sides].normal, at(METRE, 0, 0));
    assert_eq!(skin[last * sides + 1].normal, at(309_017, 0, -951_057));
    assert_eq!(skin[last * sides + 1].position, at(927_051, 4_000 * METRE, -2_853_171));
    assert_eq!(skin[0].alpha, 0);
    assert_eq!(skin[last * sides].alpha, OPAQUE);
}

#[test]
fn the_skin_follows_a_bend_without_a_twist() {
    // Up, then along x: the bend lies in a plane, and what is square to the plane stays.
    let points = vec![Some(at(0, 0, 0)), Some(at(0, 2_000 * METRE, 0)), Some(at(2_000 * METRE, 2_000 * METRE, 0))];
    let mesh = tube_mesh(&points, 0, &at(0, 0, 0)).expect("a tube");
    let tangents = tube_tangents(&mesh);
    let last = mesh.rings.len() - 1;
    assert_eq!(tangents[0], at(0, METRE, 0));
    assert_eq!(tangents[last], at(METRE, 0, 0));
    let mut across = vec![at(METRE, 0, 0); last + 1];
    across[0] = at(0, 0, METRE);
    let around = [Heading { cos: 1_000_000, sin: 0 }; 5];
    let skin = tube_skin(&mesh, &tangents, &across, &around);
    assert!(skin.iter().all(|c| c.normal == at(0, 0, METRE)));
}

/// How much a triangle faces the way of its corners' normals.
fn facing(skin: &[Corner], t: &[u32]) -> i128 {
    let (a, b, c) = (skin[t[0] as usize], skin[t[1] as usize], skin[t[2] as usize]);
    let step = |p: Point, q: Point| {
        ((q.x - p.x) as i128, (q.y - p.y) as i128, (q.z - p.z) as i128)
    };
    let (u, v) = (step(a.position, b.position), step(a.position, c.position));
    let n = |f: fn(&Point) -> i64| (f(&a.normal) + f(&b.normal) + f(&c.normal)) as i128;
    (u.1 * v.2 - u.2 * v.1) * n(|p| p.x)
        + (u.2 * v.0 - u.0 * v.2) * n(|p| p.y)
        + (u.0 * v.1 - u.1 * v.0) * n(|p| p.z)
}

#[test]
fn a_straight_tube_faces_outward() {
    let around = [
        Heading { cos: 1_000_000, sin: 0 },
        Heading { cos: 309_017, sin: 951_057 },
        Heading { cos: -809_017, sin: 587_785 },
        Heading { cos: -809_017, sin: -587_785 },
        Heading { cos: 309_017, sin: -951_057 },
    ];
    // Straight up, and aslant; with a vector square to each.
    let lines = [
        (at(0, 1, 0), at(METRE, 0, 0)),
        (at(2, 3, 6), at(832_050, -554_700, 0)),
        (at(-4, 1, 2), at(242_536, 970_143, 0)),
    ];
    for (way, across) in lines {
        let along = |k: i64| Some(at(way.x * k, way.y * k, way.z * k));
        let points = vec![along(0), along(40 * METRE), along(41 * METRE), along(900 * METRE)];
        let mesh = tube_mesh(&points, 1, &at(50 * METRE, 0, 20 * METRE)).expect("a tube");
        let tangents = tube_tangents(&mesh);
        let skin = tube_skin(&mesh, &tangents, &vec![across; tangents.len()], &around);
        assert_eq!(mesh.indices.len(), (mesh.rings.len() - 1) * 30);
        for t in mesh.indices.chunks(3) {
            assert!(facing(&skin, t) > 0, "{way:?}: {t:?} faces inward");
        }
    }
}

#[test]
fn the_vehicle_is_drawn_one_tick_on() {
    let snap = snapshot(at(METRE, 3_000 * METRE, 0), 1_000_000).expect("a snapshot");
    // A sixtieth of a second at 20 and 280 m/s.
    let live = live_position(&snap, 16_666_667);
    assert_eq!(live, at(METRE + 333_333, 3_004_666_666, 0));
    let room = at(0, 5 * METRE, 0);
    assert_eq!(line_offset(&Some(snap), Some(room)), at(0, 0, 0));
    assert_eq!(line_offset(&None, Some(room)), room);
    assert_eq!(line_offset(&None, None), at(0, 0, 0));
}
