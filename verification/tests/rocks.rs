use bad_spaceship::client::random::{next_between, next_unit, splitmix64};
use bad_spaceship::client::render_main_pass::rock::{
    asteroid_visual, rock_material, rock_mesh, value_noise, ROCK_SUBDIVISIONS,
    TOTAL_AMPLITUDE,
};
use bad_spaceship::geom::Point;

/// The corners of the sphere that is carved are many directions; a grid of them serves.
fn sphere() -> Vec<Point> {
    let mut directions = Vec::new();
    for i in 0..24 {
        for j in 1..12 {
            let (a, b) = (i as f64 * 0.2618, j as f64 * 0.2618);
            directions.push(Point {
                x: (a.cos() * b.sin() * 1e6) as i64,
                y: (b.cos() * 1e6) as i64,
                z: (a.sin() * b.sin() * 1e6) as i64,
            });
        }
    }
    directions
}

/// Two clients carving the same seed must get the same rock, and two seeds must not.
#[test]
fn a_rock_is_determined_by_its_seed() {
    let a = rock_mesh(&sphere(), 4_000_000, 12345);
    let b = rock_mesh(&sphere(), 4_000_000, 12345);
    let c = rock_mesh(&sphere(), 4_000_000, 12346);
    assert_eq!(a, b, "same seed carved two different rocks");
    assert_ne!(a, c, "two seeds carved the same rock");
}

/// The carving must stay inside the collider it is drawn for.
#[test]
fn the_carved_rock_stays_around_its_radius() {
    let total = TOTAL_AMPLITUDE as f64 / 100.0;
    assert!(total < 0.5, "octaves can displace a vertex through the rock's centre");
    for seed in 0..32u32 {
        let radius = 6.0f64;
        for p in rock_mesh(&sphere(), 6_000_000, seed) {
            let (x, y, z) = (p.x as f64 / 1e6, p.y as f64 / 1e6, p.z as f64 / 1e6);
            let r = (x * x + y * y + z * z).sqrt();
            assert!(
                r > radius * (1.0 - total) - 1e-3 && r < radius * (1.0 + total) + 1e-3,
                "seed {seed}: vertex at {r} m is outside the {radius} m rock's band"
            );
        }
    }
}

#[test]
fn a_corner_follows_its_direction() {
    let rock = rock_mesh(&[Point { x: 0, y: 1_000_000, z: 0 }], 6_000_000, 5);
    assert_eq!((rock[0].x, rock[0].z), (0, 0));
    assert!(rock[0].y > 0);
}

#[test]
fn the_generator_is_splitmix64() {
    let mut state = 0u64;
    assert_eq!(splitmix64(&mut state), 0xE220_A839_7B1D_CDAF);
    assert_eq!(state, 0x9E37_79B9_7F4A_7C15);
    assert_eq!(splitmix64(&mut state), 0x6E78_9E6A_A1B9_65F4);
    let mut state = 0u64;
    assert_eq!(next_unit(&mut state), 0x00E2_20A8);
    let mut state = 0u64;
    // 0xE220A8 of 2^24 is 0.88331...
    assert_eq!(next_between(&mut state, 0, 1_000_000), 883_310);
}

#[test]
fn noise_is_the_same_for_the_same_seed() {
    let a = value_noise(123_456, -7_890, 42, 9);
    assert_eq!(a, value_noise(123_456, -7_890, 42, 9));
    assert_ne!(a, value_noise(123_456, -7_890, 42, 10));
}

#[test]
fn a_rock_is_pale_and_rough() {
    for seed in 0..16 {
        let look = rock_material(seed);
        assert_eq!(look.colour.a, 1_000_000);
        assert!(look.roughness >= 920_000 && look.roughness <= 1_000_000);
        assert!(look.colour.r >= look.colour.b);
        assert_eq!(asteroid_visual(&[], 1_000_000, seed).look, look);
    }
}

#[test]
fn one_seed_is_one_shape_at_two_sizes() {
    let (small, large) = (1_500_000i64, 9_000_000i64);
    let a = rock_mesh(&sphere(), small as u32, 77);
    let b = rock_mesh(&sphere(), large as u32, 77);
    for (p, q) in a.iter().zip(&b) {
        for (p, q) in [(p.x, q.x), (p.y, q.y), (p.z, q.z)] {
            assert!((q * small - p * large).abs() <= large);
        }
    }
}

/// Each of the twenty faces has as many rows of triangles as its edge has parts.
#[test]
fn a_rock_is_halved_three_times() {
    assert_eq!(ROCK_SUBDIVISIONS + 1, 2u32.pow(3));
    assert_eq!(20 * (ROCK_SUBDIVISIONS + 1).pow(2), 1280);
}
