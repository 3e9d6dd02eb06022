use bad_spaceship::client::asteroids::{
    run_local_asteroid_field, ship_centre, sweep_field, FieldRock, FieldStep, ShipPart,
};
use bad_spaceship::client::colour::{rgb, Rgba};
use bad_spaceship::client::gizmo::{flat_colour, position_held_gizmo};
use bad_spaceship::client::highlight::{
    focused_add_highlight, focused_remove_highlight, rocket_focus_add_highlight,
    rocket_focus_remove_highlight, Lightable,
};
use bad_spaceship::client::hud::{attach_point_colour, deleting_zone_visibility};
use bad_spaceship::client::materials::{assign_characters, assign_parts, material_of, Undressed};
use bad_spaceship::client::monster::{
    animate_monsters, avatar_name, avatar_thumbnail_path, dress_characters, face_own_monster,
    local_monster, monster_seed, redress_own_monster, setup_monster_animation, spawn_monster_visual,
    DisplayedMonster, Dressed, MonsterAnim,
};
use bad_spaceship::client::net::Orientation;
use bad_spaceship::client::outline::{
    despawn_outlines, outline_pass_ready, resize_mask_image, spawn_mask_camera, spawn_outlines,
    sync_mask_camera, sync_outline_focus, toggle_outline_pass, MaskSize, Node, OutlineChild,
    PassChange,
};
use bad_spaceship::client::planet::{cliff_mesh, spawn_planet, toggle_planet_outline};
use bad_spaceship::client::render_main_pass::ash_material::{build_flake_mesh, NUM_FLAKES};
use bad_spaceship::client::render_main_pass::atmosphere::update_atmosphere;
use bad_spaceship::client::render_main_pass::flame_material::{
    flame_rate, register_flame_mesh, spawn_flame, update_flames, Flame, FlameParams, FlameThrottle,
    LightState, ATTACK_RATE, DECAY_RATE, FLAME_LENGTH,
};
use bad_spaceship::client::render_main_pass::ash_material::spawn_ash_field;
use bad_spaceship::client::render_main_pass::grass_material::assign_grass;
use bad_spaceship::client::render_main_pass::magma_material::{magma_material, MagmaParams};
use bad_spaceship::client::render_main_pass::metal_material::{
    finish_and_tint, metal_material, metal_tint, part_visual, rocket_body_material, Finish,
};
use bad_spaceship::client::render_main_pass::{compute_mesh, ground_uv, unit_of_sum, Face};
use bad_spaceship::client::render_secondary_pass::assembly::Joint;
use bad_spaceship::client::render_secondary_pass::normalization::normalize;
use bad_spaceship::client::render_secondary_pass::{
    add_hold_point_delete_zone_visualization, build_gizmo, build_thrust_arrow,
    delete_zone_visibility, display_joints, gizmo_colour, initialize_joint_appearance, joint_colour, position_gizmo, shaft_length,
    thrust_arrow, update_thrust_arrow, Axis, Handler, Held, HoldPointAt, JointKind, Rocket, Visibility,
};
use bad_spaceship::client::telemetry::{init, log, panic_line};
use bad_spaceship::geom::{Long, Point};

fn at(x: i64, y: i64, z: i64) -> Point {
    Point { x, y, z }
}

// ---- Avatars -------------------------------------------------------------------------

#[test]
fn avatars_have_names_and_pictures() {
    assert_eq!(avatar_name(0), "Alien");
    assert_eq!(avatar_name(1), "Alien Tall");
    assert_eq!(avatar_name(9), avatar_name(1));
    assert_eq!(avatar_thumbnail_path(3), "monsters/thumbnails/greendemon.png");
    let scene = spawn_monster_visual(7, 1);
    assert_eq!((scene.body, scene.path.as_str(), scene.feet_y), (7, "monsters/Alien_Tall.glb", -750_000));
    // 1.5 m out of 2.11 m.
    assert_eq!(scene.scale, 710_900);
    assert_eq!(scene.displayed, DisplayedMonster(1));
}

#[test]
fn the_servers_word_decides_the_avatar() {
    assert_eq!(monster_seed(5, 9), 5);
    assert_eq!(monster_seed(0, 9), 9);
    assert_eq!(local_monster(77), 77);
    let first = local_monster(0);
    assert!((0..8).any(|_| local_monster(0) != first));
    assert_eq!(dress_characters(Some(3), 4), 3);
    assert_eq!(dress_characters(None, 4), 4);
    let right = Dressed { entity: 1, assigned: 2, displayed: DisplayedMonster(2), pivot: 10 };
    let wrong = Dressed { entity: 2, assigned: 3, displayed: DisplayedMonster(2), pivot: 11 };
    assert_eq!(redress_own_monster(&[right, wrong]), vec![wrong]);
}

#[test]
fn a_monster_walks_when_it_moves() {
    assert_eq!(face_own_monster(500, -500), None);
    assert_eq!(face_own_monster(500, 0), Some(-500));
    assert_eq!(setup_monster_animation(&[false, true, false]), Some(1));
    assert_eq!(setup_monster_animation(&[false]), None);
    let mut anim = MonsterAnim { idle: 1, walk: 2, current: 1 };
    assert_eq!(animate_monsters(&mut anim, Some(true), None, true), Some(2));
    assert_eq!(animate_monsters(&mut anim, Some(true), None, true), None);
    assert_eq!(animate_monsters(&mut anim, Some(false), None, true), Some(1));
    assert_eq!(animate_monsters(&mut anim, None, Some(true), true), Some(2));
}

// ---- Outlines ------------------------------------------------------------------------

fn node(entity: u64, mesh: bool, flame: bool, children: Vec<usize>) -> Node {
    Node { entity, mesh, flame, children }
}

#[test]
fn the_whole_subtree_is_outlined() {
    let nodes = vec![
        node(10, true, false, vec![1, 2]),
        node(11, false, false, vec![3]),
        node(12, true, true, vec![]),
        node(13, true, false, vec![]),
    ];
    let mut proxies = spawn_outlines(&nodes, 0);
    proxies.sort();
    assert_eq!(proxies, vec![10, 13]);
    assert_eq!(spawn_outlines(&nodes, 3), vec![13]);
}

#[test]
fn stale_outlines_go() {
    let parts = vec![
        OutlineChild { part: 1, outlined: false, proxies: vec![10, 11] },
        OutlineChild { part: 2, outlined: true, proxies: vec![20] },
    ];
    assert_eq!(despawn_outlines(&parts, &[10, 20]), vec![10]);
    let mut lit = Some(1);
    let change = sync_outline_focus(&mut lit, Some(2));
    assert_eq!((change.dim, change.light), (Some(1), Some(2)));
}

#[test]
fn the_mask_follows_the_window() {
    assert!(spawn_mask_camera(false, true));
    assert!(!spawn_mask_camera(true, true) && !spawn_mask_camera(false, false));
    let window = MaskSize { width: 800, height: 600 };
    assert_eq!(resize_mask_image(Some(window), Some(MaskSize { width: 16, height: 16 })), Some(window));
    assert_eq!(resize_mask_image(Some(window), Some(window)), None);
    assert_eq!(resize_mask_image(None, Some(window)), None);
    assert_eq!(
        toggle_outline_pass(1, &[false, true]),
        vec![PassChange::Add, PassChange::Keep]
    );
    assert_eq!(
        toggle_outline_pass(0, &[false, true]),
        vec![PassChange::Keep, PassChange::Remove]
    );
    assert!(outline_pass_ready(true, true, true, true));
    assert!(!outline_pass_ready(true, true, false, true));
    assert_eq!(sync_mask_camera(&[4, 5], &[9]), Some((4, 9)));
    assert_eq!(sync_mask_camera(&[4], &[8, 9]), None);
    assert_eq!(sync_mask_camera(&[], &[9]), None);
}

#[test]
fn a_highlight_ends_as_it_began() {
    let grey = rgb(400_000, 400_000, 400_000);
    let mut part = Lightable { focused: true, rocket: false, color: grey, highlight: None, glow: None };
    let before = Lightable { focused: false, ..part };
    focused_add_highlight(&mut part);
    focused_add_highlight(&mut part);
    rocket_focus_add_highlight(&mut part);
    assert_eq!(part.color, rgb(1_000_000, 1_000_000, 0));
    part.focused = false;
    focused_remove_highlight(&mut part);
    assert_eq!(part, before);
    let mut rocket = Lightable { focused: true, rocket: true, ..before };
    focused_add_highlight(&mut rocket);
    rocket_focus_add_highlight(&mut rocket);
    assert_eq!((rocket.color, rocket.glow), (grey, Some(rgb(1_000_000, 1_000_000, 0))));
    rocket.focused = false;
    rocket_focus_remove_highlight(&mut rocket);
    assert_eq!(rocket.glow, None);
}

// ---- Planet, rocks, air --------------------------------------------------------------

#[test]
fn cliffs_stand_around_the_platform() {
    let mesh = cliff_mesh(10_000_000, -5_000_000);
    assert_eq!((mesh.positions.len(), mesh.normals.len()), (24, 24));
    for (p, n) in mesh.positions.iter().zip(&mesh.normals) {
        assert_eq!(p.x * n.x + p.z * n.z, 10_000_000);
        assert!(p.y == 1_500_000 || p.y == -5_000_000);
    }
    assert!(spawn_planet(1) && !spawn_planet(0) && !spawn_planet(2));
    assert_eq!(toggle_planet_outline(true, Some(true), false, &[false]), vec![PassChange::Add]);
    assert_eq!(toggle_planet_outline(true, None, true, &[true]), vec![PassChange::Remove]);
    assert_eq!(toggle_planet_outline(false, None, true, &[true]), vec![PassChange::Keep]);
}

#[test]
fn rocks_come_around_the_ship() {
    let part = |entity: u64, x: i64| ShipPart { entity, at: at(x, 0, 0), velocity: Some(at(0, x, 0)) };
    let parts = [part(1, 10), part(2, 30), part(3, 1_000)];
    let mean = ship_centre(&parts, &[1, 2]).expect("a ship");
    assert_eq!((mean.centre, mean.velocity), (at(20, 0, 0), at(0, 20, 0)));
    assert!(ship_centre(&parts, &[]).is_none());
    let rocks = [FieldRock { entity: 7, spent: true }, FieldRock { entity: 8, spent: false }];
    match run_local_asteroid_field(false, true, &rocks, &parts, None) {
        FieldStep::Reset { despawn } => assert_eq!(despawn, vec![7, 8]),
        _ => panic!("a reset"),
    }
    assert!(matches!(
        run_local_asteroid_field(true, true, &rocks, &parts, None),
        FieldStep::Idle
    ));
    assert!(matches!(
        run_local_asteroid_field(true, true, &rocks, &parts, Some(vec![1, 2])),
        FieldStep::Around { .. }
    ));
    let sweep = sweep_field(&rocks, true, 2);
    assert_eq!((sweep.despawn, sweep.spawn), (vec![7], true));
    assert!(!sweep_field(&rocks, true, 1).spawn);
    assert!(!sweep_field(&rocks, false, 2).spawn);
}

#[test]
fn stars_come_out_as_the_air_thins() {
    assert!(update_atmosphere(None, true).is_none());
    let low = update_atmosphere(Some(1_000_000), false).expect("air");
    let high = update_atmosphere(Some(0), true).expect("air");
    assert!(low.add_fog && !high.add_fog);
    assert!(low.fog_density > high.fog_density);
    assert!(low.stars.visibility < high.stars.visibility);
    assert_eq!(high.fog_density, 0);
}

#[test]
fn flakes_are_quads_of_their_own() {
    let mesh = build_flake_mesh();
    assert_eq!(mesh.indices.len(), NUM_FLAKES * 6);
    assert_eq!(&mesh.indices[6..12], &[4, 5, 6, 4, 6, 7]);
    assert_eq!(mesh.corners.len(), NUM_FLAKES * 4);
}

#[test]
fn a_mesh_has_the_normals_of_its_faces() {
    let verts = [at(0, 0, 0), at(0, 0, 10), at(10, 0, 0), at(10, 0, 10)];
    let faces = [Face { a: 0, b: 1, c: 2 }, Face { a: 2, b: 1, c: 3 }];
    let mesh = compute_mesh(&verts, &faces);
    assert_eq!(mesh.indices, vec![0, 1, 2, 2, 1, 3]);
    assert!(mesh.normals.iter().all(|n| *n == at(0, 1_000_000, 0)));
    // A corner between a floor and a wall of the same size leans half way.
    let verts = [at(0, 0, 0), at(0, 0, 10), at(10, 0, 0), at(0, 10, 0)];
    let bent = compute_mesh(&verts, &[Face { a: 0, b: 1, c: 2 }, Face { a: 0, b: 3, c: 1 }]);
    assert_eq!(bent.normals[0], at(707_106, 707_106, 0));
    assert_eq!(bent.normals[2], at(0, 1_000_000, 0));
    let far = unit_of_sum(&Long { x: 3 << 80, y: 0, z: -(4 << 80) });
    // Rounded towards nothing, once when it is brought down and once as a unit vector.
    assert_eq!(far, at(599_999, 0, -800_000));
    let (u, v) = ground_uv(0, 0, 1_000_000);
    assert_eq!(u, v);
}

// ---- Materials -----------------------------------------------------------------------

#[test]
fn drawn_materials_are_muted() {
    let m = assign_parts(&[1, 2, 3, 4, 5, 6, 7, 8]);
    assert_eq!(m.len(), 8);
    for p in &m {
        for c in [p.base_color.r, p.base_color.g, p.base_color.b] {
            assert!(c >= 200_000 && c <= 700_000);
        }
        assert!(p.metallic <= 1_000_000 && p.roughness <= 1_000_000);
    }
    // They are not all the same.
    assert!(m.iter().any(|p| *p != m[0]));
    assert_eq!(material_of(1, 2, 3, 4, 5, 6).base_color, Rgba { r: 1, g: 2, b: 3, a: 1_000_000 });
}

#[test]
fn a_metal_is_determined_by_its_seed() {
    for seed in 0..32 {
        let (finish, tint) = finish_and_tint(seed);
        assert_eq!(metal_tint(seed), tint);
        let m = metal_material(seed);
        assert_eq!((m.base_color, m.params.finish), (tint, finish.shader_index()));
        assert!(finish != Finish::Striped);
        assert_eq!(metal_material(seed), m);
    }
    let rocket = rocket_body_material();
    assert_eq!(rocket.base_color, rgb(950_000, 420_000, 50_000));
    assert_eq!(rocket.params.finish, Finish::Striped.shader_index());
    let v = part_visual(&at(500_000, 250_000, 1_000_000), 9);
    assert_eq!((v.size, v.material), (at(1_000_000, 500_000, 2_000_000), metal_material(9)));
}

#[test]
fn magma_keeps_its_offset() {
    let m = magma_material();
    assert_eq!((m.roughness, m.metallic, m.reflectance, m.fog_enabled), (1_000_000, 0, 20_000, false));
    let mut p = MagmaParams::default();
    assert_eq!(p, m.params);
    let target = p.frame_target(&at(1, 2, 3));
    p.set_stored_frame(target);
    assert_eq!(p.stored_frame(), at(1, 2, 3));
    assert_eq!((p.rivulet_lo, p.rivulet_hi), (720_000, 950_000));
}

#[test]
fn grass_and_ash_have_their_looks() {
    let m = assign_grass();
    assert_eq!((m.roughness, m.reflectance), (1_000_000, 50_000));
    assert_eq!(m.params.highlight_color, rgb(330_000, 550_000, 180_000));
    assert_eq!((m.params.fade_start, m.params.fade_end), (25_000_000, 55_000_000));
    let ash = spawn_ash_field(50_000_000);
    assert_eq!(ash.box_size, at(100_000_000, 90_000_000, 100_000_000));
    assert_eq!((ash.fall_min, ash.fall_max, ash.color.a), (500_000, 1_300_000, 850_000));
}

#[test]
fn flames_follow_their_throttle() {
    assert_eq!(register_flame_mesh().segments, 32);
    let new = spawn_flame(252, 1_000_000, 400_000);
    assert_eq!((new.params.phase, new.y, new.light_y), (417, 800_000, -FLAME_LENGTH / 2));
    assert_eq!(new.visibility, Visibility::Hidden);
    let mut flame = Flame {
        throttle: FlameThrottle { target: 1_000_000, eased: 0 },
        visibility: Visibility::Hidden,
        light: LightState { y: 0, intensity: 0 },
        params: FlameParams::default(),
    };
    assert_eq!(flame_rate(&flame.throttle), ATTACK_RATE);
    update_flames(&mut flame, 500_000, None);
    assert_eq!(flame.throttle.eased, 500_000);
    assert_eq!(flame.visibility, Visibility::Visible);
    flame.throttle.target = 0;
    assert_eq!(flame_rate(&flame.throttle), DECAY_RATE);
    update_flames(&mut flame, 1_000_000, None);
    assert_eq!(flame.throttle.eased, 0);
    assert_eq!(flame.visibility, Visibility::Hidden);
}

// ---- Gizmos --------------------------------------------------------------------------

fn turned() -> Orientation {
    Orientation { x: 0, y: 707_107, z: 0, w: 707_107 }
}

#[test]
fn a_gizmo_has_a_tail_and_a_cone_for_each_axis() {
    let pieces = build_gizmo();
    assert_eq!(pieces.len(), 6);
    for axis in [Axis::X, Axis::Y, Axis::Z] {
        assert_eq!(pieces.iter().filter(|p| p.axis == axis).count(), 2);
    }
    assert_ne!(gizmo_colour(Axis::X, true), gizmo_colour(Axis::Y, true));
    assert_ne!(flat_colour(Axis::X, true), flat_colour(Axis::Y, true));
    assert_eq!(joint_colour(JointKind::Predelete).color.hue, 0);
    assert_eq!(joint_colour(JointKind::Existing).color.hue, 120);
    assert_eq!(joint_colour(JointKind::Potential).color.hue, 240);
    assert_eq!(attach_point_colour(JointKind::Potential), rgb(1_000_000, 1_000_000, 200_000));
}

#[test]
fn a_gizmo_shows_while_a_part_is_held() {
    let points = [HoldPointAt { entity: 5, at: at(1, 2, 3) }];
    let held = Some(Held { orientation: turned(), hold_point: 5 });
    let mut hub = Visibility::Hidden;
    let mut pieces = vec![Visibility::Hidden; 2];
    let pose = position_gizmo(held, &points, false, None, None, &mut hub, &mut pieces).expect("a pose");
    assert_eq!((pose.at, pose.orientation), (at(1, 2, 3), turned()));
    assert_eq!((hub, pieces[1]), (Visibility::Visible, Visibility::Visible));
    assert!(position_gizmo(None, &points, false, None, None, &mut hub, &mut pieces).is_none());
    assert_eq!(hub, Visibility::Hidden);
    let flat = position_held_gizmo(held, &points, &mut hub, &mut pieces).expect("a pose");
    assert_eq!(flat.at, at(1, 2, 3));
}

#[test]
fn each_joint_has_one_sphere() {
    let plan = display_joints(&[Some(at(1, 0, 0)), None, Some(at(2, 0, 0)), Some(at(3, 0, 0))], 2);
    assert_eq!(plan.moved, vec![at(1, 0, 0), at(2, 0, 0)]);
    assert_eq!(plan.spawned, vec![at(3, 0, 0)]);
    assert_eq!(plan.hidden, 0);
    let fewer = display_joints(&[Some(at(1, 0, 0))], 3);
    assert_eq!((fewer.moved.len(), fewer.spawned.len(), fewer.hidden), (1, 0, 2));
}

#[test]
fn the_delete_zone_shows_with_empty_hands() {
    assert_eq!(add_hold_point_delete_zone_visualization(&[]), None);
    assert_eq!(add_hold_point_delete_zone_visualization(&[4, 5]), Some(4));
    let mut zone = Visibility::Hidden;
    let handler = |holding, modifying| Some(Handler { holding, modifying, has_hold_point: true });
    delete_zone_visibility(handler(false, true), &mut zone);
    assert_eq!(zone, Visibility::Visible);
    delete_zone_visibility(handler(true, true), &mut zone);
    assert_eq!(zone, Visibility::Hidden);
    deleting_zone_visibility(false, true, true, &mut zone);
    assert_eq!(zone, Visibility::Visible);
    deleting_zone_visibility(false, false, false, &mut zone);
    assert_eq!(zone, Visibility::Visible);
}

#[test]
fn the_thrust_arrow_sums_the_rockets() {
    let rocket = |entity: u64, x: i64| Rocket { entity, point: at(x, 0, 0), dir: at(0, 1_000_000, 0) };
    let rockets = [rocket(1, -1_000_000), rocket(2, 1_000_000), rocket(3, 9_000_000)];
    let arrow = thrust_arrow(&rockets, &[1, 2], 2_000_000).expect("an arrow");
    assert_eq!((arrow.origin, arrow.dir), (at(0, 0, 0), at(0, 1_000_000, 0)));
    assert!(arrow.length > 0);
    assert!(thrust_arrow(&rockets, &[], 2_000_000).is_none());
    let joints = [Joint { entity: 9, body1: 1, body2: 2 }];
    let updated = update_thrust_arrow(false, &rockets, &joints, 2_000_000).expect("an arrow");
    assert_eq!(updated, arrow);
    assert_eq!(shaft_length(2_000_000), 1_500_000);
    let parts = build_thrust_arrow();
    assert_eq!((parts.shaft_radius, parts.head_radius, parts.head_height), (100_000, 250_000, 500_000));
}

#[test]
fn handles_keep_their_size_on_the_screen() {
    assert!(normalize(false, &[1_000_000]).is_none());
    let scales = normalize(true, &[1_000_000, 2_000_000]).expect("scales");
    assert_eq!(scales.len(), 2);
    assert!(scales[1] > scales[0]);
}

// ---- Telemetry -----------------------------------------------------------------------

#[test]
fn lines_are_numbered() {
    let mut seq = 0;
    assert_eq!(init(&mut seq, "b1"), "#0 [b1] boot");
    assert_eq!(log(&mut seq, "b1", "hi"), "#1 [b1] hi");
    seq = u32::MAX;
    assert_eq!(log(&mut seq, "b1", "last"), "#4294967295 [b1] last");
    assert_eq!(seq, 0);
    assert_eq!(panic_line("b1", "oh"), "PANIC [b1] oh");
}

#[test]
fn joints_have_three_colours() {
    let a = initialize_joint_appearance();
    assert_eq!(a.radius, 100_000);
    let hues = [a.valid_material.color.hue, a.invalid_material.color.hue, a.predelete_material.color.hue];
    assert_eq!(hues, [240, 120, 0]);
    assert_eq!(a.valid_material.color.alpha, 750_000);
}

#[test]
fn characters_are_grey_spheres_until_dressed() {
    let looks = assign_characters(&[
        Undressed { entity: 4, radius: 500_000 },
        Undressed { entity: 9, radius: 750_000 },
    ]);
    assert_eq!(looks.len(), 2);
    assert_eq!((looks[0].entity, looks[0].radius), (4, 500_000));
    assert_eq!((looks[1].entity, looks[1].radius), (9, 750_000));
    assert!(looks.iter().all(|l| l.subdivisions == 5));
    assert!(looks.iter().all(|l| l.base_color == Rgba { r: 800_000, g: 800_000, b: 800_000, a: 1_000_000 }));
    assert!(assign_characters(&[]).is_empty());
}
