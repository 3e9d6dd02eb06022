use bad_spaceship::buoyancy::hydro::Heading;
use bad_spaceship::client::chase::{drive_pilot_camera, Basis, ChaseInput};
use bad_spaceship::client::gamepad::{
    any_activation, deadzone, detect_gamepad, gamepad_movement, gamepad_pointer, start_game_on_button,
    toggle_menu_on_start, Buttons, Gamepad, GamepadActive,
};
use bad_spaceship::client::input::{
    get_left_click, get_look, get_modifying, keyboard_direction, mouse_wheel, process_keyboard_input,
    process_mouse_clicks, zoom_camera, Keys, ScrollUnit, Wheel,
};
use bad_spaceship::client::launch::thrust::{Anchor, AutopilotSnapshot};
use bad_spaceship::client::launch::{LaunchLocal, MpBanner, NetLaunch, SpPhase, Stick};
use bad_spaceship::client::mobile::{
    apply_look, apply_modify, apply_movement, classify_touches, compute_layout, detect_touch,
    draw_overlay, mobile_active, reset_controls, start_game_on_touch, ButtonLabel, ControlLayout,
    MobileActive, Spot, Touch, TouchControls,
};
use bad_spaceship::client::pilot::{
    chase_distance, chase_target, mount_pilot_camera, piloting, read_pilot_look, read_pilot_stick,
    take_the_controls, AtTheControls, Mount, PilotLook, PilotStick, MAX_LOOK_PITCH,
};
use bad_spaceship::client::platform::{native, web};
use bad_spaceship::client::{add_camera_to_player, AppState, CameraMount, NewPlayer};
use bad_spaceship::geom::Point;

fn at(x: i64, y: i64, z: i64) -> Point {
    Point { x, y, z }
}

// ---- Keyboard and mouse --------------------------------------------------------------

fn no_keys() -> Keys {
    Keys { w: false, a: false, s: false, d: false, space: false, shift_left: false, shift_right: false }
}

#[test]
fn keys_move_only_in_the_game() {
    let keys = Keys { w: true, d: true, space: true, ..no_keys() };
    assert_eq!(keyboard_direction(&keys, AppState::InGame), at(1_000_000, 1_000_000, 1_000_000));
    assert_eq!(keyboard_direction(&keys, AppState::InGameMenu), at(0, 0, 0));
    let both = Keys { a: true, d: true, ..no_keys() };
    assert_eq!(keyboard_direction(&both, AppState::InGame), at(0, 0, 0));
    let mut inputs = vec![at(0, 0, 0), at(1_000_000, 0, 0)];
    let w = Keys { w: true, ..no_keys() };
    process_keyboard_input(&w, AppState::InGame, &mut inputs);
    assert_eq!(inputs[0], at(0, 0, 1_000_000));
    // The sum of two directions is one as long as either.
    assert_eq!(inputs[1], at(707_106, 0, 707_106));
}

#[test]
fn the_mouse_counts_in_the_game() {
    assert_eq!(get_look(&[at(1, 2, 0), at(3, 4, 0)], AppState::InGame), at(3, 4, 0));
    assert_eq!(get_look(&[at(3, 4, 0)], AppState::Initial), at(0, 0, 0));
    assert_eq!(get_look(&[], AppState::InGame), at(0, 0, 0));
    assert!(process_mouse_clicks(true, AppState::InGame));
    assert!(!process_mouse_clicks(true, AppState::InGameMenu));
    let mut clicked = vec![false, false];
    get_left_click(true, AppState::InGame, &mut clicked);
    assert_eq!(clicked, vec![true, false]);
    let mut modifying = vec![false];
    get_modifying(&Keys { shift_right: true, ..no_keys() }, AppState::InGame, &mut modifying);
    assert_eq!(modifying, vec![true]);
    get_modifying(&no_keys(), AppState::InGame, &mut modifying);
    assert_eq!(modifying, vec![false]);
}

#[test]
fn the_wheel_moves_the_camera() {
    assert_eq!(mouse_wheel(&[]), 0);
    assert_eq!(mouse_wheel(&[Wheel { unit: ScrollUnit::Line, y: 3_000_000 }]), 3_000_000);
    assert_eq!(mouse_wheel(&[Wheel { unit: ScrollUnit::Pixel, y: -216 }]), -2);
    assert_eq!(zoom_camera(10, 3, 0, 20, false), 7);
    assert_eq!(zoom_camera(10, -30, 0, 20, false), 20);
    assert_eq!(zoom_camera(10, 30, 5, 20, false), 5);
    assert_eq!(zoom_camera(10, 3, 0, 20, true), 10);
}

// ---- Controller ----------------------------------------------------------------------

fn no_buttons() -> Buttons {
    Buttons {
        south: false,
        east: false,
        west: false,
        north: false,
        start: false,
        select: false,
        left_trigger: false,
        right_trigger: false,
        left_trigger2: false,
        right_trigger2: false,
    }
}

fn pad() -> Gamepad {
    Gamepad {
        just_pressed: no_buttons(),
        pressed: no_buttons(),
        left_x: None,
        left_y: None,
        right_x: None,
        right_y: None,
    }
}

#[test]
fn a_stick_rests_in_its_dead_zone() {
    assert_eq!(deadzone(120_000, 0), (0, 0));
    assert_eq!(deadzone(0, -120_000), (0, 0));
    assert_eq!(deadzone(1_000_000, 0), (1_000_000, 0));
    assert_eq!(deadzone(0, -1_000_000), (0, -1_000_000));
    assert_eq!(deadzone(560_000, 0), (500_000, 0));
    // Three, four, five: 0.5 less 0.12, out of 0.88.
    assert_eq!(deadzone(300_000, -400_000), (259_090, -345_454));
    assert_eq!(deadzone(72_000, 96_000), (0, 0));
    // The zone is round: neither axis is lost alone.
    let (x, y) = deadzone(100_000, 500_000);
    assert!(x > 80_000 && y > 400_000);
}

#[test]
fn a_controller_is_noticed() {
    assert!(!any_activation(&[pad()]));
    assert!(any_activation(&[pad(), Gamepad { left_y: Some(-200_000), ..pad() }]));
    assert!(any_activation(&[Gamepad { left_x: Some(100_000), left_y: Some(100_000), ..pad() }]));
    assert!(!any_activation(&[Gamepad { left_x: Some(70_000), left_y: Some(70_000), ..pad() }]));
    let a = Gamepad { just_pressed: Buttons { south: true, ..no_buttons() }, ..pad() };
    let mut active = GamepadActive::default();
    detect_gamepad(&[pad()], &mut active);
    assert!(!active.0);
    detect_gamepad(&[a], &mut active);
    assert!(active.0);
    assert_eq!(start_game_on_button(&[a]), Some(AppState::InGame));
    assert_eq!(start_game_on_button(&[pad()]), None);
    let start = Gamepad { just_pressed: Buttons { start: true, ..no_buttons() }, ..pad() };
    assert_eq!(toggle_menu_on_start(&[start], &active, AppState::InGame), Some(AppState::InGameMenu));
    assert_eq!(toggle_menu_on_start(&[start], &active, AppState::InGameMenu), Some(AppState::InGame));
    assert_eq!(toggle_menu_on_start(&[start], &active, AppState::Initial), None);
}

#[test]
fn the_sticks_walk_and_look() {
    let walking = Gamepad { left_y: Some(1_000_000), ..pad() };
    assert_eq!(gamepad_movement(&[walking], AppState::InGame).z, 1_000_000);
    assert_eq!(gamepad_movement(&[walking], AppState::InGameMenu), at(0, 0, 0));
    let looking = Gamepad { right_x: Some(1_000_000), ..pad() };
    let p = gamepad_pointer(&[looking]);
    assert!(p.look_x > 0 && p.look_y == 0 && !p.modify && !p.click);
}

// ---- Touch ---------------------------------------------------------------------------

fn layout() -> ControlLayout {
    let mut l = ControlLayout {
        width: 0,
        height: 0,
        btn_r: 0,
        pause_r: 0,
        joystick_radius: 0,
        jump: Spot { x: 0, y: 0 },
        grab: Spot { x: 0, y: 0 },
        modify: Spot { x: 0, y: 0 },
        pause: Spot { x: 0, y: 0 },
    };
    compute_layout(&mut l, Some((800_000, 600_000)));
    l
}

#[test]
fn buttons_are_laid_out_in_the_corner() {
    let l = layout();
    // 7 % of the shorter side.
    assert_eq!(l.btn_r, 42_000);
    assert_eq!(l.jump, Spot { x: 742_000, y: 542_000 });
    assert_eq!(l.grab, Spot { x: 640_000, y: 542_000 });
    assert_eq!(l.modify, Spot { x: 742_000, y: 440_000 });
    let mut same = l;
    compute_layout(&mut same, None);
    assert_eq!(same, l);
    assert!(l.hit(l.jump, Spot { x: 742_000 + 50_000, y: 542_000 }));
    assert!(!l.hit(l.jump, Spot { x: 742_000 + 50_001, y: 542_000 }));
}

#[test]
fn fingers_have_roles() {
    let l = layout();
    let mut c = TouchControls::default();
    let thumb = Touch { id: 1, position: Spot { x: 100_000, y: 300_000 } };
    let eye = Touch { id: 2, position: Spot { x: 600_000, y: 200_000 } };
    let jump = Touch { id: 3, position: l.jump };
    let r = classify_touches(&[thumb, eye, jump], &[thumb, eye, jump], &l, &mut c);
    assert_eq!((c.move_touch, c.look_touch, c.jump_touch), (Some(1), Some(2), Some(3)));
    assert!(!r.pause && r.clicks == 0);
    // The thumb pushes up: forward.
    let pushed = Touch { id: 1, position: Spot { x: 100_000, y: 100_000 } };
    classify_touches(&[pushed, eye, jump], &[], &l, &mut c);
    assert_eq!(c.move_dir.x, 0);
    assert!(c.move_dir.z > 0);
    let mut inputs = vec![at(0, 0, 0)];
    apply_movement(&c, &mut inputs);
    assert!(inputs[0].z > 0 && inputs[0].y > 0);
    // Fingers that lift lose their roles.
    classify_touches(&[eye], &[], &l, &mut c);
    assert_eq!((c.move_touch, c.look_touch, c.jump_touch), (None, Some(2), None));
    let looked = apply_look(&c, &[Touch { id: 2, position: Spot { x: 5, y: 6 } }]);
    assert_eq!(looked, Some(Spot { x: 5, y: 6 }));
    assert_eq!(apply_look(&c, &[Touch { id: 9, position: Spot { x: 5, y: 6 } }]), None);
    // Grab clicks, the modifier latches, and pause lets go of everything.
    let grab = Touch { id: 4, position: l.grab };
    assert_eq!(classify_touches(&[eye, grab], &[grab], &l, &mut c).clicks, 1);
    let modify = Touch { id: 5, position: l.modify };
    classify_touches(&[eye, modify], &[modify], &l, &mut c);
    assert!(c.modify_on);
    let mut modifying = vec![false];
    apply_modify(&c, &mut modifying);
    assert_eq!(modifying, vec![true]);
    let pause = Touch { id: 6, position: l.pause };
    assert!(classify_touches(&[eye, pause], &[pause], &l, &mut c).pause);
    assert_eq!(c.look_touch, None);
    classify_touches(&[thumb], &[thumb], &l, &mut c);
    reset_controls(&mut c);
    assert_eq!((c.move_touch, c.look_touch, c.jump_touch), (None, None, None));
    // The latched modifier stays.
    assert!(c.modify_on);
}

#[test]
fn touch_is_noticed() {
    let mut active = MobileActive::default();
    detect_touch(0, &mut active);
    assert!(!mobile_active(&active));
    detect_touch(1, &mut active);
    assert!(mobile_active(&active));
    assert_eq!(start_game_on_touch(0), None);
    assert_eq!(start_game_on_touch(2), Some(AppState::InGame));
}

#[test]
fn the_overlay_shows_what_is_held() {
    let l = layout();
    let idle = draw_overlay(&l, &TouchControls::default());
    assert!(idle.joystick.is_none());
    assert!(!idle.jump.active && !idle.modify.active);
    assert_eq!(idle.jump.font_size, 42_000 * 62 / 100);
    let held = TouchControls {
        move_touch: Some(1),
        jump_touch: Some(2),
        modify_on: true,
        move_knob: Spot { x: 7, y: 8 },
        ..TouchControls::default()
    };
    let o = draw_overlay(&l, &held);
    let stick = o.joystick.expect("a joystick");
    assert_eq!((stick.knob, stick.knob_radius), (Spot { x: 7, y: 8 }, l.joystick_radius * 36 / 100));
    assert!(o.jump.active && o.modify.active && !o.grab.active);
    let labels = [o.jump.label, o.grab.label, o.modify.label, o.pause.label];
    let texts: Vec<&str> = labels.iter().map(|b: &ButtonLabel| b.text()).collect();
    assert_eq!(texts, vec!["JMP", "GRAB", "ROT", "II"]);
}

// ---- Piloting ------------------------------------------------------------------------

fn local(sp: SpPhase) -> LaunchLocal {
    LaunchLocal { banner: 0, sp, mp_banner: MpBanner::WaitingForPrelaunch }
}

#[test]
fn one_player_has_the_stick() {
    let orb = |pilot: u64| {
        Some(NetLaunch { remaining: 0, launched: true, pilot, steer: Stick { x: 0, y: 0 }, plan: 0 })
    };
    let mut c = AtTheControls::default();
    let mut s = PilotStick::default();
    take_the_controls(&mut c, true, &orb(5), Some(6), &local(SpPhase::Idle), &mut s);
    assert!(!piloting(&c));
    take_the_controls(&mut c, true, &orb(0), Some(0), &local(SpPhase::Idle), &mut s);
    assert!(!piloting(&c));
    take_the_controls(&mut c, true, &orb(5), Some(5), &local(SpPhase::Idle), &mut s);
    assert!(piloting(&c));
    read_pilot_stick(&c, Some(Stick { x: 300_000, y: 400_000 }), &mut s);
    assert_eq!(s.value, Stick { x: 300_000, y: 400_000 });
    // Handing the stick back centres it.
    take_the_controls(&mut c, true, &orb(9), Some(5), &local(SpPhase::Idle), &mut s);
    assert_eq!(s.value, Stick { x: 0, y: 0 });
    take_the_controls(&mut c, false, &None, None, &local(SpPhase::Launched), &mut s);
    assert!(piloting(&c));
}

#[test]
fn the_view_swings_and_drifts_home() {
    let mut look = PilotLook { yaw: 0, pitch: 0 };
    let c = AtTheControls(true);
    read_pilot_look(&mut look, &c, &at(10_000, 0, 0), &at(400_000, 5_000_000, 0), 0);
    assert_eq!((look.yaw, look.pitch), (400_000, MAX_LOOK_PITCH));
    read_pilot_look(&mut look, &c, &at(0, 0, 0), &at(9, 9, 0), 250_000);
    assert_eq!(look.yaw, 300_000);
    read_pilot_look(&mut look, &AtTheControls(false), &at(0, 0, 0), &at(0, 0, 0), 0);
    assert_eq!((look.yaw, look.pitch), (0, 0));
}

#[test]
fn the_camera_leaves_the_avatar_to_chase() {
    let on = AtTheControls(true);
    assert_eq!(mount_pilot_camera(&on, true, Some(true)), Mount::Detach);
    assert_eq!(mount_pilot_camera(&on, true, Some(false)), Mount::Keep);
    assert_eq!(mount_pilot_camera(&on, false, Some(false)), Mount::Attach);
    assert_eq!(mount_pilot_camera(&on, true, None), Mount::Keep);
    assert_eq!(chase_distance(1_000_000), 32_000_000);
    assert_eq!(chase_distance(10_000_000), 50_000_000);
    assert_eq!(chase_distance(100_000_000), 90_000_000);
}

fn snapshot() -> AutopilotSnapshot {
    AutopilotSnapshot {
        true_pos: at(0, 1_000_000_000, 0),
        frame_offset: at(0, 900_000_000, 0),
        true_vel: at(0, 0, 0),
        seed: 0,
        command_angle: 0,
        anchor: Some(Anchor { entity: 1, position: at(5, 0, 0) }),
        throttle: 0,
        drag: 0,
        net_thrust: 0,
        radius: 4_000_000,
    }
}

#[test]
fn the_chase_camera_sits_behind_and_above() {
    let frame = Basis { forward: at(0, 0, 1_000_000), up: at(0, 1_000_000, 0) };
    let straight = Heading { cos: 1_000_000, sin: 0 };
    let input = ChaseInput { frame, alpha: 500_000, yaw: straight, pitch: straight };
    let mut basis = None;
    let none = drive_pilot_camera(&AtTheControls(false), &Some(snapshot()), None, &input, &mut basis);
    assert!(none.is_none() && basis.is_none());
    let pose = drive_pilot_camera(&AtTheControls(true), &Some(snapshot()), None, &input, &mut basis)
        .expect("a pose");
    assert_eq!(basis, Some(frame));
    // 32 m away, 34 degrees above dead astern.
    let target = chase_target(&snapshot(), None);
    assert_eq!(target, at(0, 100_000_000, 0));
    let (y, z) = (pose.eye.y - target.y, pose.eye.z - target.z);
    assert!((y - 17_894_172).abs() < 100, "{y}");
    assert!((z + 26_529_202).abs() < 100, "{z}");
    assert_eq!(pose.up, frame.up);
    // The view is tilted up by 12 of the 34 degrees down: 22 below the horizon.
    assert!((pose.aim.y + 374_607).abs() < 100, "{}", pose.aim.y);
    // The drawn pose of the anchor moves the target along.
    let moved = chase_target(&snapshot(), Some(at(8, 0, 0)));
    assert_eq!(moved, at(3, 100_000_000, 0));
    let gone = drive_pilot_camera(&AtTheControls(true), &None, None, &input, &mut basis);
    assert!(gone.is_none() && basis.is_none());
}

#[test]
fn the_chase_camera_eases_after_a_turn() {
    let straight = Heading { cos: 1_000_000, sin: 0 };
    let north = Basis { forward: at(0, 0, 1_000_000), up: at(0, 1_000_000, 0) };
    let east = Basis { forward: at(1_000_000, 0, 0), up: at(0, 1_000_000, 0) };
    let input = ChaseInput { frame: east, alpha: 500_000, yaw: straight, pitch: straight };
    let mut basis = Some(north);
    drive_pilot_camera(&AtTheControls(true), &Some(snapshot()), None, &input, &mut basis);
    let b = basis.expect("a basis");
    assert!((b.forward.x - 707_107).abs() < 5 && (b.forward.z - 707_107).abs() < 5);
    assert_eq!(b.up, at(0, 1_000_000, 0));
}

// ---- Platforms -----------------------------------------------------------------------

#[test]
fn a_desktop_keeps_nothing() {
    native::install_panic_hook();
    native::store_name("me");
    native::store_avatar(3);
    assert_eq!(native::take_stored_panic(), None);
    assert_eq!((native::stored_name(), native::stored_avatar()), (None, None));
    assert_eq!(native::copy_to_clipboard("a=1"), "[movement settings]\na=1");
    let mut cursor = Some(native::Cursor { locked: false, visible: true });
    native::hide_cursor(&mut cursor);
    assert_eq!(cursor, Some(native::Cursor { locked: true, visible: false }));
    native::show_cursor(&mut cursor);
    assert_eq!(cursor, Some(native::Cursor { locked: false, visible: true }));
    let mut none = None;
    native::hide_cursor(&mut none);
    assert_eq!(none, None);
    assert_eq!(native::toggle_menu_on_key(true, AppState::InGame), Some(AppState::InGameMenu));
    assert_eq!(native::toggle_menu_on_key(true, AppState::Initial), None);
    assert_eq!(native::toggle_menu_on_key(false, AppState::InGame), None);
}

#[test]
fn a_page_follows_its_pointer() {
    let mut t = web::PointerLockTracker::new();
    assert_eq!(web::toggle_menu_on_pointer_lock(&t, AppState::InGame), Some(AppState::InGameMenu));
    t.pointer_lock_changed(true);
    assert!(t.get());
    assert_eq!(web::toggle_menu_on_pointer_lock(&t, AppState::InGame), None);
    assert_eq!(web::toggle_menu_on_pointer_lock(&t, AppState::InGameMenu), Some(AppState::InGame));
    assert!(web::hide_cursor(false, false) && !web::hide_cursor(true, false));
    assert!(!web::menu_follows_pointer(false, true));
}

#[test]
fn a_page_says_that_it_is_alive() {
    let (mut frames, mut done) = (0, false);
    assert!(!web::signal_game_ready(false, &mut frames, &mut done));
    assert!(!web::signal_game_ready(true, &mut frames, &mut done));
    assert!(!web::signal_game_ready(true, &mut frames, &mut done));
    assert!(web::signal_game_ready(true, &mut frames, &mut done));
    assert!(!web::signal_game_ready(true, &mut frames, &mut done));
    let mut beat = 41;
    assert_eq!(web::heartbeat(&mut beat), "42");
    beat = u32::MAX;
    assert_eq!(web::heartbeat(&mut beat), "0");
    let mut throttle = 100;
    assert!(!web::write_look_beacon(&mut throttle, 50, true));
    assert!(web::write_look_beacon(&mut throttle, 50, true));
    assert_eq!(throttle, web::LOOK_BEACON_EVERY);
}

#[test]
fn the_first_camera_goes_to_the_first_player() {
    let p = NewPlayer { player: 1, orbit_center: 2 };
    assert_eq!(add_camera_to_player(&[], &[p]), None);
    assert_eq!(add_camera_to_player(&[9], &[]), None);
    let mount = CameraMount { camera: 9, player: 1, orbit_center: 2 };
    assert_eq!(add_camera_to_player(&[9, 8], &[p]), Some(mount));
    assert_eq!(AppState::default(), AppState::Initial);
}
