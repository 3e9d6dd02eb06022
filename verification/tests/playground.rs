use bad_spaceship::buoyancy::hydro::Rotation;
use bad_spaceship::client::colour::Rgba;
use bad_spaceship::geom::{Long, Point};
use bad_spaceship::playground::character::{
    move_character_based_on_keyboard_input, rotate_character_based_on_mouse_input, touching_ground,
    ContactEvent, Touching, Walk,
};
use bad_spaceship::playground::environment::part::{
    focus, highlight_interactables, latest_focus, orient_held_part, position_held_part, refocus,
    InertiaRoot, replace_fallen_parts, spawn_part, spawn_parts, update_focused_interactables, Candidate,
    CriticallyDampedHarmonicOscillator, Onlooker, Part, TargetPosition, NUM_PARTS,
};
use bad_spaceship::playground::multiplayer::server::{
    broadcast_game_state, handle_messages, Received,
};
use bad_spaceship::playground::multiplayer::types::{
    ClientMessage, Direction, Matrix, NetworkBroadcast, SerializablePlayer, SERVER_PORT,
};
use bad_spaceship::playground::multiplayer::{client, network_setup, server};
use bad_spaceship::playground::player::{
    get_zoom_delta, initiate_holding, native, orbit, process_keyboard_events, process_mouse_events,
    respawn, web, Config, FocusedInteractable, HoldChange, Holding, Hung, Keys, View3d,
    KeyboardDirectionalInput, MAX_CAMERA_PITCH, MIN_CAMERA_PITCH, TAU,
};
use bad_spaceship::playground::ui::menu_state::{hide_cursor, toggle_menu_state, MenuState};
use bad_spaceship::playground::ui::{
    button_interaction, close_menu_on_key, label_of, menu_state, open_menu_on_key, resume, spawn_menu,
    update_diagnostics_text, ButtonMaterials, Interaction, Selection, Touched,
};
use bad_spaceship::playground::utils::{parse_args, parse_args_in_browser, TransformExt};
use bad_spaceship::playground::{character, environment, player, ui, AppState, APP_STATE};

const METRE: i64 = 1_000_000;

fn at(x: i64, y: i64, z: i64) -> Point {
    Point { x, y, z }
}

fn upright() -> Rotation {
    Rotation {
        x_axis: at(1_000_000, 0, 0),
        y_axis: at(0, 1_000_000, 0),
        z_axis: at(0, 0, 1_000_000),
    }
}

fn walk() -> Walk {
    Walk {
        keyboard: at(0, 0, 0),
        gamepad: at(0, 0, 0),
        rotation: upright(),
        velocity: at(0, 0, 0),
        mass: 1_000,
        move_speed: 5 * METRE,
        jump_force: 4 * METRE,
        touching: true,
    }
}

#[test]
fn contacts_are_a_set() {
    let mut t = Touching::default();
    assert!(!t.touching());
    touching_ground(
        &mut t,
        1,
        &[
            ContactEvent::Started(1, 7),
            ContactEvent::Started(8, 1),
            ContactEvent::Started(7, 1),
            ContactEvent::Started(2, 3),
        ],
    );
    assert_eq!(t.list(), &[7, 8]);
    assert_eq!(t.index(8), Some(1));
    assert_eq!(t.index(3), None);
    touching_ground(&mut t, 1, &[ContactEvent::Stopped(7, 1), ContactEvent::Stopped(1, 9)]);
    assert_eq!(t.list(), &[8]);
    assert!(t.touching());
}

#[test]
fn parting_undoes_meeting() {
    let mut t = Touching::default();
    touching_ground(&mut t, 1, &[ContactEvent::Started(1, 2)]);
    touching_ground(&mut t, 1, &[ContactEvent::Started(1, 3), ContactEvent::Stopped(1, 3)]);
    assert_eq!(t.list(), &[2]);
}

#[test]
fn a_key_pushes_towards_the_wanted_speed() {
    let ahead = move_character_based_on_keyboard_input(&Walk {
        keyboard: at(0, 0, 1_000_000),
        ..walk()
    });
    // 1 kg times 5 m/s times 0.13.
    assert_eq!(ahead.horizontal, Long { x: 0, y: 0, z: 650_000_000 });
    assert_eq!(ahead.vertical, Some(Long { x: 0, y: 0, z: 0 }));
    let in_the_air = move_character_based_on_keyboard_input(&Walk {
        keyboard: at(0, 0, 1_000_000),
        touching: false,
        ..walk()
    });
    assert_eq!(in_the_air.horizontal.z, 84_500_000);
    assert_eq!(in_the_air.vertical, None);
    // Keys and stick together ask for no more than either.
    let both = move_character_based_on_keyboard_input(&Walk {
        keyboard: at(0, 0, 1_000_000),
        gamepad: at(0, 0, 1_000_000),
        ..walk()
    });
    assert_eq!(both.horizontal, ahead.horizontal);
    // Right is against the body's own x axis.
    let right = move_character_based_on_keyboard_input(&Walk {
        keyboard: at(1_000_000, 0, 0),
        ..walk()
    });
    assert_eq!(right.horizontal.x, -650_000_000);
}

#[test]
fn no_key_stops_the_walk() {
    let i = move_character_based_on_keyboard_input(&Walk {
        velocity: at(2 * METRE, 3 * METRE, -METRE),
        ..walk()
    });
    assert_eq!(i.horizontal, Long { x: -260_000_000, y: 0, z: 130_000_000 });
    assert_eq!(i.vertical, Some(Long { x: 0, y: 0, z: 0 }));
}

#[test]
fn a_jump_makes_up_for_what_is_missing() {
    let i = move_character_based_on_keyboard_input(&Walk {
        keyboard: at(0, 1_000_000, 0),
        velocity: at(0, METRE, 0),
        ..walk()
    });
    assert_eq!(i.vertical, Some(Long { x: 0, y: 3_000_000_000, z: 0 }));
    assert_eq!(rotate_character_based_on_mouse_input(5), -5);
    let c = character::spawn(1_500_000, 5 * METRE, 4 * METRE);
    assert_eq!((c.translation, c.ball_radius), (at(0, 10 * METRE, 0), 750_000));
}

#[test]
fn parts_fall_above_the_inner_platform() {
    let parts = spawn_parts();
    assert_eq!(parts.len(), NUM_PARTS);
    for _ in 0..100 {
        let p = spawn_part();
        assert!(p.x.abs() <= 17_500_000 && p.z.abs() <= 17_500_000);
        assert!(p.y >= 5 * METRE && p.y <= 15 * METRE);
    }
    // They do not all fall in one place.
    let first = spawn_part();
    assert!((0..50).any(|_| spawn_part() != first));
}

#[test]
fn lost_parts_are_replaced() {
    let parts = vec![
        Part { entity: 1, translation: at(0, -10 * METRE, 0) },
        Part { entity: 2, translation: at(0, -10 * METRE - 1, 0) },
        Part { entity: 3, translation: at(0, 0, 0) },
        Part { entity: 4, translation: at(0, -50 * METRE, 0) },
    ];
    let (gone, fresh) = replace_fallen_parts(&parts);
    assert_eq!(gone, vec![2, 4]);
    assert_eq!(fresh.len(), 2);
}

#[test]
fn the_closest_to_the_line_of_sight_is_looked_at() {
    let eye = at(0, 0, 0);
    let near = |entity: u64, angle: u64| Candidate { entity, translation: at(0, 0, METRE), angle };
    let far = Candidate { entity: 9, translation: at(0, 0, 7_500_000), angle: 0 };
    assert_eq!(focus(&eye, &[far]), None);
    assert_eq!(focus(&eye, &[near(1, 349_066)]), None);
    assert_eq!(focus(&eye, &[near(1, 300), near(2, 200), near(3, 200), far]), Some(2));
    assert_eq!(latest_focus(&[Some(1), None]), Some(1));
    assert_eq!(latest_focus(&[Some(1), Some(2)]), Some(2));
    assert_eq!(latest_focus(&[]), None);
}

fn focused(current: Option<u64>) -> FocusedInteractable {
    FocusedInteractable { current, ..FocusedInteractable::default() }
}

#[test]
fn a_moved_focus_remembers_the_last_one() {
    let mut f = focused(None);
    refocus(&mut f, Some(1));
    assert_eq!((f.current, f.previous), (Some(1), None));
    refocus(&mut f, Some(1));
    assert_eq!((f.current, f.previous), (Some(1), None));
    refocus(&mut f, Some(2));
    assert_eq!((f.current, f.previous), (Some(2), Some(1)));
    refocus(&mut f, None);
    assert_eq!((f.current, f.previous), (None, Some(2)));
    refocus(&mut f, None);
    assert_eq!((f.current, f.previous), (None, Some(2)));
}

#[test]
fn a_holder_keeps_looking_and_the_others_look_around() {
    let player = |holding: bool| Onlooker { focused: focused(None), holding, new_focus: Some(5) };
    let mut players = vec![player(false), player(true), player(false)];
    update_focused_interactables(&mut players);
    let seen: Vec<Option<u64>> = players.iter().map(|p| p.focused.current).collect();
    assert_eq!(seen, vec![Some(5), None, Some(5)]);
}

#[test]
fn a_highlight_is_given_back() {
    let dull = Rgba { r: 100_000, g: 400_000, b: 300_000, a: 1_000_000 };
    let mut f = focused(Some(1));
    let (mut none, mut one) = (None, Some(dull));
    highlight_interactables(&mut f, &mut none, &mut one);
    assert_eq!(one, Some(Rgba { r: 850_000, g: 1_000_000, b: 300_000, a: 1_000_000 }));
    refocus(&mut f, None);
    let mut gone = None;
    highlight_interactables(&mut f, &mut one, &mut gone);
    assert_eq!(one, Some(dull));
}

#[test]
fn a_held_part_is_drawn_to_its_place() {
    let o = CriticallyDampedHarmonicOscillator::new(30_000_000);
    // Twice the root of thirty.
    assert_eq!(o.damping, 10_954_450);
    let a = o.calculate_acceleration(&at(METRE, 0, 0), &at(0, METRE, 0));
    assert_eq!(a, Long { x: 30_000_000, y: -10_954_450, z: 0 });
    let t = TargetPosition::new(4);
    assert_eq!(t.hold_point, 4);
    let g = at(0, -9_810_000, 0);
    let still = position_held_part(&t, &at(0, 0, 0), &at(0, 0, 0), &at(0, 0, 0), 2_000, &g);
    assert_eq!(still, Long { x: 0, y: 19_620_000_000, z: 0 });
    let sphere = InertiaRoot { m11: 2_000_000, m12: 0, m13: 0, m22: 2_000_000, m23: 0, m33: 2_000_000 };
    // Five times a radian, times the square of two.
    let turn = orient_held_part(&at(METRE, 0, 0), &at(0, 0, 0), &sphere);
    assert_eq!(turn, Long { x: 20_000_000, y: 0, z: 0 });
    let skew = InertiaRoot { m12: 1_000_000, ..sphere };
    let turn = orient_held_part(&at(METRE, 0, 0), &at(0, 0, 0), &skew);
    assert_eq!(turn, Long { x: 25_000_000, y: 20_000_000, z: 0 });
}

#[test]
fn opposite_keys_cancel_out() {
    let none = Keys { w: false, s: false, d: false, a: false, space: false };
    assert_eq!(process_keyboard_events(&none), KeyboardDirectionalInput::default());
    let all = Keys { w: true, s: true, d: true, a: true, space: true };
    assert_eq!(process_keyboard_events(&all).0, at(0, 1_000_000, 0));
    let wd = Keys { w: true, d: true, ..none };
    assert_eq!(process_keyboard_events(&wd).0, at(707_106, 0, 707_106));
    let sa = Keys { s: true, a: true, ..none };
    assert_eq!(process_keyboard_events(&sa).0, at(-707_106, 0, -707_106));
}

fn config() -> Config {
    Config {
        zoom_sensitivity: METRE,
        look_sensitivity: 1_000_000,
        min_camera_distance: 5 * METRE,
        max_camera_distance: 40 * METRE,
        camera_offset_character_size_ratio: at(0, 2_000_000, 0),
    }
}

#[test]
fn the_mouse_turns_the_view() {
    let view = View3d { yaw: 6_000_000, pitch: 0, distance: 20 * METRE };
    // One unit for half a second.
    let v = process_mouse_events(&view, 1_000, 1_000, None, 500_000_000, &config());
    assert_eq!((v.yaw, v.pitch, v.distance), (6_500_000 - TAU, 500_000, 20 * METRE));
    let up = process_mouse_events(&view, 0, 1_000_000, Some(1_000), 1_000_000_000, &config());
    assert_eq!((up.pitch, up.distance), (MAX_CAMERA_PITCH, 19 * METRE));
    let down = process_mouse_events(&view, -7_000_000, -1_000_000, Some(-1_000_000), 1_000_000_000, &config());
    assert_eq!((down.pitch, down.distance), (MIN_CAMERA_PITCH, 40 * METRE));
    assert!(down.yaw <= 0 && down.yaw > -TAU);
}

#[test]
fn the_orbiting_view_pitches_the_other_way() {
    let view = orbit::first_view();
    let v = orbit::process_mouse_events(&view, 0, 100, 0, 1_000_000_000, &config());
    assert_eq!(v.pitch, 423_599);
    let low = orbit::process_mouse_events(&view, 0, 1_000_000, 0, 1_000_000_000, &config());
    assert_eq!(low.pitch, 17_453);
    assert_eq!(orbit::update_camera(20 * METRE, 600_000, 800_000), at(0, 12 * METRE, -16 * METRE));
    let mut t = orbit::WasmMouseTracker::new();
    t.on_move(3, -4);
    t.on_move(2, 1);
    assert_eq!(t.get_delta_and_reset(), (5, -3));
    assert_eq!(t.get_delta_and_reset(), (0, 0));
    t.on_move(i32::MAX, 0);
    t.on_move(1, 0);
    assert_eq!(t.get_delta_and_reset().0, i32::MIN);
}

#[test]
fn a_lost_player_starts_again_with_its_camera() {
    let hung = vec![
        Hung { entity: 1, is_camera: true },
        Hung { entity: 2, is_camera: true },
        Hung { entity: 3, is_camera: false },
    ];
    assert_eq!(respawn(-30 * METRE, &hung), None);
    assert_eq!(respawn(-30 * METRE - 1, &hung), Some(2));
    let p = player::spawn(&config(), 1_500_000, Some(2));
    assert_eq!(p.camera_orbit_center.translation, at(0, 3 * METRE, 0));
    assert_eq!(p.hold_point.translation, at(0, 0, 5 * METRE));
    assert_eq!(p.player.camera.entity, Some(2));
    assert_eq!(player::setup(), at(0, 0, -20 * METRE));
}

#[test]
fn the_last_event_counts() {
    assert_eq!(get_zoom_delta(&[]), None);
    assert_eq!(get_zoom_delta(&[3, -7]), Some(-7));
    assert_eq!(native::get_look(&[]), (0, 0));
    assert_eq!(native::get_look(&[(1, 2), (3, 4)]), (3, 4));
    assert_eq!(native::process_mouse_clicks(true), Some(native::MouseButton::Left));
    assert_eq!(native::process_mouse_clicks(false), None);
}

#[test]
fn a_browser_keeps_the_last_motion_and_one_click() {
    let mut t = web::WasmMouseMovementTracker::new();
    t.on_move(5, 6);
    t.on_move(10, -20);
    assert_eq!(web::get_look(&mut t), (1_500, -3_000));
    assert_eq!(web::get_look(&mut t), (0, 0));
    let mut c = web::WasmMouseClickTracker::new();
    c.on_mouse_down(2);
    assert!(!c.just_pressed());
    c.on_mouse_down(0);
    c.on_mouse_down(1);
    assert!(c.just_pressed());
    assert!(!c.just_pressed());
    let mut h = Holding(false);
    c.on_mouse_down(0);
    web::process_mouse_clicks(&mut c, &mut h, &focused(Some(1)));
    assert!(h.0);
    c.on_mouse_down(0);
    web::process_mouse_clicks(&mut c, &mut h, &focused(None));
    assert!(h.0);
}

#[test]
fn a_click_takes_and_lets_go() {
    let mut h = Holding::default();
    assert_eq!(initiate_holding(false, &mut h, &focused(Some(3)), true), HoldChange::Keep);
    assert_eq!(initiate_holding(true, &mut h, &focused(None), true), HoldChange::Keep);
    assert_eq!(initiate_holding(true, &mut h, &focused(Some(3)), false), HoldChange::Keep);
    assert_eq!(initiate_holding(true, &mut h, &focused(Some(3)), true), HoldChange::Take(3));
    assert!(h.0);
    assert_eq!(initiate_holding(true, &mut h, &focused(Some(3)), true), HoldChange::Release(3));
    assert!(!h.0);
}

#[test]
fn buttons_answer_to_the_pointer() {
    let m = ButtonMaterials::default();
    let t = |selection, interaction| Touched { selection, interaction };
    let (colours, chosen) = button_interaction(
        &m,
        &[
            t(Selection::Options, Interaction::Hovered),
            t(Selection::Resume, Interaction::Clicked),
            t(Selection::Multiplayer, Interaction::Idle),
        ],
    );
    assert_eq!(colours, vec![m.hovered, m.pressed, m.normal]);
    assert_eq!(chosen, vec![Selection::Resume]);
    assert_eq!(resume(&chosen), Some(AppState::InGame));
    assert_eq!(resume(&[Selection::Options]), None);
    assert_eq!(m.pressed.g, 350_000);
    assert_eq!(menu_state::button_materials().pressed.g, 750_000);
}

#[test]
fn the_menu_is_stacked() {
    let config = ui::Config {
        menu_button_height: 65_000,
        menu_button_width: 150_000,
        menu_button_spacing: 10_000,
    };
    let menu = spawn_menu(&config);
    assert_eq!((menu.width, menu.height), (150_000, 215_000));
    let tops: Vec<u64> = menu.buttons.iter().map(|b| b.top).collect();
    assert_eq!(tops, vec![0, 75_000, 150_000]);
    let labels: Vec<String> = menu.buttons.iter().map(|b| label_of(b.selection)).collect();
    assert_eq!(labels, vec!["Multiplayer", "Options", "Resume"]);
    // The last button ends where the menu does.
    assert_eq!(tops[2] + config.menu_button_height, menu.height);
}

#[test]
fn escape_opens_and_closes() {
    assert_eq!(open_menu_on_key(true), Some(AppState::InGameMenu));
    assert_eq!(open_menu_on_key(false), None);
    assert_eq!(close_menu_on_key(true), Some(AppState::InGame));
    assert_eq!(close_menu_on_key(false), None);
    let mut s = MenuState::default();
    assert!(hide_cursor(s).locked);
    toggle_menu_state(true, &mut s);
    assert_eq!(s, MenuState::Open);
    assert!(hide_cursor(s).visible);
    toggle_menu_state(false, &mut s);
    toggle_menu_state(true, &mut s);
    assert_eq!(s, MenuState::Closed);
    assert_eq!(ui::native::show_cursor(), ui::native::Cursor { locked: false, visible: true });
    assert_eq!(ui::native::hide_cursor(), ui::native::Cursor { locked: true, visible: false });
}

#[test]
fn the_frame_rate_is_shown() {
    assert_eq!(update_diagnostics_text(None), "0 FPS");
    assert_eq!(update_diagnostics_text(Some(144)), "144 FPS");
}

#[test]
fn the_page_has_the_pointer_or_not() {
    let mut t = ui::web::WasmPointerLockTracker::new();
    assert!(!t.get());
    assert_eq!(ui::web::open_menu_if_unlocked(&t), Some(AppState::InGameMenu));
    t.on_lock_change(ui::web::LockElement::Body);
    t.on_lock_change(ui::web::LockElement::Other);
    assert!(t.get());
    assert_eq!(ui::web::close_menu_if_locked(&t), Some(AppState::InGame));
    assert_eq!(ui::web::open_menu_if_unlocked(&t), None);
    t.on_lock_change(ui::web::LockElement::Nothing);
    assert_eq!(ui::web::close_menu_if_locked(&t), None);
}

#[test]
fn the_server_keeps_what_each_client_said() {
    let here = Matrix::identity();
    let mut there = here;
    there.w_axis.x = 5_000_000;
    let mut players = Vec::new();
    let said = |handle: u32, id: u32, transform: Matrix| Received {
        handle,
        player: SerializablePlayer { id, transform },
    };
    handle_messages(&mut players, &[said(4, 0, here), said(6, 0, here)]);
    let ids: Vec<u32> = players.iter().map(|p: &SerializablePlayer| p.id).collect();
    assert_eq!(ids, vec![4, 6]);
    handle_messages(&mut players, &[said(4, 0, there)]);
    assert_eq!(players[0], SerializablePlayer { id: 0, transform: there });
    let mut state = NetworkBroadcast::default();
    let m = broadcast_game_state(&mut state, &players);
    assert_eq!((m.frame, state.frame, m.players.len()), (0, 1, 2));
    assert_eq!(server::spawn(), SerializablePlayer { id: 0, transform: here });
    assert_eq!(client::ball_control_system(there), SerializablePlayer { id: 0, transform: there });
    let (a, b) = network_setup();
    assert_eq!((a.channel, b.channel, b.reliable, b.packet_buffer_size), (0, 1, false, 60));
    assert_eq!(SERVER_PORT, 14192);
    let hello = ClientMessage::Hello("me".to_string());
    assert!(matches!(hello, ClientMessage::Hello(name) if name == "me"));
    assert_ne!(Direction::Left, Direction::Right);
}

#[test]
fn the_server_is_asked_for() {
    let args = |list: &[&str]| -> Vec<String> { list.iter().map(|s| s.to_string()).collect() };
    assert!(!parse_args(&args(&["game"])).is_server);
    assert!(parse_args(&args(&["game", "--server"])).is_server);
    assert!(parse_args(&args(&["game", "x", "-s"])).is_server);
    assert!(!parse_args(&args(&["game", "--servers", "-S", ""])).is_server);
    assert!(!parse_args_in_browser(&args(&["game", "--server", "-s"])).is_server);
    assert_eq!(APP_STATE, "app_state");
    assert_eq!((upright().right(), upright().up()), (at(1_000_000, 0, 0), at(0, 1_000_000, 0)));
}

#[test]
fn the_platforms_have_their_measures() {
    assert_eq!(bad_spaceship::playground::map::add_platform(), at(25 * METRE, 50_000, 25 * METRE));
    assert_eq!(bad_spaceship::playground::map::add_lighting(), at(0, 8 * METRE, 0));
    let p = environment::map::add_platform();
    assert_eq!(p.half_sides, at(25 * METRE, 500_000, 25 * METRE));
    assert_eq!(p.camera, at(100 * METRE, 100 * METRE, 100 * METRE));
    assert_eq!(environment::map::add_lighting(), at(0, 8 * METRE, 0));
}
