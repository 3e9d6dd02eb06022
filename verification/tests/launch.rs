use bad_spaceship::client::launch::bodies::{
    apply_mp_gravity, ease_launch_zoom, sample_felt_up, Avatar, FeltSample,
};
use bad_spaceship::client::launch::rebase::{
    apply_rebase, predict_room_rebase, predicted_frame_at, tick_diff, Body, NetRoomFrame,
    PredictedRebase, RebaseOutcome,
};
use bad_spaceship::client::launch::thrust::{
    apply_mp_thrust, apply_sp_thrust, apply_thrust, clamp_to_full, finish_burn, flame_target,
    gather_burn, reset_flame_targets, spread, stick, AutopilotSnapshot, Flown, Gate, Member, Rider,
    RocketBurn, ThrustLatch,
};
use bad_spaceship::client::launch::ui::{
    character_touches_assembly, countdown_word, press_launch, press_lock, show_launch_ui,
    sp_apply_lock, Contact, LockButton, LockChange, Press, RoomView, BANNER_Y_FLIGHT, BANNER_Y_IDLE,
    LOCK_BUTTON_Y_IDLE,
};
use bad_spaceship::client::launch::{
    autolaunch, autolock_rider, cut_ground_joints, launch_armed, lock_out_building_in_flight,
    net_launched, release_predicted_ground_joints, room_launched, tick_launch, LaunchLocal, MpBanner,
    NetLaunch, OneShot, SpPhase, Stick, BLASTOFF_BANNER, LAUNCH_COUNTDOWN, SECOND,
};
use bad_spaceship::client::render_secondary_pass::assembly::Joint;
use bad_spaceship::geom::Point;

fn local(sp: SpPhase) -> LaunchLocal {
    LaunchLocal { banner: 0, sp, mp_banner: MpBanner::WaitingForPrelaunch }
}

fn orb(launched: bool, remaining: u64, pilot: u64) -> Option<NetLaunch> {
    Some(NetLaunch { remaining, launched, pilot, steer: Stick { x: 0, y: 0 }, plan: 0 })
}

fn at(x: i64, y: i64, z: i64) -> Point {
    Point { x, y, z }
}

/// Runs the lockout once for a single player in this phase: whether the build modifier
/// survived, and whether building is locked out.
fn build_state(phase: SpPhase) -> (bool, bool) {
    let mut locked_out = false;
    let mut modifiers = vec![true];
    lock_out_building_in_flight(&local(phase), false, &None, &mut locked_out, &mut modifiers);
    (modifiers[0], locked_out)
}

#[test]
fn building_is_yours_on_the_pad_and_locked_out_in_flight() {
    assert_eq!(build_state(SpPhase::Idle), (true, false));
    assert_eq!(build_state(SpPhase::Countdown { remaining: 1_500_000_000 }), (true, false));
    assert_eq!(build_state(SpPhase::Launched), (false, true));
}

#[test]
fn a_room_flies_by_its_own_state() {
    assert!(!room_launched(&local(SpPhase::Launched), true, &None));
    assert!(room_launched(&local(SpPhase::Idle), true, &orb(true, 0, 1)));
    assert!(room_launched(&local(SpPhase::Launched), false, &None));
    assert!(net_launched(&orb(true, 0, 0)) && !net_launched(&orb(false, 5, 0)) && !net_launched(&None));
    assert!(launch_armed(&local(SpPhase::Idle), &orb(false, 5, 0)));
    assert!(!launch_armed(&local(SpPhase::Idle), &orb(false, 0, 0)));
}

#[test]
fn the_countdown_lifts_off_on_time_and_frees_the_assembly() {
    let joints = vec![
        Joint { entity: 100, body1: 1, body2: 2 },
        Joint { entity: 101, body1: 2, body2: 9 },
    ];
    let parts = vec![1u64, 2];
    let mut l = local(SpPhase::Countdown { remaining: LAUNCH_COUNTDOWN });
    for _ in 0..2 {
        assert!(tick_launch(&mut l, SECOND, false, &None, &joints, &parts).is_empty());
    }
    assert!(matches!(l.sp, SpPhase::Countdown { remaining } if remaining == SECOND));
    let cut = tick_launch(&mut l, SECOND, false, &None, &joints, &parts);
    assert_eq!(l.sp, SpPhase::Launched);
    assert_eq!(l.banner, BLASTOFF_BANNER);
    assert_eq!(cut, cut_ground_joints(&joints, &parts));
    assert_eq!(cut, vec![101]);
}

#[test]
fn the_banner_needs_a_prelaunch_and_comes_once() {
    // Joining a room in flight shows nothing.
    let mut l = local(SpPhase::Idle);
    tick_launch(&mut l, 1, true, &orb(true, 0, 1), &[], &[]);
    assert_eq!(l.banner, 0);
    // A witnessed launch shows it once.
    let mut l = local(SpPhase::Idle);
    tick_launch(&mut l, 1, true, &orb(false, 5, 0), &[], &[]);
    tick_launch(&mut l, 1, true, &orb(true, 0, 1), &[], &[]);
    assert_eq!(l.banner, BLASTOFF_BANNER);
    for _ in 0..3 {
        tick_launch(&mut l, BLASTOFF_BANNER, true, &orb(true, 0, 1), &[], &[]);
    }
    assert_eq!(l.banner, 0);
}

#[test]
fn ground_clamps_are_released_once_it_fires() {
    let joints = vec![
        Joint { entity: 10, body1: 5, body2: 1 },
        Joint { entity: 11, body1: 1, body2: 2 },
        Joint { entity: 12, body1: 2, body2: 5 },
    ];
    assert_eq!(release_predicted_ground_joints(Some(true), &joints, 5), vec![10, 12]);
    assert!(release_predicted_ground_joints(Some(false), &joints, 5).is_empty());
    assert!(release_predicted_ground_joints(None, &joints, 5).is_empty());
}

#[test]
fn automatic_requests_go_out_once() {
    let mut shot = OneShot { elapsed: 0, sent: false };
    assert!(!autolock_rider(&mut shot, false, 100 * SECOND, true));
    let mut shot = OneShot { elapsed: 0, sent: false };
    assert!(!autolock_rider(&mut shot, true, SECOND, true));
    assert!(!autolock_rider(&mut shot, true, 10 * SECOND, false));
    assert!(autolock_rider(&mut shot, true, SECOND, true));
    assert!(!autolock_rider(&mut shot, true, SECOND, true));
    let mut shot = OneShot { elapsed: 0, sent: false };
    assert!(!autolaunch(&mut shot, None, 100 * SECOND, true));
    let mut shot = OneShot { elapsed: 0, sent: false };
    assert!(!autolaunch(&mut shot, Some(2 * SECOND), SECOND, true));
    assert!(autolaunch(&mut shot, Some(2 * SECOND), 2 * SECOND, true));
}

// ---- The panel -----------------------------------------------------------------------

#[test]
fn the_countdown_is_read_out() {
    assert_eq!(countdown_word(3_000_000_000), "3");
    assert_eq!(countdown_word(2_000_000_001), "3");
    assert_eq!(countdown_word(2_000_000_000), "2");
    assert_eq!(countdown_word(1), "1");
    assert_eq!(countdown_word(0), "1");
}

fn view() -> RoomView {
    RoomView {
        multiplayer: false,
        orb: None,
        my_id: None,
        character: Some(1),
        contacts: vec![Contact { collider1: 1, collider2: 50, touching: true }],
        members: vec![50, 51],
        assembly_ids: Vec::new(),
        players: Vec::new(),
        net_welds: Vec::new(),
        sp_welds: Vec::new(),
    }
}

#[test]
fn the_character_touches_what_it_stands_on() {
    let c = Contact { collider1: 50, collider2: 1, touching: true };
    assert!(character_touches_assembly(Some(1), &[c], &[50]));
    assert!(!character_touches_assembly(Some(1), &[c], &[51]));
    assert!(!character_touches_assembly(None, &[c], &[50]));
    let parted = Contact { touching: false, ..c };
    assert!(!character_touches_assembly(Some(1), &[parted], &[50]));
}

#[test]
fn the_panel_offers_lock_and_launch_on_the_assembly() {
    let ui = show_launch_ui(&local(SpPhase::Idle), &view());
    assert!(ui.banner.is_none());
    assert_eq!(ui.banner_y, BANNER_Y_IDLE);
    let lock = ui.lock.expect("a lock button");
    assert_eq!(lock.y, LOCK_BUTTON_Y_IDLE);
    let mut away = view();
    away.contacts.clear();
    let ui = show_launch_ui(&local(SpPhase::Idle), &away);
    assert!(ui.lock.is_none());
    assert!(!ui.launch);
}

#[test]
fn a_countdown_is_on_the_banner() {
    let ui = show_launch_ui(&local(SpPhase::Countdown { remaining: 2_500_000_000 }), &view());
    assert_eq!(ui.banner.as_deref(), Some("3"));
    assert!(!ui.launch);
    let flying = show_launch_ui(
        &LaunchLocal { banner: 1, ..local(SpPhase::Launched) },
        &view(),
    );
    assert_eq!(flying.banner_y, BANNER_Y_FLIGHT);
    assert!(flying.banner.is_some());
}

#[test]
fn presses_go_where_the_game_runs() {
    let lock = LockButton { lock: true, y: 0 };
    assert!(matches!(press_lock(&lock, true, true), Press::SendLock(true)));
    assert!(matches!(press_lock(&lock, true, false), Press::Nothing));
    assert!(matches!(press_lock(&lock, false, false), Press::ApplyLock(true)));
    let mut l = local(SpPhase::Idle);
    assert!(matches!(press_launch(&mut l, true, true), Press::SendLaunch));
    assert_eq!(l.sp, SpPhase::Idle);
    assert!(matches!(press_launch(&mut l, false, false), Press::Nothing));
    assert_eq!(l.sp, SpPhase::Countdown { remaining: LAUNCH_COUNTDOWN });
}

#[test]
fn a_lock_welds_and_unwelds() {
    let weld = Joint { entity: 70, body1: 1, body2: 50 };
    assert!(matches!(sp_apply_lock(&[true], Some(1), &[]), LockChange::Weld(1)));
    assert!(matches!(sp_apply_lock(&[false], Some(1), &[weld]), LockChange::Dissolve(_)));
    assert!(matches!(sp_apply_lock(&[], Some(1), &[weld]), LockChange::Keep));
    assert!(matches!(sp_apply_lock(&[true], None, &[]), LockChange::Keep));
}

// ---- The room's frame ----------------------------------------------------------------

#[test]
fn ticks_wrap() {
    assert_eq!(tick_diff(5, 3), 2);
    assert_eq!(tick_diff(1, u32::MAX), 2);
    assert_eq!(tick_diff(3, 5), -2);
}

#[test]
fn a_predicted_rebase_holds_until_it_is_confirmed() {
    let net = NetRoomFrame { offset: at(0, 0, 0), velocity: at(0, 0, 0), tick: 10 };
    let mut rebase = PredictedRebase(None);
    assert_eq!(predicted_frame_at(None, &rebase, 11), None);
    assert_eq!(predicted_frame_at(Some(net), &rebase, 10).expect("a frame").offset, at(0, 0, 0));
    let question = predict_room_rebase(&mut rebase, Some(net), 12, &[true, false, true]).expect("asked");
    assert_eq!(question.members, vec![0, 2]);
    let outcome = RebaseOutcome {
        dpos: at(5, 0, 0),
        dvel: at(0, 1, 0),
        offset: at(5, 0, 0),
        velocity: at(0, 1, 0),
    };
    let mut bodies = vec![Body { position: at(7, 0, 0), velocity: at(0, 3, 0) }];
    apply_rebase(&mut rebase, &outcome, 12, &mut bodies);
    assert_eq!(bodies[0], Body { position: at(2, 0, 0), velocity: at(0, 2, 0) });
    let held = rebase.0.expect("a predicted frame");
    assert_eq!((held.offset, held.velocity, held.tick), (at(5, 0, 0), at(0, 1, 0), 12));
    // A frame of the server's that is as new takes over.
    let newer = NetRoomFrame { offset: at(9, 0, 0), velocity: at(0, 0, 0), tick: 12 };
    assert_eq!(predicted_frame_at(Some(newer), &rebase, 12).expect("a frame").offset, at(5, 0, 0));
    predict_room_rebase(&mut rebase, Some(newer), 13, &[true]);
    assert_eq!(rebase.0, None);
    assert_eq!(predicted_frame_at(Some(newer), &rebase, 13).expect("a frame").offset, at(9, 0, 0));
}

// ---- Thrust --------------------------------------------------------------------------

fn snapshot() -> AutopilotSnapshot {
    AutopilotSnapshot {
        true_pos: at(0, 0, 0),
        frame_offset: at(0, 0, 0),
        true_vel: at(0, 0, 0),
        seed: 3,
        command_angle: 0,
        anchor: None,
        throttle: 0,
        drag: 0,
        net_thrust: 0,
        radius: 0,
    }
}

fn latch() -> ThrustLatch {
    ThrustLatch { fuel: 0, plan: None, cut: false, apparent: None, autopilot: None }
}

#[test]
fn a_burn_plans_once_and_rests_on_the_pad() {
    let mut l = latch();
    assert!(matches!(apply_sp_thrust(&mut l, &local(SpPhase::Idle), true, true), Gate::Rest));
    assert!(matches!(
        apply_sp_thrust(&mut l, &local(SpPhase::Launched), true, true),
        Gate::Fly { plan: true }
    ));
    let flown = Flown {
        plan: 3,
        cut: false,
        fuel: 12,
        mass: 100,
        apparent: at(0, 1_000_000, 0),
        snapshot: snapshot(),
    };
    finish_burn(&mut l, &flown);
    assert_eq!(l.plan, Some(3));
    assert!(l.autopilot.is_some());
    assert!(matches!(
        apply_sp_thrust(&mut l, &local(SpPhase::Launched), true, true),
        Gate::Fly { plan: false }
    ));
    let mut m = latch();
    assert!(matches!(apply_mp_thrust(&mut m, &orb(true, 0, 1), false), Gate::Rest));
    assert!(matches!(apply_mp_thrust(&mut m, &orb(true, 0, 1), true), Gate::Fly { plan: true }));
    assert!(matches!(apply_mp_thrust(&mut m, &orb(true, 0, 1), true), Gate::Fly { plan: false }));
    assert!(matches!(apply_mp_thrust(&mut m, &None, true), Gate::Rest));
    assert_eq!(m.plan, None);
}

fn member(id: u64, mass: u32, rocket: bool) -> Member {
    Member {
        entity: 1000 + id,
        id,
        position: at(id as i64 * 1_000_000, 0, 0),
        mass,
        rocket,
        integral: None,
        cut: None,
    }
}

#[test]
fn a_burn_is_gathered_in_the_order_of_the_ids() {
    let members = vec![member(3, 30, true), member(1, 10, false), member(2, 20, true)];
    let riders = vec![Rider { client_id: 9, mass: 5 }, Rider { client_id: 4, mass: 7 }];
    let burn = gather_burn(&members, &riders);
    let ids: Vec<u64> = burn.members.iter().map(|m| m.id).collect();
    assert_eq!(ids, vec![1, 2, 3]);
    assert_eq!(burn.rider_order, vec![1, 0]);
    assert_eq!(burn.rockets, vec![1002, 1003]);
    assert_eq!(burn.total_mass, 72);
}

#[test]
fn flames_follow_the_forces() {
    assert_eq!(flame_target(50, 100), 500_000);
    assert_eq!(flame_target(150, 100), 1_000_000);
    let burn = |entity, y| RocketBurn {
        entity,
        force: at(0, y, 0),
        point: at(1, 2, 3),
        gimbal: Stick { x: 10, y: 20 },
    };
    let burns = vec![burn(7, 25), burn(8, 300)];
    let writes = apply_thrust(&[7, 8], &burns, &[7], 100);
    assert_eq!(writes.rockets.len(), 1);
    assert_eq!((writes.rockets[0].burn, writes.rockets[0].flame), (burns[0], 250_000));
    assert_eq!((writes.drag, writes.net_force.y), (Some(7), 325));
    let idle = apply_thrust(&[], &burns, &[7], 100);
    assert!(idle.rockets.is_empty() && idle.drag.is_none() && idle.net_force.y == 0);
    let mut targets = vec![5, 6];
    reset_flame_targets(&mut targets);
    assert_eq!(targets, vec![0, 0]);
}

#[test]
fn the_spread_is_the_farthest_from_the_middle() {
    assert_eq!(spread(&[]), 0);
    assert_eq!(spread(&[at(-3_000_000, 0, 0), at(3_000_000, 0, 0)]), 3_000_000);
}

#[test]
fn the_stick_is_kept_within_a_circle() {
    let s = clamp_to_full(Stick { x: 3_000_000, y: 4_000_000 });
    assert!((s.x - 600_000).abs() <= 1 && (s.y - 800_000).abs() <= 1);
    let small = Stick { x: 300_000, y: -400_000 };
    assert_eq!(clamp_to_full(small), small);
    let steer = Stick { x: 100, y: 200 };
    let launch = NetLaunch { remaining: 0, launched: true, pilot: 5, steer, plan: 0 };
    assert_eq!(stick(&launch, Some(5), Some(small)), small);
    assert_eq!(stick(&launch, Some(6), Some(small)), steer);
    assert_eq!(stick(&launch, None, None), steer);
}

// ---- Bodies --------------------------------------------------------------------------

#[test]
fn gravity_pulls_where_a_body_really_is() {
    let pulled = apply_mp_gravity(&[at(1, 2, 3), at(0, 0, 0)], &at(10, 20, 30));
    assert_eq!(pulled, vec![at(11, 22, 33), at(10, 20, 30)]);
}

#[test]
fn every_simulated_avatar_feels_the_same_up() {
    let avatars = vec![
        Avatar { entity: 1, is_character: true, is_net_player: true, foot: Some(-700_000) },
        Avatar { entity: 2, is_character: false, is_net_player: true, foot: Some(-700_000) },
        Avatar { entity: 3, is_character: false, is_net_player: true, foot: None },
        Avatar { entity: 4, is_character: false, is_net_player: false, foot: Some(0) },
    ];
    let tilted = at(100_000, 990_000, 0);
    let samples = sample_felt_up(Some(tilted), &avatars);
    assert_eq!(
        samples,
        vec![
            FeltSample { entity: 1, foot: -700_000, target: tilted },
            FeltSample { entity: 2, foot: -700_000, target: tilted },
        ]
    );
    assert_eq!(sample_felt_up(None, &avatars)[0].target, at(0, 1_000_000, 0));
}

#[test]
fn the_camera_eases_out_and_back() {
    let mut zoom = 1_000_000;
    ease_launch_zoom(&mut zoom, &local(SpPhase::Launched), false, &None, 250_000);
    assert_eq!(zoom, 1_250_000);
    ease_launch_zoom(&mut zoom, &local(SpPhase::Launched), false, &None, 1_000_000);
    assert_eq!(zoom, 2_000_000);
    ease_launch_zoom(&mut zoom, &local(SpPhase::Idle), false, &None, 500_000);
    assert_eq!(zoom, 1_500_000);
}
