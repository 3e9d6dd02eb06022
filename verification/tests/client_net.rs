use bad_spaceship::buoyancy::hydro::Rotation;
use bad_spaceship::client::net::{
    bind_replicated_joints, build_netcode_client, choose_resume_id, connect_user_data, fresh_resume_id,
    highlight_grabbable, multiplayer_room, multiplayer_target, my_netcode_id, predict_hold,
    predict_remote_hold, read_grab_intent, read_resume_look, reconnect_dropped, report_delete_zone,
    report_millimetres, report_rollbacks, resume_id, room_code_bytes, setup_predicted_avatar,
    socket_url, spawn_client, track_hold_rotation, update_focus, write_input, Adoption, BoundJoint,
    Grab, HeldPart, HoldTurn, Intent, Latch, NetInput, NewAvatar, Orientation, PeerId, ReplicatedPart,
    ResumeLook, Session, ATTACH_SEND_TICKS, RECONNECT_COOLDOWN, ROLLBACK_REPORT_EVERY,
};
use bad_spaceship::client::render_secondary_pass::assembly::{largest_assembly, Joint};
use bad_spaceship::client::replicated::{
    draw_replicated_parts, draw_replicated_players, face_replicated_players,
    position_replicated_joints, DrawnJoint, PartCopy, PartPose, PlayerCopy,
};
use bad_spaceship::geom::Point;

fn at(x: i64, y: i64, z: i64) -> Point {
    Point { x, y, z }
}

#[test]
fn a_room_code_ignores_case() {
    assert_eq!(&room_code_bytes("ab1z"), b"AB1Z\0\0");
    assert_eq!(room_code_bytes("AbCdEfGh"), room_code_bytes("aBcDeF"));
    assert_eq!(multiplayer_room(&None), [0; 6]);
    assert_eq!(&multiplayer_room(&Some("room42".to_string())), b"ROOM42");
}

#[test]
fn an_empty_target_is_none_in_a_browser() {
    assert_eq!(multiplayer_target(None, true), None);
    assert_eq!(multiplayer_target(Some(String::new()), true), None);
    assert_eq!(multiplayer_target(Some(String::new()), false), Some(String::new()));
    assert_eq!(multiplayer_target(Some("wss://x".to_string()), true), Some("wss://x".to_string()));
}

#[test]
fn a_resume_id_survives_a_reload() {
    assert_eq!(fresh_resume_id(6), 7);
    assert_eq!(fresh_resume_id(0), 1);
    let none = choose_resume_id(false, &None, 8);
    assert_eq!((none.id, none.store), (0, false));
    let fresh = choose_resume_id(true, &None, 8);
    assert_eq!((fresh.id, fresh.store), (9, true));
    let kept = choose_resume_id(true, &Some("9".to_string()), 1000);
    assert_eq!((kept.id, kept.store), (9, false));
    let broken = choose_resume_id(true, &Some("nine".to_string()), 4);
    assert_eq!((broken.id, broken.store), (5, true));
    let zero = choose_resume_id(true, &Some("0".to_string()), 4);
    assert_eq!(zero.id, 5);
}

#[test]
fn drawn_ids_differ() {
    let first = resume_id(true, &None);
    assert!(first.id % 2 == 1 && first.store);
    assert!((0..8).any(|_| resume_id(true, &None).id != first.id));
    let a = build_netcode_client(1).client_id;
    assert!((0..8).any(|_| build_netcode_client(1).client_id != a));
}

#[test]
fn a_token_carries_the_resume_id() {
    let data = connect_user_data(0x0102_0304_0506_0708);
    assert_eq!(data.len(), 256);
    assert_eq!(&data[..8], &[8, 7, 6, 5, 4, 3, 2, 1]);
    assert!(data[8..].iter().all(|b| *b == 0));
    let r = build_netcode_client(0x0102_0304_0506_0708);
    assert_eq!((r.timeout_seconds, r.expire_seconds, r.key), (3, 30, [0; 32]));
    assert_eq!(r.user_data, data);
}

#[test]
fn a_client_connects_where_it_is_told_to() {
    let server = Some("10.0.0.1:5001".to_string());
    assert_eq!(socket_url("10.0.0.1:5001"), "ws://10.0.0.1:5001");
    let target = || Some("wss://x.org".to_string());
    assert_eq!(spawn_client(true, target(), &None, true), target());
    assert_eq!(spawn_client(false, target(), &server, true), Some("ws://10.0.0.1:5001".to_string()));
    assert_eq!(spawn_client(false, target(), &None, true), None);
    assert_eq!(spawn_client(false, None, &server, true), None);
    assert_eq!(spawn_client(true, target(), &None, false), None);
    assert_eq!(my_netcode_id(Some(PeerId::Netcode(3))), Some(3));
    assert_eq!(my_netcode_id(Some(PeerId::Other)), None);
}

#[test]
fn a_saved_look_is_two_numbers() {
    let none = ResumeLook { yaw: 0, pitch: 0, restored: false };
    assert_eq!(read_resume_look(&[]), none);
    assert_eq!(read_resume_look(&[Some(5), None]), none);
    let look = ResumeLook { yaw: 5, pitch: -6, restored: true };
    assert_eq!(read_resume_look(&[Some(5), None, Some(-6), Some(9)]), look);
}

#[test]
fn only_our_avatar_is_adopted() {
    let avatars = [NewAvatar { entity: 1, client_id: 7 }, NewAvatar { entity: 2, client_id: 8 }];
    let mut applied = false;
    assert!(setup_predicted_avatar(&avatars, None, true, true, &mut applied).is_empty());
    assert!(setup_predicted_avatar(&avatars, Some(7), false, true, &mut applied).is_empty());
    let adopted = setup_predicted_avatar(&avatars, Some(7), true, true, &mut applied);
    assert_eq!(adopted, vec![Adoption { entity: 1, look: true }]);
    assert!(applied);
    // The saved look is applied once.
    let again = setup_predicted_avatar(&avatars, Some(7), true, true, &mut applied);
    assert_eq!(again, vec![Adoption { entity: 1, look: false }]);
}

fn upright() -> Orientation {
    Orientation { x: 0, y: 0, z: 0, w: 1_000_000 }
}

fn blank() -> NetInput {
    NetInput {
        move_x: 0,
        move_z: 0,
        jump: false,
        yaw: 0,
        pitch: 0,
        grab: false,
        attach: false,
        delete: false,
        room: [0; 6],
        resume_id: 0,
        grab_origin: at(0, 0, 0),
        hold_target: at(0, 0, 0),
        hold_rotation: upright(),
    }
}

#[test]
fn a_press_is_asserted_for_a_while() {
    let session = Session { room: *b"ABCDEF", resume_id: 5, held_rotation: upright() };
    let intent = Intent { direction: at(300_000, 900_000, -400_000), yaw: 1, pitch: 2, holding: true };
    let (mut attach, mut delete) = (Latch(ATTACH_SEND_TICKS), Latch(0));
    let mut controlled = vec![blank()];
    let mut asserted = 0;
    for _ in 0..10 {
        write_input(
            Some(intent),
            Some(at(1, 1, 1)),
            Some(at(2, 2, 2)),
            &mut attach,
            &mut delete,
            &session,
            &mut controlled,
        );
        let sent = controlled[0];
        assert!(!sent.delete && sent.grab && sent.jump);
        assert_eq!((sent.move_x, sent.move_z, sent.room, sent.resume_id), (300_000, -400_000, *b"ABCDEF", 5));
        assert_eq!((sent.grab_origin, sent.hold_target), (at(1, 1, 1), at(2, 2, 2)));
        if sent.attach {
            asserted += 1;
        }
    }
    assert_eq!(asserted, ATTACH_SEND_TICKS);
}

#[test]
fn a_grab_needs_something_to_look_at() {
    let mut g = Grab { holding: false, want_attach: Latch(0), want_delete: Latch(0) };
    read_grab_intent(&mut g, 1, false, false);
    assert!(!g.holding);
    read_grab_intent(&mut g, 1, false, true);
    assert!(g.holding);
    // A modified click while holding joins; without it, it lets go.
    read_grab_intent(&mut g, 1, true, true);
    assert!(g.holding);
    assert_eq!(g.want_attach, Latch(ATTACH_SEND_TICKS));
    read_grab_intent(&mut g, 1, false, true);
    assert!(!g.holding);
    read_grab_intent(&mut g, 1, true, true);
    assert_eq!(g.want_delete, Latch(ATTACH_SEND_TICKS));
}

#[test]
fn holding_keeps_the_focus() {
    let mut focused = Some(3);
    update_focus(&mut focused, true, Some(Some(4)));
    assert_eq!(focused, Some(3));
    update_focus(&mut focused, false, None);
    assert_eq!(focused, Some(3));
    update_focus(&mut focused, false, Some(None));
    assert_eq!(focused, None);
    let mut was = false;
    assert!(matches!(track_hold_rotation(&mut was, true), HoldTurn::Seed));
    assert!(matches!(track_hold_rotation(&mut was, true), HoldTurn::Turn));
    assert!(matches!(track_hold_rotation(&mut was, false), HoldTurn::Keep));
    assert_eq!(predict_hold(true, Some(5), true), Some(5));
    assert_eq!(predict_hold(true, Some(5), false), None);
    assert_eq!(predict_hold(false, Some(5), true), None);
    let parts = [
        HeldPart { entity: 1, holder: 9 },
        HeldPart { entity: 2, holder: 4 },
    ];
    assert_eq!(predict_remote_hold(&parts, Some(9)), vec![2]);
    assert!(predict_remote_hold(&parts, None).is_empty());
    let mut lit = None;
    let change = highlight_grabbable(&mut lit, Some(1));
    assert_eq!((change.dim, change.light), (None, Some(1)));
    let change = highlight_grabbable(&mut lit, Some(1));
    assert_eq!((change.dim, change.light), (None, None));
    let change = highlight_grabbable(&mut lit, None);
    assert_eq!((change.dim, change.light), (Some(1), None));
}

#[test]
fn joints_bind_once_both_parts_are_there() {
    let joints = [
        Joint { entity: 50, body1: 1, body2: 2 },
        Joint { entity: 51, body1: 1, body2: 9 },
    ];
    let parts = [ReplicatedPart { entity: 100, id: 1 }, ReplicatedPart { entity: 200, id: 2 }];
    let bound = bind_replicated_joints(&joints, &parts, true);
    assert_eq!(bound, vec![BoundJoint { joint: 50, body1: 100, body2: 200 }]);
    assert!(bind_replicated_joints(&joints, &parts, false).is_empty());
}

#[test]
fn a_dropped_connection_is_tried_again_after_a_pause() {
    let mut cooldown = 0;
    assert!(!reconnect_dropped(&mut cooldown, 1, false, false));
    assert!(reconnect_dropped(&mut cooldown, 1, false, true));
    assert!(!reconnect_dropped(&mut cooldown, 1, false, true));
    assert!(!reconnect_dropped(&mut cooldown, RECONNECT_COOLDOWN, true, true));
    let mut acc = 0;
    assert!(!report_rollbacks(&mut acc, ROLLBACK_REPORT_EVERY - 1, true, true));
    assert!(report_rollbacks(&mut acc, 1, true, true));
    let mut acc = 0;
    assert!(!report_delete_zone(&mut acc, 1, true, true));
    assert!(report_delete_zone(&mut acc, 400_000_000, true, true));
    assert_eq!(report_millimetres(Some(1_234_567)), 1_234);
}

#[test]
fn the_largest_assembly_is_the_largest_component() {
    let j = |entity: u64, body1: u64, body2: u64| Joint { entity, body1, body2 };
    assert_eq!(largest_assembly(&[]), None);
    let mut group = largest_assembly(&[j(1, 10, 11), j(2, 20, 21), j(3, 21, 22)]).expect("a group");
    group.sort();
    assert_eq!(group, vec![20, 21, 22]);
}

// ---- How it is drawn -----------------------------------------------------------------

#[test]
fn other_players_get_a_body_once() {
    let players = [
        PlayerCopy { entity: 1, interpolated: true, has_visual: false },
        PlayerCopy { entity: 2, interpolated: false, has_visual: false },
        PlayerCopy { entity: 3, interpolated: true, has_visual: true },
    ];
    let drawn = draw_replicated_players(&players);
    assert_eq!(drawn.len(), 1);
    assert_eq!((drawn[0].entity, drawn[0].nose.translation), (1, at(0, 0, 900_000)));
    assert_eq!(drawn[0].body.sides, at(800_000, 1_200_000, 1_600_000));
    assert_eq!(face_replicated_players(500), -500);
}

#[test]
fn parts_are_twice_their_half_sides() {
    let part = PartCopy {
        entity: 4,
        half_extents: at(500_000, 250_000, 1_000_000),
        predicted: true,
        has_pose: true,
        has_mesh: false,
    };
    let late = PartCopy { has_pose: false, ..part };
    let drawn = draw_replicated_parts(&[part, late, PartCopy { has_mesh: true, ..part }]);
    assert_eq!(drawn.len(), 1);
    assert_eq!(drawn[0].look.sides, at(1_000_000, 500_000, 2_000_000));
}

#[test]
fn joints_ride_their_part() {
    let quarter = Rotation {
        x_axis: at(0, 0, -1_000_000),
        y_axis: at(0, 1_000_000, 0),
        z_axis: at(1_000_000, 0, 0),
    };
    let body = Some(PartPose { position: at(10, 20, 30), rotation: quarter });
    let joint = DrawnJoint { translation: at(0, 0, 0), anchor: at(1_000_000, 0, 0), body };
    let lost = DrawnJoint { body: None, translation: at(7, 7, 7), ..joint };
    let mut joints = vec![joint, lost];
    assert_eq!(position_replicated_joints(&mut joints), vec![true, false]);
    assert_eq!(joints[0].translation, at(10, 20, 30 - 1_000_000));
    assert_eq!(joints[1].translation, at(7, 7, 7));
    // Parts at rest: nothing moves again.
    assert_eq!(position_replicated_joints(&mut joints), vec![false, false]);
}
