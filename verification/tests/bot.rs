use bad_spaceship::bot::{
    adopt_avatar, apply_time_scale, exit_when_done, next_phase, platform_xz, send_launch, send_lock,
    send_reset, sync_margins, trace_blastoff_tick, write_input, Avatar, BlastoffTrace, BotConfig,
    BotEnv, Deck, Footprint, SeenPart, BOARD_SETTLE_TICKS,
};
use bad_spaceship::buoyancy::hydro::Heading;
use bad_spaceship::client::net::PeerId;
use bad_spaceship::geom::Point;

const SECOND: i64 = 1_000_000_000;
const EAST: Heading = Heading { cos: 1_000_000, sin: 0 };

fn at(x: i64, y: i64, z: i64) -> Point {
    Point { x, y, z }
}

fn env() -> BotEnv {
    BotEnv {
        connect: None,
        room: None,
        launch_secs: None,
        lock_secs: None,
        reset_secs: None,
        run_secs: None,
        ride: false,
        wander: false,
        jumpy: false,
        resume_id: None,
    }
}

#[test]
fn the_script_has_defaults() {
    let config = BotConfig::from_env(&env());
    assert_eq!(config.server, "127.0.0.1:5001");
    assert_eq!(config.room, [0; 6]);
    assert_eq!((config.launch_after, config.run_for, config.resume_id), (None, None, 0));
}

#[test]
fn the_script_is_read() {
    let config = BotConfig::from_env(&BotEnv {
        connect: Some("10.0.0.1:9".to_string()),
        room: Some("abCdefgh".to_string()),
        launch_secs: Some(-1),
        lock_secs: Some(0),
        run_secs: Some(0),
        resume_id: Some("77".to_string()),
        ..env()
    });
    assert_eq!(config.server, "10.0.0.1:9");
    assert_eq!(&config.room, b"ABCDEF");
    assert_eq!((config.launch_after, config.lock_after, config.run_for), (None, Some(0), None));
    assert_eq!(config.resume_id, 77);
    let odd = BotConfig::from_env(&BotEnv { resume_id: Some("x".to_string()), ..env() });
    assert_eq!(odd.resume_id, 0);
}

#[test]
fn messages_are_sent_once() {
    let config = BotConfig::from_env(&BotEnv {
        launch_secs: Some(2 * SECOND),
        lock_secs: Some(SECOND),
        reset_secs: Some(3 * SECOND),
        run_secs: Some(4 * SECOND),
        ride: true,
        ..env()
    });
    let (mut sent, late) = (false, 5 * SECOND as u64);
    assert_eq!(send_launch(&config, late, BOARD_SETTLE_TICKS - 1, &mut sent, 2), 0);
    assert_eq!(send_launch(&config, 1, BOARD_SETTLE_TICKS, &mut sent, 2), 0);
    assert_eq!(send_launch(&config, late, BOARD_SETTLE_TICKS, &mut sent, 0), 0);
    assert!(!sent);
    assert_eq!(send_launch(&config, late, BOARD_SETTLE_TICKS, &mut sent, 2), 2);
    assert_eq!(send_launch(&config, late, BOARD_SETTLE_TICKS, &mut sent, 2), 0);
    let mut sent = false;
    assert_eq!(send_lock(&config, late, BOARD_SETTLE_TICKS, &mut sent, 1), 1);
    assert_eq!(send_lock(&config, late, BOARD_SETTLE_TICKS, &mut sent, 1), 0);
    // A reset does not wait for the rider.
    let mut sent = false;
    assert_eq!(send_reset(&config, late, &mut sent, 1), 1);
    assert!(!exit_when_done(&config, 4 * SECOND as u64 - 1));
    assert!(exit_when_done(&config, 4 * SECOND as u64));
    assert!(!exit_when_done(&BotConfig::from_env(&env()), u64::MAX));
}

#[test]
fn the_platform_is_the_widest_block() {
    let block = |x: i64, half_x: u32, half_z: u32| SeenPart {
        at: at(x, 0, 0),
        block: Some(Footprint { half_x, half_z }),
    };
    let rocket = SeenPart { at: at(9, 9, 9), block: None };
    assert_eq!(platform_xz(&[rocket]), None);
    let deck = platform_xz(&[block(1, 10, 10), rocket, block(2, 20, 5), block(3, 1, 1)]).expect("a deck");
    assert_eq!(deck.at, at(2, 0, 0));
}

fn rider(wander: bool) -> BotConfig {
    BotConfig::from_env(&BotEnv { ride: true, wander, jumpy: true, ..env() })
}

#[test]
fn the_rider_climbs_and_stands() {
    let (mut boarded, mut tick) = (0, 0);
    let config = rider(false);
    // On the ground, far from the step: straight to it, at full throttle.
    let far = write_input(&config, &mut boarded, &mut tick, Some(at(10_000_000, -1_000_000, 0)), None, &EAST);
    let stride = far.stride.expect("a stride");
    assert_eq!(stride.dir, at(-1_000_000, 0, 0));
    assert_eq!(stride.throttle, 1_000_000);
    assert!(!far.jump);
    // At the step: hop.
    let near = write_input(&config, &mut boarded, &mut tick, Some(at(5_000_000, -1_000_000, 0)), None, &EAST);
    assert!(near.jump);
    // At the middle of the platform: stand, and count.
    for _ in 0..BOARD_SETTLE_TICKS {
        let still = write_input(&config, &mut boarded, &mut tick, Some(at(0, 2_000_000, 0)), None, &EAST);
        assert!(still.stride.is_none() && !still.jump);
    }
    assert_eq!(boarded, BOARD_SETTLE_TICKS);
    // Nobody who does not ride moves.
    let idle = write_input(
        &BotConfig::from_env(&env()),
        &mut 0,
        &mut tick,
        Some(at(10_000_000, 0, 0)),
        None,
        &EAST,
    );
    assert!(idle.stride.is_none());
}

#[test]
fn the_stroll_stays_on_deck() {
    let deck = Deck { at: at(0, 0, 0), size: Footprint { half_x: 1_500_000, half_z: 1_500_000 } };
    let (mut boarded, mut tick) = (BOARD_SETTLE_TICKS, 89);
    // The second waypoint lies at the edge, 0.9 m out.
    let input = write_input(&rider(true), &mut boarded, &mut tick, Some(at(0, 2_000_000, 0)), Some(deck), &EAST);
    assert_eq!(tick, 90);
    let stride = input.stride.expect("a stride");
    assert_eq!(stride.dir, at(1_000_000, 0, 0));
    assert_eq!(stride.throttle, 600_000);
    assert_eq!(next_phase(89), 1);
    // Close to it the rider stops.
    let close = write_input(&rider(true), &mut boarded, &mut tick, Some(at(800_000, 2_000_000, 0)), Some(deck), &EAST);
    assert!(close.stride.is_none());
}

#[test]
fn only_our_own_avatar_is_driven() {
    let new = [
        Avatar { entity: 1, client_id: 5 },
        Avatar { entity: 2, client_id: 6 },
        Avatar { entity: 3, client_id: 5 },
    ];
    assert_eq!(adopt_avatar(&new, Some(PeerId::Netcode(5))), vec![1, 3]);
    assert!(adopt_avatar(&new, Some(PeerId::Other)).is_empty());
    assert!(adopt_avatar(&new, None).is_empty());
}

#[test]
fn a_blastoff_is_reported_once() {
    let mut reported = BlastoffTrace { due: false, flag: false };
    assert_eq!(trace_blastoff_tick(None, &mut reported), BlastoffTrace { due: false, flag: false });
    let first = trace_blastoff_tick(Some(BlastoffTrace { due: true, flag: false }), &mut reported);
    assert_eq!(first, BlastoffTrace { due: true, flag: false });
    let both = trace_blastoff_tick(Some(BlastoffTrace { due: true, flag: true }), &mut reported);
    assert_eq!(both, BlastoffTrace { due: false, flag: true });
}

#[test]
fn a_time_scale_is_put_on_once() {
    assert_eq!(apply_time_scale(1_000_000, 1_000_000), None);
    assert_eq!(apply_time_scale(10_000_000, 1_100_000), Some(11_000_000));
    assert_eq!(apply_time_scale(10_000_000, 11_000_000), None);
    assert_eq!(sync_margins(1_000_000), None);
    let m = sync_margins(20_000_000).expect("margins");
    assert_eq!((m.jitter, m.error, m.max_error), (31_000_000, 2_000_000, 40_000_000));
    assert_eq!(sync_margins(2_000_000).expect("margins").max_error, 20_000_000);
}
