use downhill::config::{AvalancheConfig, Config, PlayerConfig, TrackConfig};
use downhill::geometry::Vec2;
use downhill::player::{can_detonate, Player, PlayerState};
use downhill::track::{Obstacle, ShapePoint, Track};

fn config() -> Config {
    Config {
        invincibility_time: 1_000,
        auto_continue: false,
        enable_walk: true,
        enable_parachute: true,
        avalanche: AvalancheConfig { min_speed: 2_000, max_speed: 10_000, acceleration: 500, start: 10_000 },
        track: TrackConfig { length: 200_000, width: 20_000, safe_middle: 5_000, obstacles_density: 200, spawn_area: 20_000 },
        player: PlayerConfig {
            rotation_speed: 2_000,
            rotation_limit: 1_000,
            max_speed: 20_000,
            max_walk_speed: 3_000,
            friction: 10_000,
            downhill_acceleration: 5_000,
            walk_acceleration: 10_000,
            crash_deceleration: 5_000,
            parachute_time: 3_000,
        },
    }
}

fn player(id: i64, state: PlayerState) -> Player {
    Player {
        id,
        start_y: 0,
        emote: None,
        name: format!("p{}", id),
        position: Vec2 { x: 0, y: 0 },
        config: String::new(),
        radius: 500,
        rotation: 0,
        input: Vec2 { x: 0, y: 0 },
        velocity: Vec2 { x: 0, y: 0 },
        state,
        seen_no_avalanche: false,
        ride_volume: 0,
    }
}

fn flat_track() -> Track {
    Track {
        obstacles: vec![Obstacle { index: 0, radius: 500, position: Vec2 { x: 0, y: -50_000 } }],
        shape: vec![
            ShapePoint { y: 0, left: -20_000, right: 20_000 },
            ShapePoint { y: -100_000, left: -20_000, right: 20_000 },
        ],
    }
}

#[test]
fn only_riders_past_invincibility_can_crash() {
    let c = config();
    assert!(!PlayerState::Ride { timer: 1_000 }.can_crash(&c));
    assert!(PlayerState::Ride { timer: 1_001 }.can_crash(&c));
    assert!(!PlayerState::Walk.can_crash(&c));
    assert!(!PlayerState::SpawnWalk.can_crash(&c));
    assert!(!PlayerState::Parachute { timer: 5_000 }.can_crash(&c));
    let crash = PlayerState::Crash {
        timer: 5_000,
        ski_velocity: Vec2 { x: 0, y: 0 },
        ski_rotation: 0,
        crash_position: Vec2 { x: 0, y: 0 },
    };
    assert!(!crash.can_crash(&c));
}

#[test]
fn score_counts_hundred_points_per_unit() {
    let mut p = player(1, PlayerState::Walk);
    p.start_y = 0;
    p.position.y = -12_345;
    assert_eq!(p.score(), 1_234);
    p.position.y = -7;
    assert_eq!(p.score(), 0);
    p.start_y = -1_000;
    p.position.y = 0;
    assert_eq!(p.score(), -100);
    p.position.y = -995;
    assert_eq!(p.score(), 0);
    p.position.y = -985;
    assert_eq!(p.score(), -1);
    p.start_y = 1_000_000_000_000;
    p.position.y = -1_000_000_000_000;
    assert_eq!(p.score(), i32::MAX);
}

#[test]
fn detonator_spans_its_strip() {
    assert!(can_detonate(-1_000));
    assert!(can_detonate(1_999));
    assert!(!can_detonate(2_000));
    assert!(!can_detonate(-1_001));
}

#[test]
fn avalanche_crash_is_idempotent() {
    let mut p = player(1, PlayerState::Ride { timer: 10 });
    p.position = Vec2 { x: 300, y: -1_000 };
    p.velocity = Vec2 { x: 5, y: -7_000 };
    p.rotation = 40;
    p.catch_by_avalanche(Some(-2_000));
    let expected = PlayerState::Crash {
        timer: 0,
        ski_velocity: Vec2 { x: 5, y: -7_000 },
        ski_rotation: 40,
        crash_position: Vec2 { x: 300, y: -1_000 },
    };
    assert_eq!(p.state, expected);
    p.catch_by_avalanche(Some(-2_000));
    assert_eq!(p.state, expected);
}

#[test]
fn avalanche_spares_start_line_and_leaders() {
    let mut p = player(1, PlayerState::SpawnWalk);
    p.catch_by_avalanche(Some(-2_000));
    assert_eq!(p.state, PlayerState::SpawnWalk);
    let mut q = player(2, PlayerState::Walk);
    q.position.y = -3_000;
    q.catch_by_avalanche(Some(-2_000));
    assert_eq!(q.state, PlayerState::Walk);
    q.catch_by_avalanche(None);
    assert_eq!(q.state, PlayerState::Walk);
    let mut r = player(3, PlayerState::Parachute { timer: 100 });
    r.catch_by_avalanche(Some(-2_000));
    assert!(matches!(r.state, PlayerState::Crash { .. }));
}

#[test]
fn release_needs_a_seen_clear_slope() {
    let mut p = player(1, PlayerState::SpawnWalk);
    p.set_off(Some(10_000));
    assert_eq!(p.state, PlayerState::SpawnWalk);
    p.seen_no_avalanche = true;
    p.set_off(None);
    assert_eq!(p.state, PlayerState::SpawnWalk);
    p.set_off(Some(10_000));
    assert_eq!(p.state, PlayerState::Ride { timer: 0 });
}

fn crashed(timer: i64) -> Player {
    let mut p = player(1, PlayerState::Crash {
        timer,
        ski_velocity: Vec2 { x: 0, y: 0 },
        ski_rotation: 0,
        crash_position: Vec2 { x: 0, y: 0 },
    });
    p.start_y = 0;
    p.position = Vec2 { x: 4_000, y: -25_678 };
    p.seen_no_avalanche = true;
    p
}

#[test]
fn crash_past_grace_respawns_with_score() {
    let c = config();
    let mut p = crashed(2_001);
    let score = p.recover(None, &c);
    assert_eq!(score, Some(2_567));
    assert_eq!(p.state, PlayerState::SpawnWalk);
    assert_eq!(p.position.y, 0);
    assert_eq!(p.start_y, 0);
    assert!(!p.seen_no_avalanche);
}

#[test]
fn crash_within_grace_waits() {
    let c = config();
    let mut p = crashed(2_000);
    assert_eq!(p.recover(None, &c), None);
    assert!(matches!(p.state, PlayerState::Crash { timer: 2_000, .. }));
}

#[test]
fn crash_ahead_of_avalanche_continues() {
    let mut c = config();
    let mut p = crashed(2_500);
    assert_eq!(p.recover(Some(-20_000), &c), None);
    assert_eq!(p.state, PlayerState::Walk);
    c.auto_continue = true;
    let mut q = crashed(2_500);
    assert_eq!(q.recover(Some(-20_000), &c), None);
    assert_eq!(q.state, PlayerState::Ride { timer: 0 });
    c.auto_continue = false;
    c.enable_walk = false;
    let mut r = crashed(2_500);
    assert_eq!(r.recover(Some(-20_000), &c), None);
    assert!(matches!(r.state, PlayerState::Crash { .. }));
    let mut s = crashed(2_500);
    assert_eq!(s.recover(Some(-30_000), &c), Some(2_567));
    assert_eq!(s.state, PlayerState::SpawnWalk);
}

#[test]
fn impact_records_the_moment_before_the_push() {
    let c = config();
    let mut p = player(1, PlayerState::Ride { timer: 2 * c.invincibility_time });
    p.position = Vec2 { x: 600, y: -50_000 };
    p.velocity = Vec2 { x: -3_000, y: -8_000 };
    p.rotation = -200;
    let o = Obstacle { index: 0, radius: 500, position: Vec2 { x: 0, y: -50_000 } };
    p.meet(&o, &c, true);
    assert_eq!(
        p.state,
        PlayerState::Crash {
            timer: 0,
            ski_velocity: Vec2 { x: -3_000, y: -8_000 },
            ski_rotation: -200,
            crash_position: Vec2 { x: 600, y: -50_000 },
        }
    );
    // pushed out to touching distance, the normal speed removed
    assert_eq!(p.position, Vec2 { x: 1_000, y: -50_000 });
    assert_eq!(p.velocity, Vec2 { x: 0, y: -8_000 });
}

#[test]
fn invincible_rider_is_pushed_without_crashing() {
    let c = config();
    let mut p = player(1, PlayerState::Ride { timer: 500 });
    p.position = Vec2 { x: 0, y: -50_300 };
    p.velocity = Vec2 { x: 100, y: 2_000 };
    let o = Obstacle { index: 0, radius: 500, position: Vec2 { x: 0, y: -50_000 } };
    p.meet(&o, &c, true);
    assert_eq!(p.state, PlayerState::Ride { timer: 500 });
    assert_eq!(p.position, Vec2 { x: 0, y: -51_000 });
    assert_eq!(p.velocity, Vec2 { x: 100, y: 0 });
}

#[test]
fn distant_obstacle_changes_nothing() {
    let c = config();
    let mut p = player(1, PlayerState::Ride { timer: 5_000 });
    p.position = Vec2 { x: 1_001, y: -50_000 };
    let before = p.clone();
    let o = Obstacle { index: 0, radius: 500, position: Vec2 { x: 0, y: -50_000 } };
    p.meet(&o, &c, true);
    assert_eq!(p.position, before.position);
    assert_eq!(p.state, before.state);
}

#[test]
fn boundary_crash_and_clamp() {
    let c = config();
    let mut p = player(1, PlayerState::Ride { timer: 5_000 });
    p.position = Vec2 { x: 19_800, y: -10_000 };
    p.confine(-20_000, 20_000, &c, true);
    assert_eq!(p.position.x, 19_500);
    assert!(matches!(p.state, PlayerState::Crash { crash_position: Vec2 { x: 19_800, y: -10_000 }, .. }));
    let mut w = player(2, PlayerState::Walk);
    w.position = Vec2 { x: -19_800, y: -10_000 };
    w.confine(-20_000, 20_000, &c, true);
    assert_eq!(w.position.x, -19_500);
    assert_eq!(w.state, PlayerState::Walk);
}

#[test]
fn parachute_counts_down_and_lands() {
    let c = config();
    let track = flat_track();
    let mut p = player(1, PlayerState::Parachute { timer: 7 });
    p.position = Vec2 { x: 0, y: -20_000 };
    p.step(&c, &track, None, 5);
    assert_eq!(p.state, PlayerState::Parachute { timer: 2 });
    p.step(&c, &track, None, 5);
    assert_eq!(p.state, PlayerState::Ride { timer: 0 });
}

#[test]
fn riding_pulls_downhill_and_runs_the_timer() {
    let c = config();
    let track = flat_track();
    let mut p = player(1, PlayerState::Ride { timer: 0 });
    p.position = Vec2 { x: 0, y: -10_000 };
    p.step(&c, &track, None, 100);
    assert_eq!(p.state, PlayerState::Ride { timer: 100 });
    assert_eq!(p.velocity, Vec2 { x: 0, y: -500 });
    assert_eq!(p.position, Vec2 { x: 0, y: -10_050 });
}

#[test]
fn steering_leans_at_the_turning_rate() {
    let c = config();
    let track = flat_track();
    let mut p = player(1, PlayerState::Ride { timer: 0 });
    p.position = Vec2 { x: 0, y: -10_000 };
    p.velocity = Vec2 { x: 0, y: -10_000 };
    p.input = Vec2 { x: 1_000, y: 0 };
    p.step(&c, &track, None, 100);
    assert_eq!(p.rotation, 200);
    // the skis turn the downhill speed sideways, friction-limited
    assert_eq!(p.velocity, Vec2 { x: 1_000, y: -10_500 });
}

#[test]
fn spawn_walk_stays_on_the_start_strip() {
    let c = config();
    let track = flat_track();
    let mut p = player(1, PlayerState::SpawnWalk);
    p.position = Vec2 { x: 9_400, y: 0 };
    p.velocity = Vec2 { x: 3_000, y: -3_000 };
    p.input = Vec2 { x: 1_000, y: -1_000 };
    p.step(&c, &track, None, 100);
    assert_eq!(p.position, Vec2 { x: 9_500, y: 0 });
    assert_eq!(p.state, PlayerState::SpawnWalk);
}

#[test]
fn rider_overtaken_by_avalanche_crashes_in_the_step() {
    let c = config();
    let track = flat_track();
    let mut p = player(1, PlayerState::Ride { timer: 0 });
    p.position = Vec2 { x: 0, y: -10_000 };
    p.step(&c, &track, Some(-20_000), 100);
    assert!(matches!(p.state, PlayerState::Crash { timer: 0, .. }));
}

#[test]
fn respawn_resets_the_run() {
    let mut p = crashed(9_000);
    p.respawn();
    assert_eq!(p.state, PlayerState::SpawnWalk);
    assert_eq!(p.position, Vec2 { x: 0, y: 0 });
    assert_eq!(p.velocity, Vec2 { x: 0, y: 0 });
    assert_eq!(p.start_y, 0);
    assert!(!p.seen_no_avalanche);
    assert_eq!(p.name, "p1");
}

#[test]
fn limits_are_checked() {
    let mut p = player(1, PlayerState::Walk);
    assert!(p.within_limits());
    p.input.x = 1_001;
    assert!(!p.within_limits());
}

#[test]
fn step_into_an_obstacle_crashes_with_the_integrated_values() {
    let c = config();
    let track = flat_track();
    let mut p = player(1, PlayerState::Ride { timer: 2 * c.invincibility_time });
    p.position = Vec2 { x: 0, y: -49_400 };
    p.step(&c, &track, None, 5);
    assert_eq!(
        p.state,
        PlayerState::Crash {
            timer: 0,
            ski_velocity: Vec2 { x: 0, y: -25 },
            ski_rotation: 0,
            crash_position: Vec2 { x: 0, y: -49_401 },
        }
    );
    assert_eq!(p.position, Vec2 { x: 0, y: -49_000 });
}
