use downhill::config::{AvalancheConfig, Config, PlayerConfig, TrackConfig};
use downhill::geometry::Vec2;
use downhill::player::{Player, PlayerState};
use downhill::reconcile::{blend, interpolate, ClientReconciler};
use downhill::track::{Obstacle, ShapePoint, Track};

fn config() -> Config {
    Config {
        invincibility_time: 1_000,
        auto_continue: false,
        enable_walk: true,
        enable_parachute: true,
        avalanche: AvalancheConfig { min_speed: 2_000, max_speed: 10_000, acceleration: 500, start: 10_000 },
        track: TrackConfig { length: 200_000, width: 20_000, safe_middle: 5_000, obstacles_density: 200, spawn_area: 20_000 },
        player: PlayerConfig {
            rotation_speed: 2_000,
            rotation_limit: 1_000,
            max_speed: 20_000,
            max_walk_speed: 3_000,
            friction: 10_000,
            downhill_acceleration: 5_000,
            walk_acceleration: 10_000,
            crash_deceleration: 5_000,
            parachute_time: 3_000,
        },
    }
}

fn player(id: i64, state: PlayerState, x: i64, y: i64) -> Player {
    Player {
        id,
        start_y: 0,
        emote: None,
        name: format!("p{}", id),
        position: Vec2 { x, y },
        config: String::new(),
        radius: 500,
        rotation: 0,
        input: Vec2 { x: 0, y: 0 },
        velocity: Vec2 { x: 0, y: 0 },
        state,
        seen_no_avalanche: false,
        ride_volume: 0,
    }
}

fn slope() -> Track {
    Track {
        obstacles: vec![Obstacle { index: 0, radius: 500, position: Vec2 { x: 15_000, y: -80_000 } }],
        shape: vec![
            ShapePoint { y: 0, left: -20_000, right: 20_000 },
            ShapePoint { y: -100_000, left: -10_000, right: 30_000 },
        ],
    }
}

#[test]
fn display_moves_toward_the_snapshot() {
    let shown = player(2, PlayerState::Walk, 0, 0);
    let mut target = player(2, PlayerState::Walk, 3_000, -600);
    target.rotation = 300;
    target.velocity = Vec2 { x: -900, y: 30 };
    let r = blend(&shown, &target, 100);
    assert_eq!(r.position, Vec2 { x: 1_000, y: -200 });
    assert_eq!(r.rotation, 100);
    assert_eq!(r.velocity, Vec2 { x: -300, y: 10 });
    let late = blend(&shown, &target, 900);
    assert_eq!(late.position, target.position);
}

#[test]
fn parachute_timers_blend() {
    let both = blend(
        &player(2, PlayerState::Parachute { timer: 1_000 }, 0, 0),
        &player(2, PlayerState::Parachute { timer: 400 }, 0, 0),
        150,
    );
    assert_eq!(both.state, PlayerState::Parachute { timer: 700 });
    let starting = blend(&player(2, PlayerState::Walk, 0, 0), &player(2, PlayerState::Parachute { timer: 400 }, 0, 0), 150);
    assert_eq!(starting.state, PlayerState::Parachute { timer: 400 });
    let ending = blend(&player(2, PlayerState::Parachute { timer: 400 }, 0, 0), &player(2, PlayerState::Ride { timer: 0 }, 0, 0), 150);
    assert_eq!(ending.state, PlayerState::Parachute { timer: 250 });
    let ended = blend(&player(2, PlayerState::Parachute { timer: 100 }, 0, 0), &player(2, PlayerState::Ride { timer: 0 }, 0, 0), 150);
    assert_eq!(ended.state, PlayerState::Ride { timer: 0 });
}

#[test]
fn display_follows_the_mirror() {
    let shown = vec![player(1, PlayerState::Walk, 0, 0), player(2, PlayerState::Walk, 0, 0), player(9, PlayerState::Walk, 0, 0)];
    let mirror = vec![player(2, PlayerState::Walk, 3_000, 0), player(1, PlayerState::Walk, 3_000, 0), player(5, PlayerState::Walk, 3_000, 0)];
    let r = interpolate(&shown, &mirror, 1, 100);
    assert_eq!(r.len(), 3);
    assert_eq!((r[0].id, r[0].position.x), (2, 1_000));
    assert_eq!((r[1].id, r[1].position.x), (1, 3_000));
    assert_eq!((r[2].id, r[2].position.x), (5, 3_000));
}

#[test]
fn snapshots_replace_others_and_keep_self() {
    let me = player(1, PlayerState::Walk, 111, -5);
    let mut c = ClientReconciler::new(1, Some(me));
    let snap = vec![player(1, PlayerState::Walk, 999, 0), player(2, PlayerState::Walk, 7, 0)];
    c.apply_snapshot(&snap, 4);
    assert_eq!(c.last_model_tick, 4);
    assert_eq!(c.players.len(), 2);
    let own = c.players.iter().find(|p| p.id == 1).unwrap();
    assert_eq!(own.position.x, 111);
    let other = c.players.iter().find(|p| p.id == 2).unwrap();
    assert_eq!(other.position.x, 7);
    let moved = vec![player(2, PlayerState::Walk, 8, 0)];
    c.apply_snapshot(&moved, 4);
    assert_eq!(c.players.iter().find(|p| p.id == 2).unwrap().position.x, 7);
    let gone = vec![player(3, PlayerState::Walk, 1, 0)];
    c.apply_snapshot(&gone, 5);
    let mut ids: Vec<i64> = c.players.iter().map(|p| p.id).collect();
    ids.sort();
    assert_eq!(ids, vec![1, 3]);
    c.update_interpolated(5);
    assert_eq!(c.interpolated_players.len(), 2);
}

#[test]
fn local_step_releases_and_scores() {
    let cfg = config();
    let track = slope();
    let mut me = player(1, PlayerState::SpawnWalk, 0, 0);
    me.seen_no_avalanche = false;
    let mut c = ClientReconciler::new(1, Some(me));
    assert_eq!(c.local_step(None, &cfg, &track, 5), None);
    assert!(c.players[0].seen_no_avalanche);
    assert_eq!(c.local_step(Some(10_000), &cfg, &track, 5), None);
    assert_eq!(c.players[0].state, PlayerState::Ride { timer: 5 });
    let mut down = player(1, PlayerState::Crash {
        timer: 2_001,
        ski_velocity: Vec2 { x: 0, y: 0 },
        ski_rotation: 0,
        crash_position: Vec2 { x: 0, y: 0 },
    }, 0, -40_000);
    down.start_y = 0;
    let mut d = ClientReconciler::new(1, Some(down));
    assert_eq!(d.local_step(None, &cfg, &track, 5), Some(4_000));
    assert_eq!(d.players[0].state, PlayerState::SpawnWalk);
    assert_eq!(d.players[0].position.y, 0);
}

#[test]
fn space_on_the_detonator_starts_the_race() {
    let cfg = config();
    let track = slope();
    let mut c = ClientReconciler::new(1, Some(player(1, PlayerState::SpawnWalk, 500, 0)));
    assert!(c.press_space(None, 2_000, &cfg, &track));
    let mut far = ClientReconciler::new(1, Some(player(1, PlayerState::SpawnWalk, 5_000, 0)));
    assert!(!far.press_space(None, 2_000, &cfg, &track));
    let mut nobody = ClientReconciler::new(1, None);
    assert!(!nobody.press_space(None, 2_000, &cfg, &track));
}

#[test]
fn space_during_a_race_drops_a_parachute() {
    let cfg = config();
    let track = slope();
    let mut c = ClientReconciler::new(1, Some(player(1, PlayerState::SpawnWalk, 5_000, 0)));
    c.press_space(Some(-10_000), 2_000, &cfg, &track);
    let p = &c.players[0];
    // 20 units behind the start, then 6 more for the drop
    assert_eq!(p.position.y, -26_000);
    assert_eq!(p.start_y, -26_000);
    assert_eq!(p.position.x, 2_600);
    assert_eq!(p.state, PlayerState::Parachute { timer: 3_000 });
}

#[test]
fn space_sets_a_walker_skiing() {
    let cfg = config();
    let track = slope();
    let mut c = ClientReconciler::new(1, Some(player(1, PlayerState::Walk, 5_000, -3_000)));
    c.press_space(Some(-10_000), 2_000, &cfg, &track);
    assert_eq!(c.players[0].state, PlayerState::Ride { timer: 0 });
}
