use downhill::config::{AvalancheConfig, Config, ObstacleKind, PlayerConfig, TrackConfig};
use downhill::geometry::Vec2;
use downhill::highscores::parse_highscores;
use downhill::player::{Player, PlayerState};
use downhill::race::{Event, Message, Model, SharedModel};
use downhill::scores::{record_score, record_scores, sort_by_score_desc};
use downhill::track::{ShapePoint, Track};

fn straight() -> Track {
    Track {
        obstacles: Vec::new(),
        shape: vec![
            ShapePoint { y: 0, left: -50_000, right: 50_000 },
            ShapePoint { y: -200_000, left: -50_000, right: 50_000 },
        ],
    }
}

fn config() -> Config {
    Config {
        invincibility_time: 1_000,
        auto_continue: false,
        enable_walk: true,
        enable_parachute: true,
        avalanche: AvalancheConfig { min_speed: 2_000, max_speed: 10_000, acceleration: 500, start: 10_000 },
        track: TrackConfig { length: 100_000, width: 20_000, safe_middle: 5_000, obstacles_density: 100, spawn_area: 20_000 },
        player: PlayerConfig {
            rotation_speed: 2_000,
            rotation_limit: 1_000,
            max_speed: 20_000,
            max_walk_speed: 3_000,
            friction: 10_000,
            downhill_acceleration: 5_000,
            walk_acceleration: 10_000,
            crash_deceleration: 5_000,
            parachute_time: 3_000,
        },
    }
}

fn kinds() -> Vec<ObstacleKind> {
    vec![ObstacleKind { index: 0, hitbox_radius: 700, spawn_weight: 1 }]
}

fn player(id: i64, name: &str, state: PlayerState, y: i64) -> Player {
    Player {
        id,
        start_y: 0,
        emote: None,
        name: name.to_string(),
        position: Vec2 { x: 100, y },
        config: String::new(),
        radius: 500,
        rotation: 0,
        input: Vec2 { x: 0, y: 0 },
        velocity: Vec2 { x: 0, y: 0 },
        state,
        seen_no_avalanche: true,
        ride_volume: 0,
    }
}

fn model() -> SharedModel {
    Model::new(config(), kinds(), 11, Vec::new())
}

#[test]
fn new_model_is_at_rest() {
    let m = model();
    assert_eq!(m.tick, 0);
    assert_eq!(m.avalanche_position, None);
    assert_eq!(m.avalanche_speed, 2_000);
    assert!(m.players.is_empty());
    assert!(m.winner.is_none());
    assert!(m.track.shape.len() >= 2);
}

#[test]
fn ids_are_handed_out_in_order() {
    let mut m = model();
    assert_eq!(m.new_player(), 0);
    assert_eq!(m.new_player(), 1);
    assert_eq!(m.next_id, 2);
}

#[test]
fn updates_from_another_sender_are_dropped() {
    let mut m = model();
    m.handle_message(1, Message::UpdatePlayer(player(2, "b", PlayerState::Walk, -10)));
    assert!(m.players.is_empty());
    m.handle_message(2, Message::UpdatePlayer(player(2, "b", PlayerState::Walk, -10)));
    assert_eq!(m.players.len(), 1);
    m.handle_message(2, Message::UpdatePlayer(player(2, "b", PlayerState::Walk, -20)));
    assert_eq!(m.players.len(), 1);
    assert_eq!(m.players[0].position.y, -20);
    let mut wild = player(2, "b", PlayerState::Walk, -30);
    wild.input.x = 5_000;
    m.handle_message(2, Message::UpdatePlayer(wild));
    assert_eq!(m.players[0].position.y, -20);
}

#[test]
fn scores_need_a_known_sender() {
    let mut m = model();
    m.handle_message(3, Message::Score(50));
    assert!(m.scores.is_empty());
    m.handle_message(3, Message::UpdatePlayer(player(3, "c", PlayerState::Walk, 0)));
    m.handle_message(3, Message::Score(50));
    assert_eq!(m.scores, vec![("c".to_string(), 50)]);
}

#[test]
fn disconnect_removes_the_player() {
    let mut m = model();
    m.handle_message(3, Message::UpdatePlayer(player(3, "c", PlayerState::Walk, 0)));
    m.handle_message(4, Message::UpdatePlayer(player(4, "d", PlayerState::Walk, 0)));
    m.handle_message(3, Message::Disconnect);
    assert_eq!(m.players.len(), 1);
    assert_eq!(m.players[0].id, 4);
    m.drop_player(4);
    assert!(m.players.is_empty());
}

#[test]
fn start_the_race_once() {
    let mut m = model();
    m.handle_message(1, Message::UpdatePlayer(player(1, "a", PlayerState::Walk, -4_000)));
    m.handle_message(1, Message::Score(70));
    m.handle_message(1, Message::StartTheRace);
    assert_eq!(m.avalanche_position, Some(10_000));
    assert!(m.scores.is_empty());
    assert_eq!(m.players[0].position, Vec2 { x: 100, y: 0 });
    m.handle_message(1, Message::UpdatePlayer(player(1, "a", PlayerState::Walk, -4_000)));
    m.handle_message(1, Message::Score(80));
    m.avalanche_position = Some(9_000);
    m.handle_message(1, Message::StartTheRace);
    assert_eq!(m.avalanche_position, Some(9_000));
    assert_eq!(m.scores.len(), 1);
    assert_eq!(m.players[0].position.y, -4_000);
}

#[test]
fn tick_without_avalanche_only_counts() {
    let mut m = model();
    let mut events = Vec::new();
    m.tick(&mut events, 1);
    assert_eq!(m.tick, 1);
    assert_eq!(m.avalanche_position, None);
    assert!(events.is_empty());
}

#[test]
fn avalanche_speeds_up_and_descends() {
    let mut m = model();
    let mut events = Vec::new();
    m.handle_message(1, Message::StartTheRace);
    m.tick(&mut events, 1);
    assert_eq!(m.avalanche_speed, 2_050);
    assert_eq!(m.avalanche_position, Some(9_795));
    let mut last = 9_795;
    for _ in 0..400 {
        m.tick(&mut events, 1);
        assert!(m.avalanche_speed >= 2_000 && m.avalanche_speed <= 10_000);
        match m.avalanche_position {
            Some(p) => {
                assert!(p < last);
                last = p;
            }
            None => break,
        }
    }
    assert_eq!(m.avalanche_speed, 2_000);
    assert_eq!(m.avalanche_position, None);
}

#[test]
fn winner_is_the_rider_furthest_down() {
    let mut m = model();
    m.track = straight();
    let mut events = Vec::new();
    m.handle_message(1, Message::UpdatePlayer(player(1, "a", PlayerState::Ride { timer: 0 }, 0)));
    m.handle_message(2, Message::UpdatePlayer(player(2, "b", PlayerState::SpawnWalk, 0)));
    m.handle_message(1, Message::StartTheRace);
    m.handle_message(1, Message::UpdatePlayer(player(1, "a", PlayerState::Ride { timer: 0 }, -30_000)));
    m.handle_message(2, Message::UpdatePlayer(player(2, "b", PlayerState::SpawnWalk, -90_000)));
    m.tick(&mut events, 1);
    // the rider moved on by half a unit during the step
    assert_eq!(m.players[0].position.y, -30_050);
    assert_eq!(m.winner, Some(("a".to_string(), 3_005)));
}

#[test]
fn race_over_records_highscores() {
    let mut m = Model::new(config(), kinds(), 11, vec![("a".to_string(), 500), ("b".to_string(), 900)]);
    m.track = straight();
    let mut events = Vec::new();
    m.handle_message(1, Message::UpdatePlayer(player(1, "a", PlayerState::SpawnWalk, 0)));
    m.handle_message(2, Message::UpdatePlayer(player(2, "b", PlayerState::SpawnWalk, 0)));
    m.handle_message(1, Message::StartTheRace);
    m.handle_message(1, Message::Score(300));
    m.handle_message(2, Message::Score(800));
    m.handle_message(1, Message::Score(700));
    m.handle_message(2, Message::Score(1_200));
    m.avalanche_position = Some(4_000);
    m.tick(&mut events, 2);
    assert_eq!(m.avalanche_position, None);
    assert_eq!(m.avalanche_speed, 2_000);
    assert!(m.winner.is_none());
    assert!(m.scores.is_empty());
    assert_eq!(events.len(), 1);
    match &events[0] {
        Event::RaceOver(results) => {
            let scores: Vec<i32> = results.iter().map(|e| e.1).collect();
            assert_eq!(scores, vec![1_200, 800, 700, 300]);
        }
    }
    let mut h = m.highscores.clone();
    h.sort();
    assert_eq!(h, vec![("a".to_string(), 700), ("b".to_string(), 1_200)]);
}

#[test]
fn race_without_scores_reports_nothing() {
    let mut m = model();
    let mut events = Vec::new();
    m.handle_message(1, Message::StartTheRace);
    m.avalanche_position = Some(4_000);
    m.tick(&mut events, 2);
    assert_eq!(m.avalanche_position, None);
    assert!(events.is_empty());
}

#[test]
fn race_waits_for_riders_ahead() {
    let mut m = model();
    m.track = straight();
    let mut events = Vec::new();
    m.handle_message(1, Message::UpdatePlayer(player(1, "a", PlayerState::Ride { timer: 0 }, 0)));
    m.handle_message(1, Message::StartTheRace);
    m.handle_message(1, Message::UpdatePlayer(player(1, "a", PlayerState::Ride { timer: 0 }, -60_000)));
    m.avalanche_position = Some(4_000);
    m.tick(&mut events, 2);
    assert!(m.avalanche_position.is_some());
    assert_eq!(m.winner, Some(("a".to_string(), 6_005)));
}

#[test]
fn higher_scores_replace_lower_ones() {
    let mut h: Vec<(String, i32)> = vec![("a".to_string(), 10)];
    record_score(&mut h, &"a".to_string(), 10);
    assert_eq!(h, vec![("a".to_string(), 10)]);
    record_score(&mut h, &"a".to_string(), 9);
    assert_eq!(h, vec![("a".to_string(), 10)]);
    record_score(&mut h, &"a".to_string(), 11);
    assert_eq!(h, vec![("a".to_string(), 11)]);
    record_score(&mut h, &"b".to_string(), -5);
    assert_eq!(h.len(), 1);
    record_score(&mut h, &"b".to_string(), 0);
    assert_eq!(h.len(), 1);
    record_score(&mut h, &"b".to_string(), 1);
    assert_eq!(h, vec![("a".to_string(), 11), ("b".to_string(), 1)]);
}

#[test]
fn merging_keeps_the_best_of_each_name() {
    let mut h: Vec<(String, i32)> = vec![("a".to_string(), 10)];
    let s = vec![("a".to_string(), 30), ("c".to_string(), 5), ("a".to_string(), 20)];
    record_scores(&mut h, &s);
    assert_eq!(h, vec![("a".to_string(), 30), ("c".to_string(), 5)]);
}

#[test]
fn sorting_is_stable_and_descending() {
    let s = vec![("x".to_string(), 1), ("y".to_string(), 5), ("z".to_string(), 1), ("w".to_string(), 7)];
    let r = sort_by_score_desc(s);
    assert_eq!(
        r,
        vec![("w".to_string(), 7), ("y".to_string(), 5), ("x".to_string(), 1), ("z".to_string(), 1)]
    );
    assert!(sort_by_score_desc(Vec::new()).is_empty());
}

#[test]
fn highscores_survive_a_round_trip() {
    let m = Model::new(config(), kinds(), 11, vec![("ann".to_string(), 1_500), ("bo \"b\"".to_string(), -3)]);
    let text = m.highscores_text().unwrap();
    assert!(text.contains("\"ann\": 1500"));
    let mut back = parse_highscores(&text).unwrap();
    back.sort();
    let mut orig = m.highscores.clone();
    orig.sort();
    assert_eq!(back, orig);
}

#[test]
fn highscore_text_is_parsed() {
    let parsed = parse_highscores(&"{\"x\": 3, \"y\": 12}".to_string()).unwrap();
    assert_eq!(parsed, vec![("x".to_string(), 3), ("y".to_string(), 12)]);
    assert!(parse_highscores(&"{}".to_string()).unwrap().is_empty());
    assert!(parse_highscores(&"[1, 2]".to_string()).is_none());
    assert!(parse_highscores(&"{\"x\": 1.5}".to_string()).is_none());
}

#[test]
fn tick_steps_every_player() {
    let mut m = model();
    m.track = straight();
    let mut events = Vec::new();
    m.handle_message(1, Message::UpdatePlayer(player(1, "a", PlayerState::Ride { timer: 0 }, -1_000)));
    m.handle_message(2, Message::UpdatePlayer(player(2, "b", PlayerState::Parachute { timer: 50 }, -2_000)));
    m.tick(&mut events, 1);
    assert_eq!(m.players[0].state, PlayerState::Ride { timer: 100 });
    assert_eq!(m.players[0].position.y, -1_050);
    assert_eq!(m.players[1].state, PlayerState::Ride { timer: 0 });
}

#[test]
fn tick_lets_the_avalanche_catch_riders() {
    let mut m = model();
    m.track = straight();
    let mut events = Vec::new();
    m.handle_message(1, Message::UpdatePlayer(player(1, "a", PlayerState::Ride { timer: 0 }, -1_000)));
    m.handle_message(1, Message::StartTheRace);
    m.handle_message(1, Message::UpdatePlayer(player(1, "a", PlayerState::Ride { timer: 0 }, -1_000)));
    m.avalanche_position = Some(-2_000);
    m.tick(&mut events, 1);
    assert!(matches!(m.players[0].state, PlayerState::Crash { timer: 0, .. }));
}
