use downhill::config::{ObstacleKind, TrackConfig};
use downhill::geometry::Vec2;
use downhill::track::{Obstacle, ShapePoint, Track};

fn track_config() -> TrackConfig {
    TrackConfig { length: 200_000, width: 20_000, safe_middle: 5_000, obstacles_density: 200, spawn_area: 20_000 }
}

fn kinds() -> Vec<ObstacleKind> {
    vec![
        ObstacleKind { index: 0, hitbox_radius: 500, spawn_weight: 1 },
        ObstacleKind { index: 1, hitbox_radius: 1_000, spawn_weight: 2 },
    ]
}

fn check_layout(track: &Track, config: &TrackConfig) {
    assert!(track.shape.len() >= 2);
    for w in track.shape.windows(2) {
        assert!(w[0].y > w[1].y);
    }
    for p in &track.shape {
        assert!(p.left < p.right);
    }
    for w in track.obstacles.windows(2) {
        assert!(w[0].position.y >= w[1].position.y);
    }
    for (i, a) in track.obstacles.iter().enumerate() {
        assert!(a.position.y >= -config.length && a.position.y < -config.spawn_area);
        let (l, r) = track.at(a.position.y);
        let off = 2 * a.position.x - (l + r);
        assert!(off.abs() >= 2 * config.safe_middle);
        assert!(a.position.x >= l + a.radius && a.position.x <= r - a.radius);
        for b in track.obstacles.iter().skip(i + 1) {
            let dx = (a.position.x - b.position.x) as i128;
            let dy = (a.position.y - b.position.y) as i128;
            let rr = (a.radius + b.radius) as i128;
            assert!(dx * dx + dy * dy >= rr * rr);
        }
    }
}

#[test]
fn generated_tracks_keep_their_layout() {
    let config = track_config();
    for seed in [0u64, 1, 7, 42, 1234] {
        let track = Track::new(seed, &config, &kinds());
        check_layout(&track, &config);
        assert!(!track.obstacles.is_empty());
    }
}

#[test]
fn generated_shape_has_ten_samples_per_step() {
    let config = track_config();
    let track = Track::new(3, &config, &kinds());
    // twenty controls, nineteen steps between them
    assert_eq!(track.shape.len(), 190);
    assert_eq!(track.shape[0].y, 0);
    assert_eq!(track.shape[1].y, -1_000);
    assert_eq!(track.shape[0].left, -20_000);
    assert_eq!(track.shape[0].right, 20_000);
    for p in &track.shape {
        assert_eq!(p.right - p.left, 40_000);
    }
}

#[test]
fn same_seed_gives_same_track() {
    let config = track_config();
    let a = Track::new(99, &config, &kinds());
    let b = Track::new(99, &config, &kinds());
    assert_eq!(a.shape, b.shape);
    assert_eq!(a.obstacles, b.obstacles);
    let c = Track::new(100, &config, &kinds());
    assert!(a.shape != c.shape || a.obstacles != c.obstacles);
}

#[test]
fn tracks_without_weights_have_no_obstacles() {
    let config = track_config();
    let none = vec![ObstacleKind { index: 0, hitbox_radius: 500, spawn_weight: 0 }];
    let track = Track::new(5, &config, &none);
    assert!(track.obstacles.is_empty());
}

fn hand_track() -> Track {
    Track {
        obstacles: vec![
            Obstacle { index: 0, radius: 500, position: Vec2 { x: 1_000, y: -5_000 } },
            Obstacle { index: 1, radius: 500, position: Vec2 { x: -1_000, y: -12_000 } },
            Obstacle { index: 0, radius: 500, position: Vec2 { x: 3_000, y: -12_000 } },
            Obstacle { index: 1, radius: 500, position: Vec2 { x: 0, y: -30_000 } },
        ],
        shape: vec![
            ShapePoint { y: 0, left: -10_000, right: 10_000 },
            ShapePoint { y: -10_000, left: -8_000, right: 14_000 },
            ShapePoint { y: -20_000, left: -12_000, right: 6_000 },
        ],
    }
}

#[test]
fn bounds_interpolate_between_samples() {
    let track = hand_track();
    assert_eq!(track.at(-5_000), (-9_000, 12_000));
    assert_eq!(track.at(-2_500), (-9_500, 11_000));
    assert_eq!(track.at(-15_000), (-10_000, 10_000));
    assert_eq!(track.at(-10_000), (-8_000, 14_000));
    // rounding goes down
    assert_eq!(track.at(-1), (-10_000, 10_000));
    assert_eq!(track.at(-3), (-10_000, 10_001));
    assert_eq!(track.at(-10_001), (-8_001, 13_999));
}

#[test]
fn bounds_clamp_beyond_the_samples() {
    let track = hand_track();
    assert_eq!(track.at(0), (-10_000, 10_000));
    assert_eq!(track.at(5_000), (-10_000, 10_000));
    assert_eq!(track.at(-20_000), (-12_000, 6_000));
    assert_eq!(track.at(-50_000), (-12_000, 6_000));
}

#[test]
fn obstacle_queries_return_the_band() {
    let track = hand_track();
    let band = track.query_obstacles(-4_000, -13_000);
    assert_eq!(band.len(), 3);
    assert_eq!(band[0].position.y, -5_000);
    assert_eq!(band[2].position.y, -12_000);
    assert_eq!(track.query_obstacles(-12_000, -12_000).len(), 2);
    assert_eq!(track.query_obstacles(-13_000, -29_000).len(), 0);
    assert_eq!(track.query_obstacles(0, -100_000).len(), 4);
    assert_eq!(track.query_obstacles(-20_000, -10_000).len(), 0);
}

#[test]
fn shape_queries_return_the_band() {
    let track = hand_track();
    let band = track.query_shape(-5_000, -20_000);
    assert_eq!(band.len(), 2);
    assert_eq!(band[0].y, -10_000);
    assert_eq!(track.query_shape(1_000, -1_000).len(), 1);
}
