//! The race's tunables and the obstacle catalogue, with the limits that
//! keep every computation within machine range.
use vstd::prelude::*;
use crate::geometry::{COORD_LIMIT, RADIUS_LIMIT, SPEED_LIMIT};

verus! {

/// Largest track length, in thousandths.
pub const TRACK_LENGTH_LIMIT: i64 = 0x10_0000_0000;

/// Largest track half-width, in thousandths.
pub const TRACK_WIDTH_LIMIT: i64 = 0x1_0000_0000;

/// Largest obstacle density, in placement attempts per thousand square units.
pub const DENSITY_LIMIT: u64 = 0x4000;

/// Largest spawn weight of one obstacle kind.
pub const WEIGHT_LIMIT: u64 = 0x1_0000_0000;

/// Largest number of obstacle kinds in a catalogue.
pub const KINDS_LIMIT: usize = 0x1_0000;

/// Largest duration setting, in milliseconds.
pub const TIME_LIMIT: i64 = 0x100_0000_0000;

/// Spacing of the control points of a track's boundary curves.
pub const CONTROL_STEP: i64 = 10000;

/// The avalanche and its acceleration.
#[derive(Clone, Copy, Debug, PartialEq, Eq, Structural)]
pub struct AvalancheConfig {
    /// Speed when released, in thousandths per second.
    pub min_speed: i64,
    /// Highest speed, in thousandths per second.
    pub max_speed: i64,
    /// Gain of speed per second, in thousandths per second squared.
    pub acceleration: i64,
    /// Position at which it is released.
    pub start: i64,
}

/// Motion constants of a player.
#[derive(Clone, Copy, Debug, PartialEq, Eq, Structural)]
pub struct PlayerConfig {
    /// Angular rate of steering, in milliradians per second.
    pub rotation_speed: i64,
    /// Largest lean angle, in milliradians.
    pub rotation_limit: i64,
    pub max_speed: i64,
    pub max_walk_speed: i64,
    /// Rate at which sideways speed follows the skis, per second squared.
    pub friction: i64,
    pub downhill_acceleration: i64,
    pub walk_acceleration: i64,
    pub crash_deceleration: i64,
    /// Duration of a parachute drop, in milliseconds.
    pub parachute_time: i64,
}

/// Geometry of generated tracks.
#[derive(Clone, Copy, Debug, PartialEq, Eq, Structural)]
pub struct TrackConfig {
    /// Length of the slope.
    pub length: i64,
    /// Distance from the middle line to each boundary.
    pub width: i64,
    /// Half-width of the obstacle-free corridor along the middle.
    pub safe_middle: i64,
    /// Placement attempts per thousand square units.
    pub obstacles_density: u64,
    /// Length of the obstacle-free area below the start line.
    pub spawn_area: i64,
}

/// One entry of the obstacle catalogue.
#[derive(Clone, Copy, Debug, PartialEq, Eq, Structural)]
pub struct ObstacleKind {
    /// Identifier of the kind, for drawing.
    pub index: usize,
    pub hitbox_radius: i64,
    pub spawn_weight: u64,
}

/// Every tunable of the race.
#[derive(Clone, Copy, Debug, PartialEq, Eq, Structural)]
pub struct Config {
    /// Time a rider spends immune to crashes after setting off, in milliseconds.
    pub invincibility_time: i64,
    pub auto_continue: bool,
    pub enable_walk: bool,
    pub enable_parachute: bool,
    pub avalanche: AvalancheConfig,
    pub track: TrackConfig,
    pub player: PlayerConfig,
}

pub open spec fn in_range(v: i64, lo: int, hi: int) -> bool {
    lo <= v <= hi
}

impl AvalancheConfig {
    pub open spec fn wf(self) -> bool {
        &&& 0 <= self.min_speed <= self.max_speed <= SPEED_LIMIT
        &&& in_range(self.acceleration, 0, SPEED_LIMIT as int)
        &&& in_range(self.start, -COORD_LIMIT as int, COORD_LIMIT as int)
    }
}

impl PlayerConfig {
    pub open spec fn wf(self) -> bool {
        &&& in_range(self.rotation_speed, 0, SPEED_LIMIT as int)
        &&& in_range(self.rotation_limit, 0, SPEED_LIMIT as int)
        &&& in_range(self.max_speed, 0, SPEED_LIMIT as int)
        &&& in_range(self.max_walk_speed, 0, SPEED_LIMIT as int)
        &&& in_range(self.friction, 0, SPEED_LIMIT as int)
        &&& in_range(self.downhill_acceleration, 0, SPEED_LIMIT as int)
        &&& in_range(self.walk_acceleration, 0, SPEED_LIMIT as int)
        &&& in_range(self.crash_deceleration, 0, SPEED_LIMIT as int)
        &&& in_range(self.parachute_time, 0, TIME_LIMIT as int)
    }
}

impl TrackConfig {
    pub open spec fn wf(self) -> bool {
        &&& CONTROL_STEP < self.length <= TRACK_LENGTH_LIMIT
        &&& 0 < self.width <= TRACK_WIDTH_LIMIT
        &&& 0 <= self.safe_middle <= self.width
        &&& self.obstacles_density <= DENSITY_LIMIT
        &&& 0 <= self.spawn_area < self.length
    }
}

impl ObstacleKind {
    pub open spec fn wf(self) -> bool {
        &&& 0 <= self.hitbox_radius <= RADIUS_LIMIT
        &&& self.spawn_weight <= WEIGHT_LIMIT
    }
}

/// Whether every entry of an obstacle catalogue is within limits.
pub open spec fn kinds_wf(kinds: Seq<ObstacleKind>) -> bool {
    &&& kinds.len() <= KINDS_LIMIT
    &&& forall|i: int| 0 <= i < kinds.len() ==> (#[trigger] kinds[i]).wf()
}

impl Config {
    pub open spec fn wf(self) -> bool {
        &&& in_range(self.invincibility_time, 0, TIME_LIMIT as int)
        &&& self.avalanche.wf()
        &&& self.track.wf()
        &&& self.player.wf()
    }
}

fn in_range_exec(v: i64, lo: i64, hi: i64) -> (r: bool)
    ensures
        r == in_range(v, lo as int, hi as int),
{
    lo <= v && v <= hi
}

impl Config {
    /// Whether every tunable lies within the limits of `wf`.
    pub fn is_valid(&self) -> (r: bool)
        ensures
            r == self.wf(),
    {
        let a = &self.avalanche;
        let p = &self.player;
        let t = &self.track;
        let avalanche_ok = 0 <= a.min_speed && a.min_speed <= a.max_speed && a.max_speed <= SPEED_LIMIT
            && in_range_exec(a.acceleration, 0, SPEED_LIMIT) && in_range_exec(a.start, -COORD_LIMIT, COORD_LIMIT);
        let player_ok = in_range_exec(p.rotation_speed, 0, SPEED_LIMIT) && in_range_exec(p.rotation_limit, 0, SPEED_LIMIT)
            && in_range_exec(p.max_speed, 0, SPEED_LIMIT) && in_range_exec(p.max_walk_speed, 0, SPEED_LIMIT)
            && in_range_exec(p.friction, 0, SPEED_LIMIT) && in_range_exec(p.downhill_acceleration, 0, SPEED_LIMIT)
            && in_range_exec(p.walk_acceleration, 0, SPEED_LIMIT) && in_range_exec(p.crash_deceleration, 0, SPEED_LIMIT)
            && in_range_exec(p.parachute_time, 0, TIME_LIMIT);
        let track_ok = CONTROL_STEP < t.length && t.length <= TRACK_LENGTH_LIMIT && 0 < t.width && t.width
            <= TRACK_WIDTH_LIMIT && 0 <= t.safe_middle && t.safe_middle <= t.width && t.obstacles_density
            <= DENSITY_LIMIT && 0 <= t.spawn_area && t.spawn_area < t.length;
        in_range_exec(self.invincibility_time, 0, TIME_LIMIT) && avalanche_ok && player_ok && track_ok
    }
}

/// Whether an obstacle catalogue lies within the limits of `kinds_wf`.
pub fn kinds_valid(kinds: &Vec<ObstacleKind>) -> (r: bool)
    ensures
        r == kinds_wf(kinds@),
{
    if kinds.len() > KINDS_LIMIT {
        return false;
    }
    let mut i: usize = 0;
    while i < kinds.len()
        invariant
            i <= kinds@.len(),
            forall|j: int| 0 <= j < i ==> (#[trigger] kinds@[j]).wf(),
        decreases kinds@.len() - i,
    {
        let k = &kinds[i];
        if !(0 <= k.hitbox_radius && k.hitbox_radius <= RADIUS_LIMIT && k.spawn_weight <= WEIGHT_LIMIT) {
            return false;
        }
        i = i + 1;
    }
    true
}

} // verus!
