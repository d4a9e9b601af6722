//! Players, their state machine, scoring and state transitions.
use vstd::prelude::*;
use crate::config::{Config, TIME_LIMIT};
use crate::geometry::{clamp, clamp_spec, Vec2, COORD_LIMIT, RADIUS_LIMIT, SPEED_LIMIT, UNIT};

verus! {

/// Identifier of a connected player.
pub type Id = i64;

/// Time a crashed player lies still before recovering, in milliseconds.
pub const CRASH_GRACE: i64 = 2000;

/// Where a player is in the cycle of a race.
#[derive(Clone, Copy, Debug, PartialEq, Eq, Structural)]
pub enum PlayerState {
    /// Before the race: walking on the start line.
    SpawnWalk,
    /// Walking after a crash.
    Walk,
    /// Skiing; `timer` counts the time since setting off.
    Ride { timer: i64 },
    /// Down after a collision; the rest records the moment of impact.
    Crash { timer: i64, ski_velocity: Vec2, ski_rotation: i64, crash_position: Vec2 },
    /// Dropping in from the air; `timer` counts down to landing.
    Parachute { timer: i64 },
}

impl PlayerState {
    pub open spec fn can_crash_spec(self, config: Config) -> bool {
        match self {
            PlayerState::Ride { timer } => timer > config.invincibility_time,
            _ => false,
        }
    }

    /// Whether a collision would crash a player in this state: only a rider
    /// past the invincibility time can crash.
    pub fn can_crash(&self, config: &Config) -> (r: bool)
        ensures
            r == self.can_crash_spec(*config),
    {
        match self {
            PlayerState::Ride { timer } => *timer > config.invincibility_time,
            _ => false,
        }
    }

    pub open spec fn wf(self) -> bool {
        match self {
            PlayerState::Ride { timer } => 0 <= timer <= TIME_LIMIT,
            PlayerState::Crash { timer, ski_velocity, ski_rotation, crash_position } => {
                &&& 0 <= timer <= TIME_LIMIT
                &&& ski_velocity.within(SPEED_LIMIT as int)
                &&& -SPEED_LIMIT <= ski_rotation <= SPEED_LIMIT
                &&& crash_position.within(COORD_LIMIT as int)
            },
            PlayerState::Parachute { timer } => -TIME_LIMIT <= timer <= TIME_LIMIT,
            _ => true,
        }
    }
}

/// A player. `config` is the player's cosmetic skin description, carried as text.
#[derive(Clone, Debug)]
pub struct Player {
    pub id: Id,
    pub start_y: i64,
    pub emote: Option<(i64, usize)>,
    pub name: String,
    pub position: Vec2,
    pub config: String,
    pub radius: i64,
    /// Lean of the skis, in milliradians.
    pub rotation: i64,
    /// Desired direction, each component in thousandths of full deflection.
    pub input: Vec2,
    pub velocity: Vec2,
    pub state: PlayerState,
    pub seen_no_avalanche: bool,
    pub ride_volume: i64,
}

/// Truncating division by ten: thousandths to hundredths, toward zero.
pub open spec fn tenths_toward_zero(v: int) -> int {
    if v >= 0 {
        v / 10
    } else {
        -((-v) / 10)
    }
}

pub open spec fn score_spec(start_y: int, y: int) -> int {
    clamp_spec(tenths_toward_zero(start_y - y), i32::MIN as int, i32::MAX as int)
}

/// The state a player enters on crashing: what it had at the moment of impact.
pub open spec fn crashed(p: Player) -> PlayerState {
    PlayerState::Crash { timer: 0, ski_velocity: p.velocity, ski_rotation: p.rotation, crash_position: p.position }
}

impl Player {
    /// Limits that keep every quantity of the player within machine range.
    pub open spec fn wf(&self) -> bool {
        &&& 0 <= self.radius <= RADIUS_LIMIT
        &&& self.position.within(COORD_LIMIT as int)
        &&& -COORD_LIMIT <= self.start_y <= COORD_LIMIT
        &&& self.velocity.within(SPEED_LIMIT as int)
        &&& -SPEED_LIMIT <= self.rotation <= SPEED_LIMIT
        &&& self.input.within(UNIT as int)
        &&& self.state.wf()
    }

    /// Equality of every field, names and skins compared by content.
    pub open spec fn same(&self, o: Player) -> bool {
        &&& self.id == o.id
        &&& self.start_y == o.start_y
        &&& self.emote == o.emote
        &&& self.name@ == o.name@
        &&& self.position == o.position
        &&& self.config@ == o.config@
        &&& self.radius == o.radius
        &&& self.rotation == o.rotation
        &&& self.input == o.input
        &&& self.velocity == o.velocity
        &&& self.state == o.state
        &&& self.seen_no_avalanche == o.seen_no_avalanche
        &&& self.ride_volume == o.ride_volume
    }

    /// Whether the player's values lie within the limits of `wf`.
    pub fn within_limits(&self) -> (r: bool)
        ensures
            r == self.wf(),
    {
        let in_coord = |v: Vec2| -> (b: bool)
            ensures b == v.within(COORD_LIMIT as int)
        { -COORD_LIMIT <= v.x && v.x <= COORD_LIMIT && -COORD_LIMIT <= v.y && v.y <= COORD_LIMIT };
        let in_speed = |v: Vec2| -> (b: bool)
            ensures b == v.within(SPEED_LIMIT as int)
        { -SPEED_LIMIT <= v.x && v.x <= SPEED_LIMIT && -SPEED_LIMIT <= v.y && v.y <= SPEED_LIMIT };
        let state_ok = match self.state {
            PlayerState::Ride { timer } => 0 <= timer && timer <= TIME_LIMIT,
            PlayerState::Crash { timer, ski_velocity, ski_rotation, crash_position } => {
                0 <= timer && timer <= TIME_LIMIT && in_speed(ski_velocity) && -SPEED_LIMIT <= ski_rotation
                    && ski_rotation <= SPEED_LIMIT && in_coord(crash_position)
            },
            PlayerState::Parachute { timer } => -TIME_LIMIT <= timer && timer <= TIME_LIMIT,
            _ => true,
        };
        0 <= self.radius && self.radius <= RADIUS_LIMIT && in_coord(self.position) && -COORD_LIMIT <= self.start_y
            && self.start_y <= COORD_LIMIT && in_speed(self.velocity) && -SPEED_LIMIT <= self.rotation
            && self.rotation <= SPEED_LIMIT && -UNIT <= self.input.x && self.input.x <= UNIT && -UNIT
            <= self.input.y && self.input.y <= UNIT && state_ok
    }

    /// A copy of the player.
    pub fn duplicate(&self) -> (r: Player)
        ensures
            r.same(*self),
    {
        Player {
            id: self.id,
            start_y: self.start_y,
            emote: self.emote,
            name: self.name.clone(),
            position: self.position,
            config: self.config.clone(),
            radius: self.radius,
            rotation: self.rotation,
            input: self.input,
            velocity: self.velocity,
            state: self.state,
            seen_no_avalanche: self.seen_no_avalanche,
            ride_volume: self.ride_volume,
        }
    }

    /// The score of the run: a hundred points per unit descended since
    /// `start_y`, truncated toward zero, saturated to `i32`.
    pub fn score(&self) -> (r: i32)
        requires
            -COORD_LIMIT <= self.start_y <= COORD_LIMIT,
            -COORD_LIMIT <= self.position.y <= COORD_LIMIT,
        ensures
            r == score_spec(self.start_y as int, self.position.y as int),
    {
        self.score_from(self.start_y)
    }

    /// The points of a descent from `start_y` to the player's position.
    pub fn score_from(&self, start_y: i64) -> (r: i32)
        requires
            -COORD_LIMIT <= start_y <= COORD_LIMIT,
            -COORD_LIMIT <= self.position.y <= COORD_LIMIT,
        ensures
            r == score_spec(start_y as int, self.position.y as int),
    {
        let d: i64 = start_y - self.position.y;
        let t: i64 = if d >= 0 {
            d / 10
        } else {
            -((-d) / 10)
        };
        clamp(t, i32::MIN as i64, i32::MAX as i64) as i32
    }

    /// Back to the start line: walking at its middle, at rest, with a new run
    /// starting there.
    pub fn respawn(&mut self)
        ensures
            *final(self) == respawned(*old(self)),
    {
        self.state = PlayerState::SpawnWalk;
        self.position = Vec2 { x: 0, y: 0 };
        self.velocity = Vec2 { x: 0, y: 0 };
        self.rotation = 0;
        self.start_y = 0;
        self.seen_no_avalanche = false;
    }
}

/// Whether the avalanche has passed the player.
pub open spec fn overtaken(p: Player, avalanche: Option<i64>) -> bool {
    match avalanche {
        Some(a) => p.position.y > a,
        None => false,
    }
}

/// The player after the avalanche's check: crashed where it has passed a
/// player that is neither on the start line nor already down.
pub open spec fn caught(p: Player, avalanche: Option<i64>) -> Player {
    if overtaken(p, avalanche) && !(p.state is SpawnWalk) && !(p.state is Crash) {
        Player { state: crashed(p), ..p }
    } else {
        p
    }
}

/// The player after respawning.
pub open spec fn respawned(p: Player) -> Player {
    Player {
        state: PlayerState::SpawnWalk,
        position: Vec2 { x: 0, y: 0 },
        velocity: Vec2 { x: 0, y: 0 },
        rotation: 0,
        start_y: 0,
        seen_no_avalanche: false,
        ..p
    }
}

/// What a crashed player does once its grace time is over, if anything:
/// `Some(score)` with the player respawned where the avalanche has passed it
/// or is gone; otherwise back to riding or walking, as the config allows.
pub open spec fn recovered(p: Player, avalanche: Option<i64>, config: Config) -> (Player, Option<i32>) {
    match p.state {
        PlayerState::Crash { timer, .. } => {
            if timer <= CRASH_GRACE {
                (p, None)
            } else if avalanche.is_none() || overtaken(p, avalanche) {
                (respawned(p), Some(score_spec(p.start_y as int, p.position.y as int) as i32))
            } else if config.auto_continue {
                (Player { state: PlayerState::Ride { timer: 0 }, ..p }, None)
            } else if config.enable_walk {
                (Player { state: PlayerState::Walk, ..p }, None)
            } else {
                (p, None)
            }
        },
        _ => (p, None),
    }
}

/// Whether `x` lies on the detonator that starts the race.
pub open spec fn on_detonator(x: int) -> bool {
    -UNIT <= x < 2 * UNIT
}

/// Whether a player at `x` may start the race.
pub fn can_detonate(x: i64) -> (r: bool)
    ensures
        r == on_detonator(x as int),
{
    x >= -UNIT && x < 2 * UNIT
}

impl Player {
    /// Enters the crash state, recording velocity, rotation and position.
    pub fn crash(&mut self)
        ensures
            *final(self) == (Player { state: crashed(*old(self)), ..*old(self) }),
    {
        self.state = PlayerState::Crash {
            timer: 0,
            ski_velocity: self.velocity,
            ski_rotation: self.rotation,
            crash_position: self.position,
        };
    }

    /// The avalanche crashes a player it has passed, whatever the player's
    /// state, but for one on the start line and one already down.
    pub fn catch_by_avalanche(&mut self, avalanche: Option<i64>)
        ensures
            *final(self) == caught(*old(self), avalanche),
    {
        if let Some(a) = avalanche {
            if self.position.y > a {
                match self.state {
                    PlayerState::SpawnWalk | PlayerState::Crash { .. } => {},
                    _ => self.crash(),
                }
            }
        }
    }

    /// A player on the start line who has seen the slope clear sets off when
    /// the avalanche is released.
    pub fn set_off(&mut self, avalanche: Option<i64>)
        ensures
            if old(self).seen_no_avalanche && avalanche.is_some() && old(self).state is SpawnWalk {
                *final(self) == (Player { state: PlayerState::Ride { timer: 0 }, ..*old(self) })
            } else {
                *final(self) == *old(self)
            },
    {
        if self.seen_no_avalanche && avalanche.is_some() {
            if let PlayerState::SpawnWalk = self.state {
                self.state = PlayerState::Ride { timer: 0 };
            }
        }
    }

    /// Ends a crash whose grace time is over; returns the score of a run
    /// that ends here.
    pub fn recover(&mut self, avalanche: Option<i64>, config: &Config) -> (r: Option<i32>)
        requires
            old(self).wf(),
        ensures
            *final(self) == recovered(*old(self), avalanche, *config).0,
            r == recovered(*old(self), avalanche, *config).1,
    {
        if let PlayerState::Crash { timer, .. } = self.state {
            if timer > CRASH_GRACE {
                let caught = match avalanche {
                    Some(a) => self.position.y > a,
                    None => true,
                };
                if caught {
                    let score = self.score();
                    self.respawn();
                    return Some(score);
                } else if config.auto_continue {
                    self.state = PlayerState::Ride { timer: 0 };
                } else if config.enable_walk {
                    self.state = PlayerState::Walk;
                }
            }
        }
        None
    }
}

/// The avalanche's crash is idempotent: a second check against the same
/// avalanche changes nothing, and a player already down stays as it is.
pub proof fn law_caught_idempotent(p: Player, avalanche: Option<i64>)
    ensures
        caught(caught(p, avalanche), avalanche) == caught(p, avalanche),
        p.state is Crash ==> caught(p, avalanche) == p,
{
}

/// A crashed player past its grace time, with the avalanche gone or past
/// it, respawns on the start line, not having seen a clear slope yet, and
/// reports the score of its run: a hundred points per unit descended from
/// where the run started, truncated toward zero.
pub proof fn law_respawn_scores(p: Player, avalanche: Option<i64>, config: Config)
    requires
        p.state matches PlayerState::Crash { timer, .. } && timer > CRASH_GRACE,
        avalanche is None || overtaken(p, avalanche),
    ensures
        recovered(p, avalanche, config).1 == Some(score_spec(p.start_y as int, p.position.y as int) as i32),
        recovered(p, avalanche, config).0.state == PlayerState::SpawnWalk,
        recovered(p, avalanche, config).0.position.y == 0,
        recovered(p, avalanche, config).0.start_y == 0,
        !recovered(p, avalanche, config).0.seen_no_avalanche,
{
}

pub open spec fn has_id(ps: Seq<Player>, id: Id) -> bool {
    exists|i: int| 0 <= i < ps.len() && ps[i].id == id
}

/// Whether no two players share an id.
pub open spec fn ids_unique(ps: Seq<Player>) -> bool {
    forall|i: int, j: int| 0 <= i < ps.len() && 0 <= j < ps.len() && i != j ==> ps[i].id != ps[j].id
}

pub open spec fn players_wf(ps: Seq<Player>) -> bool {
    forall|i: int| 0 <= i < ps.len() ==> (#[trigger] ps[i]).wf()
}

/// Index of the player with `id` in `ps`, if any.
pub fn position_of(ps: &Vec<Player>, id: Id) -> (r: Option<usize>)
    ensures
        r matches Some(i) ==> i < ps@.len() && ps@[i as int].id == id,
        r is None ==> !has_id(ps@, id),
{
    let mut i: usize = 0;
    while i < ps.len()
        invariant
            i <= ps@.len(),
            forall|j: int| 0 <= j < i ==> ps@[j].id != id,
        decreases ps@.len() - i,
    {
        if ps[i].id == id {
            return Some(i);
        }
        i = i + 1;
    }
    None
}

} // verus!
