//! The motion of a player over one step: walking, skiing, sliding, and the
//! whole per-state step with collisions and the avalanche.
use vstd::prelude::*;
use crate::config::{Config, PlayerConfig, TIME_LIMIT};
use crate::geometry::{clamp, clamp_spec, floor_div, Vec2, COORD_LIMIT, SPEED_LIMIT, UNIT};
use crate::collision::{collided, confined};
use crate::player::{caught, players_wf, Player, PlayerState};
use crate::track::{bounds_at, obstacle_bounded, obstacle_window, Obstacle, Track};

verus! {

/// `v` moved toward `target` by at most `step`.
pub open spec fn approach_spec(v: int, target: int, step: int) -> int {
    if v < target {
        if v + step < target { v + step } else { target }
    } else {
        if v - step > target { v - step } else { target }
    }
}

/// What a rate per second amounts to over `dt` milliseconds, rounded down.
pub open spec fn per_dt(rate: int, dt: int) -> int {
    rate * dt / 1000
}

/// A coordinate advanced by `v` over `dt`, kept within the world.
pub open spec fn advance(p: int, v: int, dt: int) -> int {
    clamp_spec(p + per_dt(v, dt), -COORD_LIMIT as int, COORD_LIMIT as int)
}

pub open spec fn clamp_speed(v: int, max: int) -> int {
    clamp_spec(v, -max, max)
}

/// Walking: the velocity approaches the input times the walking speed at the
/// walking acceleration; then the position follows it.
pub open spec fn walked(p: Player, pc: PlayerConfig, dt: int) -> Player {
    let step = per_dt(pc.walk_acceleration as int, dt);
    let vx = approach_spec(p.velocity.x as int, p.input.x * pc.max_walk_speed / UNIT as int, step);
    let vy = approach_spec(p.velocity.y as int, p.input.y * pc.max_walk_speed / UNIT as int, step);
    Player {
        velocity: Vec2 { x: vx as i64, y: vy as i64 },
        position: Vec2 { x: advance(p.position.x as int, vx, dt) as i64, y: advance(p.position.y as int, vy, dt) as i64 },
        ..p
    }
}

/// Skiing: the lean approaches the input at the steering rate, within the
/// lean limit; the slope pulls downhill, toward negative `y`; the sideways
/// speed follows the skis (the lean times the downhill speed) at the rate of
/// friction; each component within the top speed.
pub open spec fn ridden(p: Player, pc: PlayerConfig, dt: int) -> Player {
    let limit = pc.rotation_limit as int;
    let rot = clamp_spec(
        approach_spec(p.rotation as int, p.input.x * limit / UNIT as int, per_dt(pc.rotation_speed as int, dt)),
        -limit,
        limit,
    );
    let vy = clamp_speed(p.velocity.y - per_dt(pc.downhill_acceleration as int, dt), pc.max_speed as int);
    let side = rot * (-vy) / 1000;
    let vx = clamp_speed(approach_spec(p.velocity.x as int, side, per_dt(pc.friction as int, dt)), pc.max_speed as int);
    Player {
        rotation: rot as i64,
        velocity: Vec2 { x: vx as i64, y: vy as i64 },
        position: Vec2 { x: advance(p.position.x as int, vx, dt) as i64, y: advance(p.position.y as int, vy, dt) as i64 },
        ..p
    }
}

/// Sliding after a crash: the velocity decays toward rest.
pub open spec fn slid(p: Player, pc: PlayerConfig, dt: int) -> Player {
    let step = per_dt(pc.crash_deceleration as int, dt);
    let vx = approach_spec(p.velocity.x as int, 0, step);
    let vy = approach_spec(p.velocity.y as int, 0, step);
    Player {
        velocity: Vec2 { x: vx as i64, y: vy as i64 },
        position: Vec2 { x: advance(p.position.x as int, vx, dt) as i64, y: advance(p.position.y as int, vy, dt) as i64 },
        ..p
    }
}

/// `v` moved toward `target` by at most `step`.
fn approach(v: i128, target: i128, step: i128) -> (r: i128)
    requires
        step >= 0,
        -0x1_0000_0000_0000_0000_0000_0000 <= v <= 0x1_0000_0000_0000_0000_0000_0000,
        -0x1_0000_0000_0000_0000_0000_0000 <= target <= 0x1_0000_0000_0000_0000_0000_0000,
        step <= 0x1_0000_0000_0000_0000_0000_0000,
    ensures
        r == approach_spec(v as int, target as int, step as int),
        v <= target ==> v <= r <= target,
        target <= v ==> target <= r <= v,
{
    if v < target {
        if v + step < target { v + step } else { target }
    } else {
        if v - step > target { v - step } else { target }
    }
}

fn clamp128(v: i128, lo: i128, hi: i128) -> (r: i128)
    requires
        lo <= hi,
    ensures
        r == clamp_spec(v as int, lo as int, hi as int),
        lo <= r <= hi,
{
    if v < lo {
        lo
    } else if v > hi {
        hi
    } else {
        v
    }
}

/// `rate * dt / 1000`, rounded down.
pub(crate) fn per_dt_exec(rate: i64, dt: i64) -> (r: i128)
    requires
        -SPEED_LIMIT <= rate <= SPEED_LIMIT,
        0 < dt <= 1000,
    ensures
        r == per_dt(rate as int, dt as int),
        -SPEED_LIMIT <= r <= SPEED_LIMIT,
{
    assert(-SPEED_LIMIT * 1000 <= rate * dt <= SPEED_LIMIT * 1000) by (nonlinear_arith)
        requires -SPEED_LIMIT <= rate <= SPEED_LIMIT, 0 < dt <= 1000;
    let r = floor_div(rate as i128 * dt as i128, 1000);
    proof {
        vstd::arithmetic::div_mod::lemma_div_is_ordered(rate * dt, SPEED_LIMIT * 1000, 1000);
        vstd::arithmetic::div_mod::lemma_div_is_ordered(-SPEED_LIMIT * 1000, rate * dt, 1000);
    }
    r
}

fn advance_exec(p: i64, v: i128, dt: i64) -> (r: i64)
    requires
        -COORD_LIMIT <= p <= COORD_LIMIT,
        -SPEED_LIMIT <= v <= SPEED_LIMIT,
        0 < dt <= 1000,
    ensures
        r == advance(p as int, v as int, dt as int),
        -COORD_LIMIT <= r <= COORD_LIMIT,
{
    let d = per_dt_exec(v as i64, dt);
    clamp128(p as i128 + d, -COORD_LIMIT as i128, COORD_LIMIT as i128) as i64
}

/// `input * scale / UNIT`, rounded down: a deflection applied to a setting.
fn deflect(input: i64, scale: i64) -> (r: i128)
    requires
        -UNIT <= input <= UNIT,
        0 <= scale <= SPEED_LIMIT,
    ensures
        r == input * scale / UNIT as int,
        -scale <= r <= scale,
{
    assert(-scale * UNIT <= input * scale <= scale * UNIT) by (nonlinear_arith)
        requires -UNIT <= input <= UNIT, 0 <= scale;
    assert(-0x1_0000_0000_0000_0000 <= input * scale <= 0x1_0000_0000_0000_0000) by (nonlinear_arith)
        requires -UNIT <= input <= UNIT, 0 <= scale <= SPEED_LIMIT;
    let r = floor_div(input as i128 * scale as i128, UNIT as i128);
    proof {
        vstd::arithmetic::div_mod::lemma_div_is_ordered(input * scale, scale * UNIT, UNIT as int);
        vstd::arithmetic::div_mod::lemma_div_is_ordered(-scale * UNIT, input * scale, UNIT as int);
        vstd::arithmetic::div_mod::lemma_div_multiples_vanish(scale as int, UNIT as int);
        vstd::arithmetic::div_mod::lemma_div_multiples_vanish(-scale as int, UNIT as int);
        assert(UNIT * scale == scale * UNIT);
        assert(UNIT * (-scale) == -scale * UNIT);
    }
    r
}

impl Player {
    /// One step of walking: see `walked`.
    pub fn walk(&mut self, pc: &PlayerConfig, dt: i64)
        requires
            old(self).wf(),
            pc.wf(),
            0 < dt <= 1000,
        ensures
            *final(self) == walked(*old(self), *pc, dt as int),
            final(self).wf(),
    {
        let step = per_dt_exec(pc.walk_acceleration, dt);
        let tx = deflect(self.input.x, pc.max_walk_speed);
        let ty = deflect(self.input.y, pc.max_walk_speed);
        let vx = approach(self.velocity.x as i128, tx, step);
        let vy = approach(self.velocity.y as i128, ty, step);
        let x = advance_exec(self.position.x, vx, dt);
        let y = advance_exec(self.position.y, vy, dt);
        self.velocity = Vec2 { x: vx as i64, y: vy as i64 };
        self.position = Vec2 { x, y };
    }

    /// One step of skiing: see `ridden`.
    pub fn ride(&mut self, pc: &PlayerConfig, dt: i64)
        requires
            old(self).wf(),
            pc.wf(),
            0 < dt <= 1000,
        ensures
            *final(self) == ridden(*old(self), *pc, dt as int),
            final(self).wf(),
    {
        let limit: i128 = pc.rotation_limit as i128;
        let target = deflect(self.input.x, pc.rotation_limit);
        let turn = per_dt_exec(pc.rotation_speed, dt);
        let rot = clamp128(approach(self.rotation as i128, target, turn), -limit, limit);
        let max: i128 = pc.max_speed as i128;
        let pull = per_dt_exec(pc.downhill_acceleration, dt);
        let vy = clamp128(self.velocity.y as i128 - pull, -max, max);
        assert(-0x1_0000_0000_0000_0000_0000 <= rot * (-vy) <= 0x1_0000_0000_0000_0000_0000) by (nonlinear_arith)
            requires -SPEED_LIMIT <= rot <= SPEED_LIMIT, -SPEED_LIMIT <= vy <= SPEED_LIMIT;
        let side = floor_div(rot * (-vy), 1000);
        proof {
            vstd::arithmetic::div_mod::lemma_div_is_ordered(rot * (-vy), 0x1_0000_0000_0000_0000_0000, 1000);
            vstd::arithmetic::div_mod::lemma_div_is_ordered(-0x1_0000_0000_0000_0000_0000, rot * (-vy), 1000);
        }
        let grip = per_dt_exec(pc.friction, dt);
        let vx = clamp128(approach(self.velocity.x as i128, side, grip), -max, max);
        let x = advance_exec(self.position.x, vx, dt);
        let y = advance_exec(self.position.y, vy, dt);
        self.rotation = rot as i64;
        self.velocity = Vec2 { x: vx as i64, y: vy as i64 };
        self.position = Vec2 { x, y };
    }

    /// One step of sliding after a crash: see `slid`.
    pub fn slide(&mut self, pc: &PlayerConfig, dt: i64)
        requires
            old(self).wf(),
            pc.wf(),
            0 < dt <= 1000,
        ensures
            *final(self) == slid(*old(self), *pc, dt as int),
            final(self).wf(),
    {
        let step = per_dt_exec(pc.crash_deceleration, dt);
        let vx = approach(self.velocity.x as i128, 0, step);
        let vy = approach(self.velocity.y as i128, 0, step);
        let x = advance_exec(self.position.x, vx, dt);
        let y = advance_exec(self.position.y, vy, dt);
        self.velocity = Vec2 { x: vx as i64, y: vy as i64 };
        self.position = Vec2 { x, y };
    }
}

/// Half-height of the band of obstacles a player is checked against.
pub const QUERY_REACH: i64 = 10 * UNIT;

/// The player after its state's own motion, before collisions: a parachute
/// counts down and lands into a ride; on the start line the player walks
/// along the line within the spawn strip; a walker walks; a rider's timer
/// runs and it skis; a crashed player's timer runs and it slides.
pub open spec fn moved(p: Player, config: Config, dt: int) -> Player {
    match p.state {
        PlayerState::Parachute { timer } => {
            if timer - dt < 0 {
                Player { state: PlayerState::Ride { timer: 0 }, ..p }
            } else {
                Player { state: PlayerState::Parachute { timer: (timer - dt) as i64 }, ..p }
            }
        },
        PlayerState::SpawnWalk => {
            let w = walked(p, config.player, dt);
            let s = config.track.safe_middle as int;
            Player {
                position: Vec2 { x: clamp_spec(w.position.x as int, -2 * s + p.radius, 2 * s - p.radius) as i64, y: 0 },
                ..w
            }
        },
        PlayerState::Walk => walked(p, config.player, dt),
        PlayerState::Ride { timer } => ridden(
            Player { state: PlayerState::Ride { timer: clamp_spec(timer + dt, 0, TIME_LIMIT as int) as i64 }, ..p },
            config.player,
            dt,
        ),
        PlayerState::Crash { timer, ski_velocity, ski_rotation, crash_position } => slid(
            Player {
                state: PlayerState::Crash {
                    timer: clamp_spec(timer + dt, 0, TIME_LIMIT as int) as i64,
                    ski_velocity,
                    ski_rotation,
                    crash_position,
                },
                ..p
            },
            config.player,
            dt,
        ),
    }
}

/// One step of a player: its own motion; then, for walkers, riders and the
/// crashed, the obstacles of `w` and the boundaries `l` and `r` (riders may
/// crash on either); then it stays at or below the start line, and the
/// avalanche catches it if it has passed it.
pub open spec fn stepped(p: Player, config: Config, w: Seq<Obstacle>, l: int, r: int, avalanche: Option<i64>, dt: int) -> Player {
    let m = moved(p, config, dt);
    let c = if p.state is Walk {
        confined(collided(m, w, config, false), l, r, config, false)
    } else if p.state is Ride || p.state is Crash {
        confined(collided(m, w, config, true), l, r, config, true)
    } else {
        m
    };
    let f = Player { position: Vec2 { x: c.position.x, y: if c.position.y > 0 { 0 } else { c.position.y } }, ..c };
    caught(f, avalanche)
}

/// Whether `q` is `p` after one step of `dt` on `track`: see `stepped`, with
/// the obstacles within `QUERY_REACH` of the longitude `p` moves to and the
/// boundaries of the row it starts in.
pub open spec fn step_of(p: Player, q: Player, config: Config, track: Track, avalanche: Option<i64>, dt: int) -> bool {
    exists|a: int, b: int|
        obstacle_window(
            track.obstacles@,
            moved(p, config, dt).position.y + QUERY_REACH,
            moved(p, config, dt).position.y - QUERY_REACH,
            a,
            b,
        ) && q == stepped(
            p,
            config,
            track.obstacles@.subrange(a, b),
            bounds_at(track.shape@, p.position.y as int).0,
            bounds_at(track.shape@, p.position.y as int).1,
            avalanche,
            dt,
        )
}

impl Player {
    /// The state's own motion: see `moved`.
    pub fn advance_state(&mut self, config: &Config, dt: i64)
        requires
            old(self).wf(),
            config.wf(),
            0 < dt <= 1000,
        ensures
            *final(self) == moved(*old(self), *config, dt as int),
            final(self).wf(),
    {
        match self.state {
            PlayerState::Parachute { timer } => {
                if timer - dt < 0 {
                    self.state = PlayerState::Ride { timer: 0 };
                } else {
                    self.state = PlayerState::Parachute { timer: timer - dt };
                }
            },
            PlayerState::SpawnWalk => {
                self.walk(&config.player, dt);
                let s = config.track.safe_middle;
                let x = clamp(self.position.x, -2 * s + self.radius, 2 * s - self.radius);
                self.position = Vec2 { x, y: 0 };
            },
            PlayerState::Walk => {
                self.walk(&config.player, dt);
            },
            PlayerState::Ride { timer } => {
                self.state = PlayerState::Ride { timer: clamp(timer + dt, 0, TIME_LIMIT) };
                self.ride(&config.player, dt);
            },
            PlayerState::Crash { timer, ski_velocity, ski_rotation, crash_position } => {
                self.state = PlayerState::Crash {
                    timer: clamp(timer + dt, 0, TIME_LIMIT),
                    ski_velocity,
                    ski_rotation,
                    crash_position,
                };
                self.slide(&config.player, dt);
            },
        }
    }

    /// One step of the player on `track` over `dt` milliseconds: see
    /// `stepped`. The obstacles met are those within ten units of the
    /// player's new longitude; the boundaries are those of its row before
    /// the step.
    pub fn step(&mut self, config: &Config, track: &Track, avalanche: Option<i64>, dt: i64)
        requires
            old(self).wf(),
            config.wf(),
            track.wf(),
            0 < dt <= 1000,
        ensures
            final(self).wf(),
            final(self).id == old(self).id,
            step_of(*old(self), *final(self), *config, *track, avalanche, dt as int),
    {
        let ghost start = *self;
        let (l, r) = track.at(self.position.y);
        let was = self.state;
        self.advance_state(config, dt);
        let window = track.query_obstacles(self.position.y + QUERY_REACH, self.position.y - QUERY_REACH);
        let ghost (a, b) = choose|a: int, b: int|
            obstacle_window(track.obstacles@, self.position.y + QUERY_REACH, self.position.y - QUERY_REACH, a, b)
                && window@ == track.obstacles@.subrange(a, b);
        proof {
            assert forall|i: int| 0 <= i < window@.len() implies obstacle_bounded(#[trigger] window@[i]) by {
                assert(window@[i] == track.obstacles@[a + i]);
            }
        }
        match was {
            PlayerState::Walk => {
                self.collide(window, config, false);
                self.confine(l, r, config, false);
            },
            PlayerState::Ride { .. } | PlayerState::Crash { .. } => {
                self.collide(window, config, true);
                self.confine(l, r, config, true);
            },
            _ => {},
        }
        if self.position.y > 0 {
            self.position = Vec2 { x: self.position.x, y: 0 };
        }
        self.catch_by_avalanche(avalanche);
        assert(*self == stepped(start, *config, track.obstacles@.subrange(a, b), l as int, r as int, avalanche, dt as int));
    }
}

/// One step of every player of `players`: see `Player::step`.
pub fn step_all(players: &mut Vec<Player>, config: &Config, track: &Track, avalanche: Option<i64>, dt: i64)
    requires
        players_wf(old(players)@),
        config.wf(),
        track.wf(),
        0 < dt <= 1000,
    ensures
        players_wf(final(players)@),
        final(players)@.len() == old(players)@.len(),
        forall|i: int| 0 <= i < final(players)@.len() ==> (#[trigger] final(players)@[i]).id == old(players)@[i].id,
        forall|i: int| 0 <= i < final(players)@.len() ==> step_of(old(players)@[i], #[trigger] final(players)@[i], *config, *track, avalanche, dt as int),
{
    let ghost start = players@;
    let mut k: usize = 0;
    while k < players.len()
        invariant
            config.wf(),
            track.wf(),
            0 < dt <= 1000,
            players@.len() == start.len(),
            k <= start.len(),
            forall|j: int| k <= j < start.len() ==> players@[j] == start[j],
            forall|j: int| 0 <= j < start.len() ==> (#[trigger] players@[j]).wf(),
            forall|j: int| 0 <= j < start.len() ==> (#[trigger] players@[j]).id == start[j].id,
            forall|j: int| 0 <= j < k ==> step_of(start[j], #[trigger] players@[j], *config, *track, avalanche, dt as int),
        decreases start.len() - k,
    {
        let mut p = players.remove(k);
        p.step(config, track, avalanche, dt);
        players.insert(k, p);
        k = k + 1;
    }
}

} // verus!
