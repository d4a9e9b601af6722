//! Collision resolution: players against round obstacles and against the
//! track's boundaries.
use vstd::prelude::*;
use crate::config::Config;
use crate::geometry::{clamp_spec, floor_div, is_isqrt, isqrt, Vec2, COORD_LIMIT, SHAPE_LIMIT, SPEED_LIMIT};
use crate::player::{crashed, Player};
use crate::track::{obstacle_bounded, Obstacle};

verus! {

/// The integer square root of `n`, rounded down.
pub open spec fn sqrt_floor(n: int) -> int {
    choose|r: int| is_isqrt(n, r)
}

proof fn lemma_isqrt_unique(n: int, r1: int, r2: int)
    requires
        is_isqrt(n, r1),
        is_isqrt(n, r2),
    ensures
        r1 == r2,
{
    if r1 < r2 {
        assert((r1 + 1) * (r1 + 1) <= r2 * r2) by (nonlinear_arith)
            requires 0 <= r1, r1 + 1 <= r2;
    } else if r2 < r1 {
        assert((r2 + 1) * (r2 + 1) <= r1 * r1) by (nonlinear_arith)
            requires 0 <= r2, r2 + 1 <= r1;
    }
}

/// A coordinate pushed out by `pen` along the normal `d_axis / d`.
pub open spec fn pushed(p: int, d_axis: int, pen: int, d: int) -> int {
    clamp_spec(p + d_axis * pen / d, -COORD_LIMIT as int, COORD_LIMIT as int)
}

/// A velocity component without its part along the normal: `dot` is the
/// velocity's dot product with the offset, `d2` the offset's squared length.
pub open spec fn deflected(v: int, d_axis: int, dot: int, d2: int) -> int {
    clamp_spec(v - d_axis * dot / d2, -SPEED_LIMIT as int, SPEED_LIMIT as int)
}

/// The player after meeting obstacle `o`. Where the circles overlap, the
/// player is pushed out along the normal by the depth of penetration and
/// loses the velocity along the normal; and, if `may_crash` and its state
/// allows, it crashes with what it had before the push.
pub open spec fn contact(p: Player, o: Obstacle, config: Config, may_crash: bool) -> Player {
    let dx = p.position.x - o.position.x;
    let dy = p.position.y - o.position.y;
    let d2 = dx * dx + dy * dy;
    let d = sqrt_floor(d2);
    let pen = p.radius + o.radius - d;
    let dot = p.velocity.x * dx + p.velocity.y * dy;
    let state = if may_crash && p.state.can_crash_spec(config) { crashed(p) } else { p.state };
    if pen <= 0 {
        p
    } else if d == 0 {
        Player { state, ..p }
    } else {
        Player {
            position: Vec2 { x: pushed(p.position.x as int, dx, pen, d) as i64, y: pushed(p.position.y as int, dy, pen, d) as i64 },
            velocity: Vec2 {
                x: deflected(p.velocity.x as int, dx, dot, d2) as i64,
                y: deflected(p.velocity.y as int, dy, dot, d2) as i64,
            },
            state,
            ..p
        }
    }
}

/// The player after meeting each obstacle of `w` in turn.
pub open spec fn collided(p: Player, w: Seq<Obstacle>, config: Config, may_crash: bool) -> Player
    decreases w.len(),
{
    if w.len() == 0 {
        p
    } else {
        contact(collided(p, w.drop_last(), config, may_crash), w.last(), config, may_crash)
    }
}

/// The player kept within the boundaries `l` and `r` of its row, less its
/// radius; if `may_crash` and its state allows, crossing one crashes it.
pub open spec fn confined(p: Player, l: int, r: int, config: Config, may_crash: bool) -> Player {
    let lo = l + p.radius;
    let hi = r - p.radius;
    let out = p.position.x < lo || p.position.x > hi;
    let state = if may_crash && out && p.state.can_crash_spec(config) { crashed(p) } else { p.state };
    Player { state, position: Vec2 { x: clamp_spec(p.position.x as int, lo, hi) as i64, y: p.position.y }, ..p }
}

/// Division by a positive divisor moves no value away from zero.
proof fn lemma_div_shrinks(x: int, d: int)
    requires
        d >= 1,
    ensures
        x >= 0 ==> 0 <= x / d <= x,
        x < 0 ==> x <= x / d < 0,
{
    let q = x / d;
    let r = x % d;
    vstd::arithmetic::div_mod::lemma_fundamental_div_mod(x, d);
    assert(0 <= r < d);
    if x >= 0 {
        assert(0 <= q <= x) by (nonlinear_arith)
            requires x == d * q + r, 0 <= r < d, d >= 1, x >= 0;
    } else {
        assert(x <= q < 0) by (nonlinear_arith)
            requires x == d * q + r, 0 <= r < d, d >= 1, x < 0;
    }
}

fn push_exec(p: i64, d_axis: i128, pen: i128, d: i128) -> (r: i64)
    requires
        -COORD_LIMIT <= p <= COORD_LIMIT,
        -0x400_0000_0000 <= d_axis <= 0x400_0000_0000,
        0 < pen <= 0x40_0000,
        d > 0,
    ensures
        r == pushed(p as int, d_axis as int, pen as int, d as int),
{
    assert(-0x400_0000_0000 * 0x40_0000 <= d_axis * pen <= 0x400_0000_0000 * 0x40_0000) by (nonlinear_arith)
        requires -0x400_0000_0000 <= d_axis <= 0x400_0000_0000, 0 < pen <= 0x40_0000;
    let q = floor_div(d_axis * pen, d);
    proof {
        lemma_div_shrinks(d_axis * pen, d as int);
    }
    let v = p as i128 + q;
    if v < -COORD_LIMIT as i128 {
        -COORD_LIMIT
    } else if v > COORD_LIMIT as i128 {
        COORD_LIMIT
    } else {
        v as i64
    }
}

fn deflect_exec(v: i64, d_axis: i128, dot: i128, d2: i128) -> (r: i64)
    requires
        -SPEED_LIMIT <= v <= SPEED_LIMIT,
        -0x400_0000_0000 <= d_axis <= 0x400_0000_0000,
        -0x10_0000_0000_0000_0000_0000 <= dot <= 0x10_0000_0000_0000_0000_0000,
        d2 > 0,
    ensures
        r == deflected(v as int, d_axis as int, dot as int, d2 as int),
{
    assert(-0x400_0000_0000 * 0x10_0000_0000_0000_0000_0000 <= d_axis * dot <= 0x400_0000_0000
        * 0x10_0000_0000_0000_0000_0000) by (nonlinear_arith)
        requires -0x400_0000_0000 <= d_axis <= 0x400_0000_0000,
            -0x10_0000_0000_0000_0000_0000 <= dot <= 0x10_0000_0000_0000_0000_0000;
    let q = floor_div(d_axis * dot, d2);
    proof {
        lemma_div_shrinks(d_axis * dot, d2 as int);
    }
    let w = v as i128 - q;
    if w < -SPEED_LIMIT as i128 {
        -SPEED_LIMIT
    } else if w > SPEED_LIMIT as i128 {
        SPEED_LIMIT
    } else {
        w as i64
    }
}

impl Player {
    /// Meets one obstacle: see `contact`.
    pub fn meet(&mut self, o: &Obstacle, config: &Config, may_crash: bool)
        requires
            old(self).wf(),
            obstacle_bounded(*o),
        ensures
            *final(self) == contact(*old(self), *o, *config, may_crash),
            final(self).wf(),
            final(self).id == old(self).id,
    {
        let dx: i128 = self.position.x as i128 - o.position.x as i128;
        let dy: i128 = self.position.y as i128 - o.position.y as i128;
        assert(0 <= dx * dx <= 0x10_0000_0000_0000_0000_0000 && 0 <= dy * dy <= 0x10_0000_0000_0000_0000_0000)
            by (nonlinear_arith)
            requires -0x200_0000_0000 <= dx <= 0x200_0000_0000, -0x200_0000_0000 <= dy <= 0x200_0000_0000;
        let d2: i128 = dx * dx + dy * dy;
        let d: i128 = isqrt(d2 as u128) as i128;
        proof {
            let c = choose|r: int| is_isqrt(d2 as int, r);
            lemma_isqrt_unique(d2 as int, c, d as int);
            assert(d == sqrt_floor(d2 as int));
        }
        let pen: i128 = self.radius as i128 + o.radius as i128 - d;
        if pen <= 0 {
            return;
        }
        let vx = self.velocity.x as i128;
        let vy = self.velocity.y as i128;
        assert(-0x8_0000_0000_0000_0000_0000 <= vx * dx <= 0x8_0000_0000_0000_0000_0000
            && -0x8_0000_0000_0000_0000_0000 <= vy * dy <= 0x8_0000_0000_0000_0000_0000) by (nonlinear_arith)
            requires -0x200_0000_0000 <= dx <= 0x200_0000_0000, -0x200_0000_0000 <= dy <= 0x200_0000_0000,
                -SPEED_LIMIT <= vx <= SPEED_LIMIT, -SPEED_LIMIT <= vy <= SPEED_LIMIT;
        let dot: i128 = vx * dx + vy * dy;
        if may_crash && self.state.can_crash(config) {
            self.crash();
        }
        if d == 0 {
            return;
        }
        assert(d2 > 0) by (nonlinear_arith)
            requires d2 >= d * d, d > 0;
        let x = push_exec(self.position.x, dx, pen, d);
        let y = push_exec(self.position.y, dy, pen, d);
        let wx = deflect_exec(self.velocity.x, dx, dot, d2);
        let wy = deflect_exec(self.velocity.y, dy, dot, d2);
        self.position = Vec2 { x, y };
        self.velocity = Vec2 { x: wx, y: wy };
    }

    /// Meets each obstacle of `window` in turn: see `collided`.
    pub fn collide(&mut self, window: &[Obstacle], config: &Config, may_crash: bool)
        requires
            old(self).wf(),
            forall|i: int| 0 <= i < window@.len() ==> obstacle_bounded(#[trigger] window@[i]),
        ensures
            *final(self) == collided(*old(self), window@, *config, may_crash),
            final(self).wf(),
            final(self).id == old(self).id,
    {
        let ghost start = *self;
        let mut i: usize = 0;
        while i < window.len()
            invariant
                i <= window@.len(),
                forall|k: int| 0 <= k < window@.len() ==> obstacle_bounded(#[trigger] window@[k]),
                self.wf(),
                self.id == start.id,
                *self == collided(start, window@.subrange(0, i as int), *config, may_crash),
            decreases window@.len() - i,
        {
            let ghost before = *self;
            self.meet(&window[i], config, may_crash);
            proof {
                let w = window@.subrange(0, i + 1);
                assert(w.drop_last() =~= window@.subrange(0, i as int));
                assert(w.last() == window@[i as int]);
            }
            i = i + 1;
        }
        assert(window@.subrange(0, window@.len() as int) =~= window@);
    }

    /// Keeps within the row's boundaries: see `confined`.
    pub fn confine(&mut self, l: i64, r: i64, config: &Config, may_crash: bool)
        requires
            old(self).wf(),
            -SHAPE_LIMIT <= l <= SHAPE_LIMIT,
            -SHAPE_LIMIT <= r <= SHAPE_LIMIT,
        ensures
            *final(self) == confined(*old(self), l as int, r as int, *config, may_crash),
            final(self).wf(),
    {
        let lo = l + self.radius;
        let hi = r - self.radius;
        let out = self.position.x < lo || self.position.x > hi;
        if may_crash && out && self.state.can_crash(config) {
            self.crash();
        }
        let x = if self.position.x < lo {
            lo
        } else if self.position.x > hi {
            hi
        } else {
            self.position.x
        };
        self.position = Vec2 { x, y: self.position.y };
    }
}

/// A rider past its invincibility that overlaps an obstacle crashes with
/// the velocity, rotation and position it had before being pushed out.
pub proof fn law_impact_recorded(p: Player, o: Obstacle, config: Config)
    requires
        p.state matches crate::player::PlayerState::Ride { timer } && timer > config.invincibility_time,
        p.radius + o.radius > sqrt_floor(
            (p.position.x - o.position.x) * (p.position.x - o.position.x) + (p.position.y - o.position.y) * (
            p.position.y - o.position.y),
        ),
    ensures
        contact(p, o, config, true).state == crashed(p),
{
}

/// Whether the circles of `p` and `o` overlap.
pub open spec fn overlaps(p: Player, o: Obstacle) -> bool {
    let dx = p.position.x - o.position.x;
    let dy = p.position.y - o.position.y;
    p.radius + o.radius - sqrt_floor(dx * dx + dy * dy) > 0
}

proof fn lemma_untouched_prefix(p: Player, w: Seq<Obstacle>, config: Config, n: int)
    requires
        0 <= n <= w.len(),
        forall|j: int| 0 <= j < n ==> !overlaps(p, #[trigger] w[j]),
    ensures
        collided(p, w.subrange(0, n), config, true) == p,
    decreases n,
{
    if n > 0 {
        lemma_untouched_prefix(p, w, config, n - 1);
        assert(w.subrange(0, n).drop_last() =~= w.subrange(0, n - 1));
        assert(!overlaps(p, w[n - 1]));
    }
}

proof fn lemma_stays_crashed(p: Player, w: Seq<Obstacle>, config: Config, k: int, n: int)
    requires
        p.state.can_crash_spec(config),
        0 <= k < n <= w.len(),
        forall|j: int| 0 <= j < k ==> !overlaps(p, #[trigger] w[j]),
        overlaps(p, w[k]),
    ensures
        collided(p, w.subrange(0, n), config, true).state == crashed(p),
    decreases n,
{
    assert(w.subrange(0, n).drop_last() =~= w.subrange(0, n - 1));
    if n == k + 1 {
        lemma_untouched_prefix(p, w, config, k);
    } else {
        lemma_stays_crashed(p, w, config, k, n - 1);
    }
}

/// A rider past its invincibility that meets the obstacles of `w` in turn
/// crashes at the first one it overlaps, with the velocity, rotation and
/// position it had before any push; later obstacles leave that crash as it is.
pub proof fn law_first_impact_crashes(p: Player, w: Seq<Obstacle>, config: Config, k: int)
    requires
        p.state.can_crash_spec(config),
        0 <= k < w.len(),
        forall|j: int| 0 <= j < k ==> !overlaps(p, #[trigger] w[j]),
        overlaps(p, w[k]),
    ensures
        collided(p, w, config, true).state == crashed(p),
{
    lemma_stays_crashed(p, w, config, k, w.len() as int);
    assert(w.subrange(0, w.len() as int) =~= w);
}

} // verus!
