//! The client's view: smoothing snapshots for display, predicting the local
//! player, and its actions.
use vstd::prelude::*;
use crate::config::{Config, TIME_LIMIT};
use crate::geometry::{clamp_spec, floor_div, Vec2, COORD_LIMIT, SPEED_LIMIT};
use crate::motion::{step_all, step_of};
use crate::player::{can_detonate, has_id, ids_unique, on_detonator, players_wf, position_of, recovered, Id, Player, PlayerState};
use crate::track::{bounds_at, lemma_lerp_within, lerp, Track};

verus! {

/// The round trip assumed for snapshots, in milliseconds: a displayed value
/// covers its gap to the snapshot at this pace.
pub const EXPECTED_PING: i64 = 300;

/// Share of the gap, in `EXPECTED_PING`ths, covered over `dt`: never more than all of it.
pub open spec fn pace(dt: int) -> int {
    if dt < EXPECTED_PING { dt } else { EXPECTED_PING as int }
}

/// A displayed value moved toward its target.
pub open spec fn smoothed(shown: int, target: int, dt: int) -> int {
    lerp(shown, target, pace(dt), EXPECTED_PING as int)
}

/// The displayed state: a parachute's countdown is smoothed while both sides
/// drop; a drop starting shows at once; a drop ending counts down on its own
/// to zero first; any other state shows as it is.
pub open spec fn blended_state(shown: PlayerState, target: PlayerState, dt: int) -> PlayerState {
    match (shown, target) {
        (PlayerState::Parachute { timer: from }, PlayerState::Parachute { timer: to }) => {
            PlayerState::Parachute { timer: smoothed(from as int, to as int, dt) as i64 }
        },
        (_, PlayerState::Parachute { .. }) => target,
        (PlayerState::Parachute { timer: from }, _) => {
            if from - dt > 0 { PlayerState::Parachute { timer: (from - dt) as i64 } } else { target }
        },
        _ => target,
    }
}

/// The displayed copy of `target`, moved on from `shown` over `dt`.
pub open spec fn blended(shown: Player, target: Player, dt: int) -> Player {
    Player {
        state: blended_state(shown.state, target.state, dt),
        position: Vec2 {
            x: smoothed(shown.position.x as int, target.position.x as int, dt) as i64,
            y: smoothed(shown.position.y as int, target.position.y as int, dt) as i64,
        },
        rotation: smoothed(shown.rotation as int, target.rotation as int, dt) as i64,
        velocity: Vec2 {
            x: smoothed(shown.velocity.x as int, target.velocity.x as int, dt) as i64,
            y: smoothed(shown.velocity.y as int, target.velocity.y as int, dt) as i64,
        },
        ..target
    }
}

/// The displayed copy of `target` after a frame: moved on from the one
/// shown with its id, or `target` itself where none was shown or it is the
/// local player.
pub open spec fn displayed(shown: Seq<Player>, target: Player, me: Id, dt: int) -> Player {
    if has_id(shown, target.id) && target.id != me {
        blended(shown[choose|j: int| 0 <= j < shown.len() && shown[j].id == target.id], target, dt)
    } else {
        target
    }
}

fn smooth_exec(shown: i64, target: i64, dt: i64, limit: i64) -> (r: i64)
    requires
        0 < dt <= 1000,
        0 <= limit <= COORD_LIMIT,
        -limit <= shown <= limit,
        -limit <= target <= limit,
    ensures
        r == smoothed(shown as int, target as int, dt as int),
        -limit <= r <= limit,
{
    let k: i64 = if dt < EXPECTED_PING { dt } else { EXPECTED_PING };
    proof {
        lemma_lerp_within(shown as int, target as int, k as int, EXPECTED_PING as int);
    }
    let d: i128 = target as i128 - shown as i128;
    assert(-0x200_0000_0000 * 300 <= d * k <= 0x200_0000_0000 * 300) by (nonlinear_arith)
        requires -0x200_0000_0000 <= d <= 0x200_0000_0000, 0 < k <= 300;
    let q = floor_div(d * k as i128, EXPECTED_PING as i128);
    (shown as i128 + q) as i64
}

/// The displayed copy of `target` after a frame: see `blended`.
pub fn blend(shown: &Player, target: &Player, dt: i64) -> (r: Player)
    requires
        shown.wf(),
        target.wf(),
        0 < dt <= 1000,
    ensures
        r.same(blended(*shown, *target, dt as int)),
        r.wf(),
{
    let state = match (shown.state, target.state) {
        (PlayerState::Parachute { timer: from }, PlayerState::Parachute { timer: to }) => {
            PlayerState::Parachute { timer: smooth_exec(from, to, dt, TIME_LIMIT) }
        },
        (_, PlayerState::Parachute { .. }) => target.state,
        (PlayerState::Parachute { timer: from }, _) => {
            if from - dt > 0 {
                PlayerState::Parachute { timer: from - dt }
            } else {
                target.state
            }
        },
        _ => target.state,
    };
    let mut r = target.duplicate();
    r.state = state;
    r.position = Vec2 {
        x: smooth_exec(shown.position.x, target.position.x, dt, COORD_LIMIT),
        y: smooth_exec(shown.position.y, target.position.y, dt, COORD_LIMIT),
    };
    r.rotation = smooth_exec(shown.rotation, target.rotation, dt, SPEED_LIMIT);
    r.velocity = Vec2 {
        x: smooth_exec(shown.velocity.x, target.velocity.x, dt, SPEED_LIMIT),
        y: smooth_exec(shown.velocity.y, target.velocity.y, dt, SPEED_LIMIT),
    };
    r
}

/// The display after a frame of `dt`: one entry per player of `mirror`, in
/// its order, each as `displayed` gives it. Entries whose player has left
/// are gone.
pub fn interpolate(shown: &Vec<Player>, mirror: &Vec<Player>, me: Id, dt: i64) -> (r: Vec<Player>)
    requires
        players_wf(shown@),
        players_wf(mirror@),
        ids_unique(shown@),
        0 < dt <= 1000,
    ensures
        r@.len() == mirror@.len(),
        forall|i: int| 0 <= i < mirror@.len() ==> (#[trigger] r@[i]).same(displayed(shown@, mirror@[i], me, dt as int)),
        players_wf(r@),
{
    let mut out: Vec<Player> = Vec::new();
    let mut i: usize = 0;
    while i < mirror.len()
        invariant
            players_wf(shown@),
            players_wf(mirror@),
            ids_unique(shown@),
            0 < dt <= 1000,
            i <= mirror@.len(),
            out@.len() == i,
            forall|k: int| 0 <= k < i ==> (#[trigger] out@[k]).same(displayed(shown@, mirror@[k], me, dt as int)),
            players_wf(out@),
        decreases mirror@.len() - i,
    {
        let target = &mirror[i];
        assert(target.wf());
        let next = match position_of(shown, target.id) {
            Some(j) => {
                if target.id != me {
                    proof {
                        let c = choose|c: int| 0 <= c < shown@.len() && shown@[c].id == target.id;
                        assert(c == j);
                        assert(shown@[j as int].wf());
                    }
                    blend(&shown[j], target, dt)
                } else {
                    target.duplicate()
                }
            },
            None => target.duplicate(),
        };
        out.push(next);
        i = i + 1;
    }
    out
}

/// A client's view of the players: `players` mirrors the last snapshot
/// for everyone else and holds the local player as predicted here;
/// `interpolated_players` is what is shown.
#[derive(Clone, Debug)]
pub struct ClientReconciler {
    pub player_id: Id,
    pub players: Vec<Player>,
    pub interpolated_players: Vec<Player>,
    pub last_model_tick: u64,
}

/// The local player after its own decisions of a step: it notes a clear
/// slope, sets off with the avalanche, and recovers from a crash (with the
/// score of a run that ends).
pub open spec fn own_turn(p: Player, avalanche: Option<i64>, config: Config) -> (Player, Option<i32>) {
    let seen = Player { seen_no_avalanche: p.seen_no_avalanche || avalanche.is_none(), ..p };
    let set = if seen.seen_no_avalanche && avalanche.is_some() && seen.state is SpawnWalk {
        Player { state: PlayerState::Ride { timer: 0 }, ..seen }
    } else {
        seen
    };
    recovered(set, avalanche, config)
}

/// Longitude at which a parachute drop starts: the avalanche's distance from
/// its start, further down by its travel over the drop, within the world.
pub open spec fn drop_height(avalanche: int, speed: int, config: Config) -> int {
    clamp_spec(
        avalanche - config.avalanche.start - speed * config.player.parachute_time / 1000,
        -COORD_LIMIT as int,
        COORD_LIMIT as int,
    )
}

impl ClientReconciler {
    pub open spec fn wf(&self) -> bool {
        &&& players_wf(self.players@)
        &&& ids_unique(self.players@)
        &&& players_wf(self.interpolated_players@)
        &&& ids_unique(self.interpolated_players@)
    }

    /// A client of `player_id`, showing `me` if the local player exists yet.
    pub fn new(player_id: Id, me: Option<Player>) -> (r: ClientReconciler)
        requires
            me matches Some(p) ==> p.wf() && p.id == player_id,
        ensures
            r.wf(),
            r.player_id == player_id,
            r.interpolated_players@.len() == 0,
            r.last_model_tick == u64::MAX,
            match me {
                Some(p) => r.players@ == seq![p],
                None => r.players@.len() == 0,
            },
    {
        let mut players: Vec<Player> = Vec::new();
        if let Some(p) = me {
            players.push(p);
        }
        ClientReconciler { player_id, players, interpolated_players: Vec::new(), last_model_tick: u64::MAX }
    }

    /// Refreshes the display for a frame of `dt`: see `interpolate`.
    pub fn update_interpolated(&mut self, dt: i64)
        requires
            old(self).wf(),
            0 < dt <= 1000,
        ensures
            final(self).wf(),
            final(self).players == old(self).players,
            final(self).player_id == old(self).player_id,
            final(self).last_model_tick == old(self).last_model_tick,
            final(self).interpolated_players@.len() == old(self).players@.len(),
            forall|i: int| 0 <= i < old(self).players@.len() ==> (#[trigger] final(self).interpolated_players@[i]).same(
                displayed(old(self).interpolated_players@, old(self).players@[i], old(self).player_id, dt as int),
            ),
    {
        let shown = interpolate(&self.interpolated_players, &self.players, self.player_id, dt);
        proof {
            assert forall|a: int, b: int| 0 <= a < shown@.len() && 0 <= b < shown@.len() && a != b
                implies shown@[a].id != shown@[b].id by {
                assert(self.players@[a].id != self.players@[b].id);
            }
        }
        self.interpolated_players = shown;
    }

    /// Takes in a snapshot of the server's players, once per server step:
    /// everyone else becomes as the snapshot has them, players gone from it
    /// leave, and the local player stays as predicted here.
    pub fn apply_snapshot(&mut self, snapshot: &Vec<Player>, tick: u64)
        requires
            old(self).wf(),
            players_wf(snapshot@),
            ids_unique(snapshot@),
        ensures
            final(self).wf(),
            final(self).player_id == old(self).player_id,
            final(self).interpolated_players == old(self).interpolated_players,
            final(self).last_model_tick == tick,
            tick == old(self).last_model_tick ==> final(self).players == old(self).players,
            tick != old(self).last_model_tick ==> {
                &&& forall|i: int| 0 <= i < final(self).players@.len() && final(self).players@[i].id == old(self).player_id
                    ==> old(self).players@.contains(#[trigger] final(self).players@[i])
                &&& forall|i: int| 0 <= i < final(self).players@.len() && final(self).players@[i].id != old(self).player_id
                    ==> exists|k: int| 0 <= k < snapshot@.len() && (#[trigger] final(self).players@[i]).same(snapshot@[k])
                &&& forall|k: int| 0 <= k < snapshot@.len() && snapshot@[k].id != old(self).player_id
                    ==> exists|i: int| 0 <= i < final(self).players@.len() && (#[trigger] final(self).players@[i]).same(snapshot@[k])
                &&& has_id(old(self).players@, old(self).player_id) ==> has_id(final(self).players@, old(self).player_id)
            },
    {
        if tick == self.last_model_tick {
            return;
        }
        self.last_model_tick = tick;
        let me = self.player_id;
        let ghost before = self.players@;
        let mut next: Vec<Player> = Vec::new();
        if let Some(i) = position_of(&self.players, me) {
            let own = self.players.remove(i);
            assert(before[i as int] == own);
            next.push(own);
        }
        let ghost own_len = next@.len();
        let ghost mut src: Seq<int> = Seq::empty();
        let mut k: usize = 0;
        while k < snapshot.len()
            invariant
                players_wf(snapshot@),
                ids_unique(snapshot@),
                k <= snapshot@.len(),
                own_len <= 1,
                next@.len() == own_len + src.len(),
                own_len == 1 ==> next@[0].id == me && before.contains(next@[0]) && next@[0].wf(),
                has_id(before, me) ==> own_len == 1,
                forall|i: int| 0 <= i < src.len() ==> 0 <= #[trigger] src[i] < k && snapshot@[src[i]].id != me
                    && next@[own_len + i].same(snapshot@[src[i]]),
                forall|a: int, b: int| 0 <= a < b < src.len() ==> src[a] < src[b],
                forall|j: int| 0 <= j < k && snapshot@[j].id != me ==> exists|i: int| 0 <= i < src.len() && #[trigger] src[i] == j,
                players_wf(next@),
            decreases snapshot@.len() - k,
        {
            if snapshot[k].id != me {
                next.push(snapshot[k].duplicate());
                proof {
                    let old_src = src;
                    src = src.push(k as int);
                    assert forall|j: int| 0 <= j < k + 1 && snapshot@[j].id != me implies exists|i: int| 0 <= i < src.len() && #[trigger] src[i] == j by {
                        if j < k {
                            let i = choose|i: int| 0 <= i < old_src.len() && #[trigger] old_src[i] == j;
                            assert(src[i] == j);
                        } else {
                            assert(src[src.len() - 1] == j);
                        }
                    }
                }
            }
            k = k + 1;
        }
        proof {
            assert forall|a: int, b: int| 0 <= a < next@.len() && 0 <= b < next@.len() && a != b implies next@[a].id != next@[b].id by {
                if a >= own_len && b >= own_len {
                    assert(src[a - own_len] != src[b - own_len]);
                    assert(snapshot@[src[a - own_len]].id != snapshot@[src[b - own_len]].id);
                } else if a < own_len && b >= own_len {
                    assert(snapshot@[src[b - own_len]].id != me);
                } else if b < own_len && a >= own_len {
                    assert(snapshot@[src[a - own_len]].id != me);
                }
            }
            assert forall|i: int| 0 <= i < next@.len() && next@[i].id != me implies exists|k: int| 0 <= k < snapshot@.len() && (#[trigger] next@[i]).same(snapshot@[k]) by {
                assert(i >= own_len);
                assert(next@[own_len + (i - own_len)].same(snapshot@[src[i - own_len]]));
            }
            assert forall|j: int| 0 <= j < snapshot@.len() && snapshot@[j].id != me implies exists|i: int| 0 <= i < next@.len() && (#[trigger] next@[i]).same(snapshot@[j]) by {
                let t = choose|t: int| 0 <= t < src.len() && #[trigger] src[t] == j;
                assert(next@[own_len + t].same(snapshot@[j]));
            }
            assert forall|i: int| 0 <= i < next@.len() && next@[i].id == me implies before.contains(#[trigger] next@[i]) by {
                if i >= own_len {
                    assert(next@[own_len + (i - own_len)].same(snapshot@[src[i - own_len]]));
                }
            }
            if has_id(before, me) {
                assert(next@[0].id == me);
            }
        }
        self.players = next;
    }
}

/// The players with the local one's own decisions made: see `own_turn`.
pub open spec fn prepared(ps: Seq<Player>, me: Id, avalanche: Option<i64>, config: Config) -> Seq<Player> {
    ps.map_values(|p: Player| if p.id == me { own_turn(p, avalanche, config).0 } else { p })
}

/// The score the local player's own decisions report, if any.
pub open spec fn own_score(ps: Seq<Player>, me: Id, avalanche: Option<i64>, config: Config) -> Option<i32> {
    if has_id(ps, me) {
        own_turn(ps[choose|i: int| 0 <= i < ps.len() && ps[i].id == me], avalanche, config).1
    } else {
        None
    }
}

/// The local player after pressing the action key: on the start line while
/// the avalanche runs, with parachutes enabled, it drops in from the air
/// above the middle of the track where the avalanche will be after the
/// drop; a walker sets off skiing.
pub open spec fn pressed(p: Player, avalanche: Option<i64>, speed: int, config: Config, shape: Seq<crate::track::ShapePoint>) -> Player {
    let q = match avalanche {
        Some(a) => if p.state is SpawnWalk && config.enable_parachute {
            let y = drop_height(a as int, speed, config);
            let b = bounds_at(shape, y);
            Player {
                position: Vec2 { x: ((b.0 + b.1) / 2) as i64, y: y as i64 },
                start_y: y as i64,
                state: PlayerState::Parachute { timer: config.player.parachute_time },
                ..p
            }
        } else {
            p
        },
        None => p,
    };
    if q.state is Walk {
        Player { state: PlayerState::Ride { timer: 0 }, ..q }
    } else {
        q
    }
}

impl ClientReconciler {
    /// One local physics step of `dt`: the local player's own decisions
    /// (see `own_turn`), then a step of every player (see `stepped`).
    /// Returns the score of a run of the local player's that ended.
    pub fn local_step(&mut self, avalanche: Option<i64>, config: &Config, track: &Track, dt: i64) -> (score: Option<i32>)
        requires
            old(self).wf(),
            config.wf(),
            track.wf(),
            0 < dt <= 1000,
            avalanche matches Some(a) ==> -COORD_LIMIT <= a <= COORD_LIMIT,
        ensures
            final(self).wf(),
            *final(self) == (ClientReconciler { players: final(self).players, ..*old(self) }),
            score == own_score(old(self).players@, old(self).player_id, avalanche, *config),
            final(self).players@.len() == old(self).players@.len(),
            forall|i: int| 0 <= i < final(self).players@.len() ==> step_of(
                prepared(old(self).players@, old(self).player_id, avalanche, *config)[i],
                #[trigger] final(self).players@[i],
                *config,
                *track,
                avalanche,
                dt as int,
            ),
    {
        let me = self.player_id;
        let ghost start = *self;
        let ghost pre = prepared(self.players@, me, avalanche, *config);
        let mut score: Option<i32> = None;
        match position_of(&self.players, me) {
            Some(i) => {
                let mut p = self.players.remove(i);
                assert(p.wf());
                if avalanche.is_none() {
                    p.seen_no_avalanche = true;
                }
                p.set_off(avalanche);
                score = p.recover(avalanche, config);
                self.players.insert(i, p);
                proof {
                    let c = choose|c: int| 0 <= c < start.players@.len() && start.players@[c].id == me;
                    assert(c == i);
                    assert forall|k: int| 0 <= k < self.players@.len() implies self.players@[k] == pre[k] by {
                        if k != i {
                            assert(start.players@[k].id != me);
                        }
                    }
                    assert(self.players@ =~= pre);
                }
            },
            None => {
                proof {
                    assert forall|k: int| 0 <= k < self.players@.len() implies self.players@[k] == pre[k] by {
                        assert(start.players@[k].id != me);
                    }
                    assert(self.players@ =~= pre);
                }
            },
        }
        proof {
            assert forall|k: int| 0 <= k < pre.len() implies (#[trigger] pre[k]).wf() by {
                assert(start.players@[k].wf());
            }
        }
        step_all(&mut self.players, config, track, avalanche, dt);
        proof {
            assert forall|a: int, b: int| 0 <= a < self.players@.len() && 0 <= b < self.players@.len() && a != b
                implies self.players@[a].id != self.players@[b].id by {
                assert(start.players@[a].id != start.players@[b].id);
            }
        }
        score
    }

    /// The action key: returns whether the local player stands on the
    /// detonator, which asks the server to start the race; and moves the
    /// local player as `pressed` says.
    pub fn press_space(&mut self, avalanche: Option<i64>, avalanche_speed: i64, config: &Config, track: &Track) -> (start_race: bool)
        requires
            old(self).wf(),
            config.wf(),
            track.wf(),
            0 <= avalanche_speed <= SPEED_LIMIT,
            avalanche matches Some(a) ==> -COORD_LIMIT <= a <= COORD_LIMIT,
        ensures
            final(self).wf(),
            *final(self) == (ClientReconciler { players: final(self).players, ..*old(self) }),
            !has_id(old(self).players@, old(self).player_id) ==> !start_race && final(self).players == old(self).players,
            forall|i: int| 0 <= i < old(self).players@.len() && old(self).players@[i].id == old(self).player_id ==> {
                &&& start_race == on_detonator(old(self).players@[i].position.x as int)
                &&& final(self).players@ == old(self).players@.update(
                    i,
                    pressed(old(self).players@[i], avalanche, avalanche_speed as int, *config, track.shape@),
                )
            },
    {
        let ghost start = *self;
        let i = match position_of(&self.players, self.player_id) {
            Some(i) => i,
            None => {
                return false;
            },
        };
        let mut p = self.players.remove(i);
        assert(p.wf());
        let start_race = can_detonate(p.position.x);
        if let Some(a) = avalanche {
            if matches!(p.state, PlayerState::SpawnWalk) && config.enable_parachute {
                let y = drop_height_exec(a, avalanche_speed, config);
                let (l, r) = track.at(y);
                let x = floor_div(l as i128 + r as i128, 2) as i64;
                p.position = Vec2 { x, y };
                p.start_y = y;
                p.state = PlayerState::Parachute { timer: config.player.parachute_time };
            }
        }
        if let PlayerState::Walk = p.state {
            p.state = PlayerState::Ride { timer: 0 };
        }
        self.players.insert(i, p);
        proof {
            assert(self.players@ =~= start.players@.update(i as int, pressed(start.players@[i as int], avalanche, avalanche_speed as int, *config, track.shape@)));
            assert forall|j: int| 0 <= j < start.players@.len() && start.players@[j].id == start.player_id implies j == i by {
                if j != i {
                    assert(start.players@[j].id != start.players@[i as int].id);
                }
            }
            assert forall|a: int, b: int| 0 <= a < self.players@.len() && 0 <= b < self.players@.len() && a != b
                implies self.players@[a].id != self.players@[b].id by {
                assert(start.players@[a].id != start.players@[b].id);
            }
            assert forall|k: int| 0 <= k < self.players@.len() implies (#[trigger] self.players@[k]).wf() by {
                if k != i {
                    assert(start.players@[k].wf());
                }
            }
        }
        start_race
    }
}

/// Where a parachute drop starts: see `drop_height`.
fn drop_height_exec(a: i64, speed: i64, config: &Config) -> (r: i64)
    requires
        -COORD_LIMIT <= a <= COORD_LIMIT,
        0 <= speed <= SPEED_LIMIT,
        config.wf(),
    ensures
        r == drop_height(a as int, speed as int, *config),
        -COORD_LIMIT <= r <= COORD_LIMIT,
{
    let t = config.player.parachute_time;
    assert(0 <= speed * t <= 0x1_0000_0000_0000_0000_0000) by (nonlinear_arith)
        requires 0 <= speed <= SPEED_LIMIT, 0 <= t <= TIME_LIMIT;
    let travel = floor_div(speed as i128 * t as i128, 1000);
    proof {
        vstd::arithmetic::div_mod::lemma_div_is_ordered(speed * t, 0x1_0000_0000_0000_0000_0000, 1000);
        vstd::arithmetic::div_mod::lemma_div_is_ordered(0, speed * t, 1000);
    }
    let v: i128 = a as i128 - config.avalanche.start as i128 - travel;
    if v < -COORD_LIMIT as i128 {
        -COORD_LIMIT
    } else if v > COORD_LIMIT as i128 {
        COORD_LIMIT
    } else {
        v as i64
    }
}

} // verus!
