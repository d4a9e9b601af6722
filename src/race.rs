//! The server's authoritative state: messages, the avalanche, the end of a
//! race and its results.
use vstd::prelude::*;
use crate::config::{kinds_wf, Config, ObstacleKind};
use crate::geometry::{Vec2, COORD_LIMIT, UNIT};
use crate::motion::{per_dt, step_all, step_of};
use crate::player::{has_id, ids_unique, position_of, score_spec, Id, Player, PlayerState};
use crate::scores::{names_unique, record_scores, recorded_all, sort_by_score_desc, by_score_desc, table};
use crate::track::Track;

verus! {

/// Server steps per second.
pub const TICKS_PER_SECOND: i64 = 10;

/// Duration of one server step, in milliseconds.
pub const TICK_TIME: i64 = 100;

/// How far past its start the avalanche runs before the race may end.
pub const RESET_BUFFER: i64 = 5 * UNIT;

/// Seconds of avalanche travel by which every rider must trail it for the race to end.
pub const RESET_FACTOR: i64 = 2;

/// What a client sends to the server.
#[derive(Clone, Debug)]
pub enum Message {
    /// The sender's own player, as the sender sees it.
    UpdatePlayer(Player),
    /// The score of a run of the sender's.
    Score(i32),
    StartTheRace,
    Disconnect,
}

/// What the server reports of its steps.
#[derive(Clone, Debug)]
pub enum Event {
    /// A race that produced scores has ended: its scores, best first.
    RaceOver(Vec<(String, i32)>),
}

/// The authoritative state of a server.
#[derive(Clone, Debug)]
pub struct SharedModel {
    pub tick: u64,
    pub next_id: Id,
    pub config: Config,
    pub avalanche_position: Option<i64>,
    pub avalanche_speed: i64,
    pub players: Vec<Player>,
    pub track: Track,
    /// The leader of the race under way, and the points of its descent.
    pub winner: Option<(String, i32)>,
    /// The best score of each name.
    pub highscores: Vec<(String, i32)>,
    /// The scores of the race under way, in order of arrival.
    pub scores: Vec<(String, i32)>,
    pub reset_timer: i64,
    /// The catalogue that tracks draw their obstacles from.
    pub obstacle_kinds: Vec<ObstacleKind>,
}

/// The server's state under the name its users know.
pub type Model = SharedModel;

/// Whether a player takes part in the race under way: anyone off the start
/// line. A crashed, walking or dropping player is still in the race (it rides
/// on once it recovers or lands), so it counts toward the leader and holds
/// the race open until the avalanche has passed it.
pub open spec fn in_race(p: Player) -> bool {
    !(p.state is SpawnWalk)
}

/// The avalanche's speed after one step: up by its acceleration, to its top speed.
pub open spec fn sped_up(speed: int, config: Config) -> int {
    let s = speed + per_dt(config.avalanche.acceleration as int, TICK_TIME as int);
    if s > config.avalanche.max_speed { config.avalanche.max_speed as int } else { s }
}

/// The avalanche's position after one step at `speed`, within the world.
pub open spec fn slid_down(pos: int, speed: int) -> int {
    let p = pos - per_dt(speed, TICK_TIME as int);
    if p < -COORD_LIMIT { -COORD_LIMIT as int } else { p }
}

/// Whether the race is over: the avalanche has run past its start by the
/// buffer and trails no one in the race by less than its travel in `RESET_FACTOR` seconds.
pub open spec fn race_over(ps: Seq<Player>, pos: int, speed: int, config: Config) -> bool {
    &&& pos < config.avalanche.start - RESET_BUFFER
    &&& forall|i: int| 0 <= i < ps.len() ==> !in_race(#[trigger] ps[i]) || ps[i].position.y > pos + RESET_FACTOR * speed
}

/// Whether player `i` is a rider no rider is further down than.
pub open spec fn leads(ps: Seq<Player>, i: int) -> bool {
    &&& 0 <= i < ps.len()
    &&& in_race(ps[i])
    &&& forall|j: int| 0 <= j < ps.len() && in_race(#[trigger] ps[j]) ==> ps[i].position.y <= ps[j].position.y
}

impl SharedModel {
    /// The limits every state of the server keeps.
    pub open spec fn wf(&self) -> bool {
        &&& self.config.wf()
        &&& self.track.wf()
        &&& kinds_wf(self.obstacle_kinds@)
        &&& self.config.avalanche.min_speed <= self.avalanche_speed <= self.config.avalanche.max_speed
        &&& (self.avalanche_position matches Some(a) ==> -COORD_LIMIT <= a <= COORD_LIMIT)
        &&& ids_unique(self.players@)
        &&& forall|i: int| 0 <= i < self.players@.len() ==> (#[trigger] self.players@[i]).wf()
        &&& names_unique(self.highscores@)
    }

    /// A server at rest: no avalanche, no players, a track of `seed`.
    pub fn new(config: Config, obstacle_kinds: Vec<ObstacleKind>, seed: u64, highscores: Vec<(String, i32)>) -> (r: SharedModel)
        requires
            config.wf(),
            kinds_wf(obstacle_kinds@),
            names_unique(highscores@),
        ensures
            r.wf(),
            r.tick == 0,
            r.next_id == 0,
            r.config == config,
            r.avalanche_position is None,
            r.avalanche_speed == config.avalanche.min_speed,
            r.players@.len() == 0,
            r.track.laid_out(config.track),
            r.winner is None,
            r.highscores@ == highscores@,
            r.scores@.len() == 0,
            r.obstacle_kinds@ == obstacle_kinds@,
    {
        let track = Track::new(seed, &config.track, &obstacle_kinds);
        SharedModel {
            tick: 0,
            next_id: 0,
            config,
            avalanche_position: None,
            avalanche_speed: config.avalanche.min_speed,
            players: Vec::new(),
            track,
            winner: None,
            highscores,
            scores: Vec::new(),
            reset_timer: 0,
            obstacle_kinds,
        }
    }

    /// Index of the player with `id`, if any.
    pub fn find_player(&self, id: Id) -> (r: Option<usize>)
        ensures
            r matches Some(i) ==> i < self.players@.len() && self.players@[i as int].id == id,
            r is None ==> !has_id(self.players@, id),
    {
        position_of(&self.players, id)
    }

    /// A new connection's id: the next in order.
    pub fn new_player(&mut self) -> (r: Id)
        requires
            old(self).next_id < i64::MAX,
        ensures
            r == old(self).next_id,
            *final(self) == (SharedModel { next_id: (old(self).next_id + 1) as i64, ..*old(self) }),
    {
        let id = self.next_id;
        self.next_id = self.next_id + 1;
        id
    }

    /// Removes the player of a closed connection.
    pub fn drop_player(&mut self, id: Id)
        requires
            old(self).wf(),
        ensures
            final(self).wf(),
            !has_id(final(self).players@, id),
            forall|q: Player| #[trigger] final(self).players@.contains(q) <==> old(self).players@.contains(q) && q.id != id,
            *final(self) == (SharedModel { players: final(self).players, ..*old(self) }),
    {
        let ghost before = self.players@;
        if let Some(i) = self.find_player(id) {
            self.players.remove(i);
            proof {
                assert forall|a: int, b: int| 0 <= a < self.players@.len() && 0 <= b < self.players@.len() && a != b
                    implies self.players@[a].id != self.players@[b].id by {
                    let oa = if a < i { a } else { a + 1 };
                    let ob = if b < i { b } else { b + 1 };
                    assert(before[oa].id != before[ob].id);
                }
                assert forall|k: int| 0 <= k < self.players@.len() implies (#[trigger] self.players@[k]).wf() by {
                    let ok = if k < i { k } else { k + 1 };
                    assert(before[ok].wf());
                }
                assert forall|q: Player| #[trigger] self.players@.contains(q) <==> before.contains(q) && q.id != id by {
                    if self.players@.contains(q) {
                        let k = choose|k: int| 0 <= k < self.players@.len() && self.players@[k] == q;
                        let ok = if k < i { k } else { k + 1 };
                        assert(before[ok] == q);
                        assert(before[i as int].id == id && ok != i);
                    }
                    if before.contains(q) && q.id != id {
                        let k = choose|k: int| 0 <= k < before.len() && before[k] == q;
                        assert(k != i);
                        let nk = if k < i { k } else { k - 1 };
                        assert(self.players@[nk] == q);
                    }
                }
            }
        } else {
            assert forall|q: Player| #[trigger] self.players@.contains(q) implies q.id != id by {
                let k = choose|k: int| 0 <= k < self.players@.len() && self.players@[k] == q;
            }
        }
    }
}

/// The players with `p` in place of the one with its id, or added after them.
pub open spec fn upserted(ps: Seq<Player>, p: Player) -> Seq<Player> {
    if has_id(ps, p.id) {
        ps.update(choose|i: int| 0 <= i < ps.len() && ps[i].id == p.id, p)
    } else {
        ps.push(p)
    }
}

/// The players moved back to the start line.
pub open spec fn on_start_line(ps: Seq<Player>) -> Seq<Player> {
    ps.map_values(|p: Player| Player { position: Vec2 { x: p.position.x, y: 0 }, ..p })
}

/// The winner reported while `ps` race: the leader with the points of its
/// descent, or `prev` where nobody rides.
pub open spec fn winner_ok(w: Option<(String, i32)>, ps: Seq<Player>, prev: Option<(String, i32)>) -> bool {
    if exists|i: int| leads(ps, i) {
        exists|i: int|
            leads(ps, i) && (w matches Some(v) && v.0@ == ps[i].name@ && v.1 == score_spec(0, ps[i].position.y as int))
    } else {
        w == prev
    }
}

impl SharedModel {
    /// Puts `p` in place of the player with its id, or adds it.
    pub fn upsert_player(&mut self, p: Player)
        requires
            old(self).wf(),
            p.wf(),
        ensures
            final(self).wf(),
            *final(self) == (SharedModel { players: final(self).players, ..*old(self) }),
            final(self).players@ == upserted(old(self).players@, p),
    {
        let ghost q = p;
        let ghost before = self.players@;
        match self.find_player(p.id) {
            Some(i) => {
                self.players.set(i, p);
                proof {
                    let c = choose|k: int| 0 <= k < before.len() && before[k].id == q.id;
                    assert(c == i);
                    assert forall|a: int, b: int| 0 <= a < self.players@.len() && 0 <= b < self.players@.len() && a != b
                        implies self.players@[a].id != self.players@[b].id by {
                        assert(before[a].id != before[b].id);
                    }
                    assert forall|k: int| 0 <= k < self.players@.len() implies (#[trigger] self.players@[k]).wf() by {
                        if k != i {
                            assert(before[k].wf());
                        }
                    }
                }
            },
            None => {
                self.players.push(p);
                proof {
                    assert forall|a: int, b: int| 0 <= a < self.players@.len() && 0 <= b < self.players@.len() && a != b
                        implies self.players@[a].id != self.players@[b].id by {
                        if a < before.len() && b < before.len() {
                            assert(before[a].id != before[b].id);
                        } else if a < before.len() {
                            assert(before[a].id != q.id);
                        } else {
                            assert(before[b].id != q.id);
                        }
                    }
                    assert forall|k: int| 0 <= k < self.players@.len() implies (#[trigger] self.players@[k]).wf() by {
                        if k < before.len() {
                            assert(before[k].wf());
                        }
                    }
                }
            },
        }
    }

    /// Applies a message from the connection of `sender`. A player update
    /// whose id is not the sender's, or whose values lie beyond the limits
    /// of `Player::wf`, is dropped; a score from a sender without a player
    /// is dropped; the start of the race is ignored while one is under way;
    /// a disconnect removes the sender's player.
    pub fn handle_message(&mut self, sender: Id, message: Message)
        requires
            old(self).wf(),
        ensures
            final(self).wf(),
            match message {
                Message::UpdatePlayer(p) => if p.id == sender && p.wf() {
                    *final(self) == (SharedModel { players: final(self).players, ..*old(self) })
                        && final(self).players@ == upserted(old(self).players@, p)
                } else {
                    *final(self) == *old(self)
                },
                Message::Score(score) => if has_id(old(self).players@, sender) {
                    *final(self) == (SharedModel { scores: final(self).scores, ..*old(self) })
                        && final(self).scores@.len() == old(self).scores@.len() + 1
                        && final(self).scores@.drop_last() == old(self).scores@
                        && final(self).scores@.last().1 == score
                        && exists|i: int| 0 <= i < old(self).players@.len() && old(self).players@[i].id == sender
                            && final(self).scores@.last().0@ == old(self).players@[i].name@
                } else {
                    *final(self) == *old(self)
                },
                Message::StartTheRace => if old(self).avalanche_position is None {
                    *final(self) == (SharedModel {
                        players: final(self).players,
                        scores: final(self).scores,
                        avalanche_position: Some(old(self).config.avalanche.start),
                        ..*old(self)
                    })
                        && final(self).players@ == on_start_line(old(self).players@)
                        && final(self).scores@.len() == 0
                } else {
                    *final(self) == *old(self)
                },
                Message::Disconnect => {
                    *final(self) == (SharedModel { players: final(self).players, ..*old(self) })
                        && forall|q: Player| #[trigger] final(self).players@.contains(q)
                            <==> old(self).players@.contains(q) && q.id != sender
                },
            },
    {
        match message {
            Message::UpdatePlayer(p) => {
                if p.id == sender && p.within_limits() {
                    self.upsert_player(p);
                }
            },
            Message::Score(score) => {
                if let Some(i) = self.find_player(sender) {
                    let name = self.players[i].name.clone();
                    let ghost before = self.scores@;
                    self.scores.push((name, score));
                    assert(self.scores@.drop_last() =~= before);
                }
            },
            Message::StartTheRace => {
                if self.avalanche_position.is_none() {
                    let ghost before = self.players@;
                    let ghost model = *self;
                    let mut i: usize = 0;
                    while i < self.players.len()
                        invariant
                            *self == (SharedModel { players: self.players, ..model }),
                            model.players@ == before,
                            self.players@.len() == before.len(),
                            i <= before.len(),
                            forall|k: int| 0 <= k < i ==> self.players@[k] == (Player {
                                position: Vec2 { x: before[k].position.x, y: 0 },
                                ..before[k]
                            }),
                            forall|k: int| i <= k < before.len() ==> self.players@[k] == before[k],
                        decreases before.len() - i,
                    {
                        let mut q = self.players.remove(i);
                        q.position = Vec2 { x: q.position.x, y: 0 };
                        self.players.insert(i, q);
                        i = i + 1;
                    }
                    assert(self.players@ =~= on_start_line(before));
                    self.scores.clear();
                    self.avalanche_position = Some(self.config.avalanche.start);
                    proof {
                        assert forall|a: int, b: int| 0 <= a < self.players@.len() && 0 <= b < self.players@.len() && a != b
                            implies self.players@[a].id != self.players@[b].id by {
                            assert(before[a].id != before[b].id);
                        }
                        assert forall|k: int| 0 <= k < self.players@.len() implies (#[trigger] self.players@[k]).wf() by {
                            assert(before[k].wf());
                        }
                    }
                }
            },
            Message::Disconnect => {
                self.drop_player(sender);
            },
        }
    }
}

/// Where the avalanche is after one step: see `sped_up` and `slid_down`.
pub open spec fn advanced(avalanche: Option<i64>, speed: int, config: Config) -> Option<i64> {
    match avalanche {
        Some(pos) => Some(slid_down(pos as int, sped_up(speed, config)) as i64),
        None => None,
    }
}

proof fn lemma_ids_kept(before: Seq<Player>, after: Seq<Player>)
    requires
        ids_unique(before),
        after.len() == before.len(),
        forall|i: int| 0 <= i < after.len() ==> (#[trigger] after[i]).id == before[i].id,
    ensures
        ids_unique(after),
{
    assert forall|a: int, b: int| 0 <= a < after.len() && 0 <= b < after.len() && a != b implies after[a].id != after[b].id by {
        assert(before[a].id != before[b].id);
    }
}

/// The tick counter after one step, wrapping at the top of `u64`.
pub open spec fn next_tick(t: u64) -> u64 {
    if t == u64::MAX { 0 } else { (t + 1) as u64 }
}

impl SharedModel {
    /// Index of the race's leader: a rider no rider is further down than.
    pub fn leader(&self) -> (r: Option<usize>)
        ensures
            r matches Some(i) ==> leads(self.players@, i as int),
            r is None ==> !exists|i: int| leads(self.players@, i),
    {
        let mut best: Option<usize> = None;
        let mut i: usize = 0;
        while i < self.players.len()
            invariant
                i <= self.players@.len(),
                best matches Some(b) ==> b < i && in_race(self.players@[b as int]) && forall|j: int|
                    0 <= j < i && in_race(#[trigger] self.players@[j]) ==> self.players@[b as int].position.y
                        <= self.players@[j].position.y,
                best is None ==> forall|j: int| 0 <= j < i ==> !in_race(#[trigger] self.players@[j]),
            decreases self.players@.len() - i,
        {
            let p = &self.players[i];
            if !matches!(p.state, PlayerState::SpawnWalk) {
                match best {
                    Some(b) => {
                        if p.position.y < self.players[b].position.y {
                            best = Some(i);
                        }
                    },
                    None => {
                        best = Some(i);
                    },
                }
            }
            i = i + 1;
        }
        if best.is_none() {
            assert forall|k: int| !leads(self.players@, k) by {
                if 0 <= k < self.players@.len() {
                    assert(!in_race(self.players@[k]));
                }
            }
        }
        best
    }

    /// Whether every rider trails the avalanche at `pos` by its travel in
    /// `RESET_FACTOR` seconds at `speed`.
    fn all_passed(&self, pos: i64, speed: i64) -> (r: bool)
        requires
            self.wf(),
            -COORD_LIMIT <= pos <= COORD_LIMIT,
            0 <= speed <= crate::geometry::SPEED_LIMIT,
        ensures
            r == forall|i: int| 0 <= i < self.players@.len() ==> !in_race(#[trigger] self.players@[i])
                || self.players@[i].position.y > pos + RESET_FACTOR * speed,
    {
        let mut i: usize = 0;
        while i < self.players.len()
            invariant
                i <= self.players@.len(),
                -COORD_LIMIT <= pos <= COORD_LIMIT,
                0 <= speed <= crate::geometry::SPEED_LIMIT,
                forall|j: int| 0 <= j < i ==> !in_race(#[trigger] self.players@[j])
                    || self.players@[j].position.y > pos + RESET_FACTOR * speed,
            decreases self.players@.len() - i,
        {
            let p = &self.players[i];
            if !matches!(p.state, PlayerState::SpawnWalk) && p.position.y <= pos + RESET_FACTOR * speed {
                return false;
            }
            i = i + 1;
        }
        true
    }

    /// One server step of `TICK_TIME`. While the avalanche runs, it speeds
    /// up toward its top speed and slides down. Every player then takes a
    /// step (see `Player::step`) against the avalanche's new position. Once
    /// the race is over the server resets: no avalanche, its speed back to
    /// the minimum, no winner, a fresh track of `seed`, and the race's
    /// scores, best first, recorded into the highscores and reported as
    /// `Event::RaceOver`. Otherwise the leader of the race is the winner.
    pub fn tick(&mut self, events: &mut Vec<Event>, seed: u64)
        requires
            old(self).wf(),
        ensures
            final(self).wf(),
            final(self).tick == next_tick(old(self).tick),
            final(self).players@.len() == old(self).players@.len(),
            forall|i: int| 0 <= i < final(self).players@.len() ==> step_of(
                old(self).players@[i],
                #[trigger] final(self).players@[i],
                old(self).config,
                old(self).track,
                advanced(old(self).avalanche_position, old(self).avalanche_speed as int, old(self).config),
                TICK_TIME as int,
            ),
            match old(self).avalanche_position {
                None => *final(self) == (SharedModel { tick: final(self).tick, players: final(self).players, ..*old(self) })
                    && final(events)@ == old(events)@,
                Some(pos) => {
                    let speed = sped_up(old(self).avalanche_speed as int, old(self).config);
                    let down = slid_down(pos as int, speed);
                    if race_over(final(self).players@, down, speed, old(self).config) {
                        &&& *final(self) == (SharedModel {
                            tick: final(self).tick,
                            players: final(self).players,
                            avalanche_position: None,
                            avalanche_speed: old(self).config.avalanche.min_speed,
                            track: final(self).track,
                            winner: None,
                            highscores: final(self).highscores,
                            scores: final(self).scores,
                            ..*old(self)
                        })
                        &&& final(self).track.laid_out(old(self).config.track)
                        &&& final(self).scores@.len() == 0
                        &&& if old(self).scores@.len() == 0 {
                            final(self).highscores@ == old(self).highscores@ && final(events)@ == old(events)@
                        } else {
                            exists|sorted: Seq<(String, i32)>|
                                by_score_desc(sorted) && sorted.to_multiset() == old(self).scores@.to_multiset()
                                    && table(final(self).highscores@) == recorded_all(table(old(self).highscores@), sorted)
                                    && (final(events)@.len() == old(events)@.len() + 1)
                                    && final(events)@.drop_last() == old(events)@
                                    && (final(events)@.last() matches Event::RaceOver(v) && v@ == sorted)
                        }
                    } else {
                        &&& *final(self) == (SharedModel {
                            tick: final(self).tick,
                            players: final(self).players,
                            avalanche_position: Some(down as i64),
                            avalanche_speed: speed as i64,
                            winner: final(self).winner,
                            ..*old(self)
                        })
                        &&& winner_ok(final(self).winner, final(self).players@, old(self).winner)
                        &&& final(events)@ == old(events)@
                    }
                },
            },
    {
        self.tick = if self.tick == u64::MAX { 0 } else { self.tick + 1 };
        let ghost before = self.players@;
        let pos = match self.avalanche_position {
            Some(pos) => pos,
            None => {
                step_all(&mut self.players, &self.config, &self.track, None, TICK_TIME);
                proof {
                    lemma_ids_kept(before, self.players@);
                }
                return;
            },
        };
        let gain = crate::motion::per_dt_exec(self.config.avalanche.acceleration, TICK_TIME);
        let speed: i64 = if self.avalanche_speed as i128 + gain > self.config.avalanche.max_speed as i128 {
            self.config.avalanche.max_speed
        } else {
            (self.avalanche_speed as i128 + gain) as i64
        };
        let travel = crate::motion::per_dt_exec(speed, TICK_TIME);
        let down: i64 = if pos as i128 - travel < -COORD_LIMIT as i128 {
            -COORD_LIMIT
        } else {
            (pos as i128 - travel) as i64
        };
        step_all(&mut self.players, &self.config, &self.track, Some(down), TICK_TIME);
        proof {
            lemma_ids_kept(before, self.players@);
        }
        if down < self.config.avalanche.start - RESET_BUFFER && self.all_passed(down, speed) {
            self.avalanche_position = None;
            self.avalanche_speed = self.config.avalanche.min_speed;
            self.winner = None;
            self.track = Track::new(seed, &self.config.track, &self.obstacle_kinds);
            if self.scores.len() > 0 {
                let mut taken: Vec<(String, i32)> = Vec::new();
                std::mem::swap(&mut taken, &mut self.scores);
                let sorted = sort_by_score_desc(taken);
                record_scores(&mut self.highscores, &sorted);
                events.push(Event::RaceOver(sorted));
                proof {
                    assert(events@.drop_last() =~= old(events)@);
                }
            }
            return;
        }
        self.avalanche_speed = speed;
        self.avalanche_position = Some(down);
        if let Some(i) = self.leader() {
            let name = self.players[i].name.clone();
            let score = self.players[i].score_from(0);
            self.winner = Some((name, score));
        }
    }
}

/// The avalanche's speed stays between its minimum and its top speed, and
/// a running avalanche only moves down the slope: strictly, wherever it
/// moves at least a thousandth of a unit per step (ten thousandths per
/// second) and has not reached the bottom of the world.
pub proof fn law_avalanche_bounded(speed: int, pos: int, config: Config)
    requires
        config.wf(),
        config.avalanche.min_speed <= speed <= config.avalanche.max_speed,
        -COORD_LIMIT <= pos,
    ensures
        config.avalanche.min_speed <= sped_up(speed, config) <= config.avalanche.max_speed,
        slid_down(pos, sped_up(speed, config)) <= pos,
        sped_up(speed, config) >= 10 && pos > -COORD_LIMIT ==> slid_down(pos, sped_up(speed, config)) < pos,
{
    let s = sped_up(speed, config);
    assert(config.avalanche.acceleration * TICK_TIME >= 0) by (nonlinear_arith)
        requires config.avalanche.acceleration >= 0;
    vstd::arithmetic::div_mod::lemma_div_is_ordered(0, config.avalanche.acceleration * TICK_TIME, 1000);
    assert(s * TICK_TIME >= 0) by (nonlinear_arith)
        requires s >= 0;
    vstd::arithmetic::div_mod::lemma_div_is_ordered(0, s * TICK_TIME, 1000);
    if s >= 10 {
        assert(s * TICK_TIME >= 1000) by (nonlinear_arith)
            requires s >= 10;
        vstd::arithmetic::div_mod::lemma_div_is_ordered(1000, s * TICK_TIME, 1000);
    }
}

} // verus!
