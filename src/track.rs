//! Procedural tracks: the boundary curve, obstacle placement, and queries by
//! longitude.
use vstd::prelude::*;
use rand::rngs::StdRng;
use crate::config::{kinds_wf, ObstacleKind, TrackConfig, CONTROL_STEP, TRACK_LENGTH_LIMIT, TRACK_WIDTH_LIMIT};
use crate::geometry::{floor_div, Vec2, COORD_LIMIT, RADIUS_LIMIT, SHAPE_LIMIT, UNIT};
use crate::rng::{draw_between, draw_kind, seeded};

verus! {

/// One cross-section of the track: its boundaries at longitude `y`.
#[derive(Clone, Copy, Debug, PartialEq, Eq, Structural)]
pub struct ShapePoint {
    pub y: i64,
    pub left: i64,
    pub right: i64,
}

/// A round obstacle; `index` names its kind.
#[derive(Clone, Copy, Debug, PartialEq, Eq, Structural)]
pub struct Obstacle {
    pub index: usize,
    pub radius: i64,
    pub position: Vec2,
}

/// A generated slope: its boundary samples, by strictly decreasing `y`, and
/// its obstacles, by decreasing `y`.
#[derive(Clone, Debug)]
pub struct Track {
    pub obstacles: Vec<Obstacle>,
    pub shape: Vec<ShapePoint>,
}

pub open spec fn shape_sorted(s: Seq<ShapePoint>) -> bool {
    forall|i: int, j: int| 0 <= i < j < s.len() ==> s[i].y > s[j].y
}

pub open spec fn point_ok(p: ShapePoint) -> bool {
    &&& p.left < p.right
    &&& -SHAPE_LIMIT <= p.y <= SHAPE_LIMIT
    &&& -SHAPE_LIMIT <= p.left <= SHAPE_LIMIT
    &&& -SHAPE_LIMIT <= p.right <= SHAPE_LIMIT
}

/// A usable boundary: two samples or more, sorted, each with `left < right`.
pub open spec fn shape_wf(s: Seq<ShapePoint>) -> bool {
    &&& s.len() >= 2
    &&& shape_sorted(s)
    &&& forall|i: int| 0 <= i < s.len() ==> point_ok(#[trigger] s[i])
}

/// `a` moved towards `b` by the fraction `num / den`, rounded down.
pub open spec fn lerp(a: int, b: int, num: int, den: int) -> int {
    a + (b - a) * num / den
}

/// The boundaries at `y`, interpolated linearly between samples `p` and `q`.
pub open spec fn between(p: ShapePoint, q: ShapePoint, y: int) -> (int, int) {
    (
        lerp(p.left as int, q.left as int, p.y - y, p.y - q.y),
        lerp(p.right as int, q.right as int, p.y - y, p.y - q.y),
    )
}

/// Whether samples `i` and `i + 1` bracket `y`.
pub open spec fn brackets(s: Seq<ShapePoint>, i: int, y: int) -> bool {
    0 <= i < s.len() - 1 && s[i].y >= y > s[i + 1].y
}

/// The boundaries at `y`: the edge sample's beyond the sampled range, the
/// interpolation of the two bracketing samples within it.
pub open spec fn bounds_at(s: Seq<ShapePoint>, y: int) -> (int, int) {
    if y >= s[0].y {
        (s[0].left as int, s[0].right as int)
    } else if y <= s.last().y {
        (s.last().left as int, s.last().right as int)
    } else {
        let i = choose|i: int| brackets(s, i, y);
        between(s[i], s[i + 1], y)
    }
}

proof fn lemma_brackets_unique(s: Seq<ShapePoint>, i: int, j: int, y: int)
    requires
        shape_sorted(s),
        brackets(s, i, y),
        brackets(s, j, y),
    ensures
        i == j,
{
    if i < j {
        assert(s[i + 1].y >= s[j].y || i + 1 == j);
    } else if j < i {
        assert(s[j + 1].y >= s[i].y || j + 1 == i);
    }
}

pub proof fn lemma_lerp_within(a: int, b: int, num: int, den: int)
    requires
        0 <= num <= den,
        den > 0,
    ensures
        a <= b ==> a <= lerp(a, b, num, den) <= b,
        b <= a ==> b <= lerp(a, b, num, den) <= a,
{
    let d = b - a;
    vstd::arithmetic::div_mod::lemma_div_multiples_vanish(d, den);
    vstd::arithmetic::div_mod::lemma_div_multiples_vanish(0, den);
    if d >= 0 {
        assert(0 <= d * num <= den * d) by (nonlinear_arith)
            requires d >= 0, 0 <= num <= den;
        vstd::arithmetic::div_mod::lemma_div_is_ordered(0, d * num, den);
        vstd::arithmetic::div_mod::lemma_div_is_ordered(d * num, den * d, den);
    } else {
        assert(den * d <= d * num <= 0) by (nonlinear_arith)
            requires d < 0, 0 <= num <= den;
        vstd::arithmetic::div_mod::lemma_div_is_ordered(d * num, 0, den);
        vstd::arithmetic::div_mod::lemma_div_is_ordered(den * d, d * num, den);
    }
    assert(den * 0 == 0);
}

/// `a + (b - a) * num / den`, for `0 <= num <= den`: a value between `a` and `b`.
fn lerp_exec(a: i64, b: i64, num: i64, den: i64) -> (r: i64)
    requires
        -COORD_LIMIT <= a <= COORD_LIMIT,
        -COORD_LIMIT <= b <= COORD_LIMIT,
        0 <= num <= den,
        den > 0,
    ensures
        r == lerp(a as int, b as int, num as int, den as int),
{
    proof {
        lemma_lerp_within(a as int, b as int, num as int, den as int);
    }
    let d: i128 = (b as i128) - (a as i128);
    assert(-0x200_0000_0000 * 0x8000_0000_0000_0000 <= d * num <= 0x200_0000_0000 * 0x8000_0000_0000_0000)
        by (nonlinear_arith)
        requires -0x200_0000_0000 <= d <= 0x200_0000_0000, 0 <= num <= 0x8000_0000_0000_0000;
    let q: i128 = floor_div(d * (num as i128), den as i128);
    (a as i128 + q) as i64
}

/// The boundaries `(left, right)` of `shape` at longitude `y`.
pub fn at_shape(shape: &Vec<ShapePoint>, y: i64) -> (r: (i64, i64))
    requires
        shape_wf(shape@),
    ensures
        r.0 == bounds_at(shape@, y as int).0,
        r.1 == bounds_at(shape@, y as int).1,
        -SHAPE_LIMIT <= r.0 <= SHAPE_LIMIT,
        -SHAPE_LIMIT <= r.1 <= SHAPE_LIMIT,
{
    let s = Ghost(shape@);
    let n = shape.len();
    assert(point_ok(s@[0]) && point_ok(s@[n - 1]));
    if y >= shape[0].y {
        return (shape[0].left, shape[0].right);
    }
    if y <= shape[n - 1].y {
        return (shape[n - 1].left, shape[n - 1].right);
    }
    let mut lo: usize = 0;
    let mut hi: usize = n - 1;
    while hi - lo > 1
        invariant
            s@ == shape@,
            n == s@.len(),
            lo < hi < n,
            s@[lo as int].y >= y,
            y > s@[hi as int].y,
        decreases hi - lo,
    {
        let mid: usize = lo + (hi - lo) / 2;
        if shape[mid].y >= y {
            lo = mid;
        } else {
            hi = mid;
        }
    }
    let p = shape[lo];
    let q = shape[lo + 1];
    proof {
        assert(brackets(s@, lo as int, y as int));
        let c = choose|i: int| brackets(s@, i, y as int);
        lemma_brackets_unique(s@, c, lo as int, y as int);
        assert(point_ok(s@[lo as int]) && point_ok(s@[lo + 1]));
        assert(p.y > q.y);
    }
    let num: i64 = p.y - y;
    let den: i64 = p.y - q.y;
    proof {
        lemma_lerp_within(p.left as int, q.left as int, num as int, den as int);
        lemma_lerp_within(p.right as int, q.right as int, num as int, den as int);
    }
    (lerp_exec(p.left, q.left, num, den), lerp_exec(p.right, q.right, num, den))
}


/// Samples of the boundary between two control points.
pub const SAMPLES_PER_STEP: i64 = 10;

/// Longitudinal distance between two boundary samples.
pub const SAMPLE_STEP: i64 = 1000;

/// Hermite basis weights at `t = k / 10`, scaled by 1000.
pub open spec fn h00(k: int) -> int {
    2 * (k * k * k) - 30 * (k * k) + 1000
}

pub open spec fn h10(k: int) -> int {
    (k * k * k) - 20 * (k * k) + 100 * k
}

pub open spec fn h01(k: int) -> int {
    30 * (k * k) - 2 * (k * k * k)
}

pub open spec fn h11(k: int) -> int {
    (k * k * k) - 10 * (k * k)
}

/// Four times the cardinal-spline tangent (tension one half) at control `i`.
pub open spec fn tangent4(m: Seq<i64>, i: int) -> int {
    if i == 0 {
        2 * (m[1] - m[0])
    } else if i == m.len() - 1 {
        2 * (m[i] - m[i - 1])
    } else {
        m[i + 1] - m[i - 1]
    }
}

/// The middle curve between controls `i` and `i + 1` at `t = k / 10`, rounded down.
pub open spec fn spline(m: Seq<i64>, i: int, k: int) -> int {
    (4 * h00(k) * m[i] + h10(k) * tangent4(m, i) + 4 * h01(k) * m[i + 1] + h11(k) * tangent4(m, i + 1))
        / 4000
}

/// Sample `j` of the boundary through the middle controls `m`, `width` to each side.
pub open spec fn sample(m: Seq<i64>, width: int, j: int) -> ShapePoint {
    let x = spline(m, j / 10, j % 10);
    ShapePoint { y: (-j * SAMPLE_STEP) as i64, left: (x - width) as i64, right: (x + width) as i64 }
}

/// Whether `s` is the boundary sampled from the middle controls `m`.
pub open spec fn sampled_from(s: Seq<ShapePoint>, m: Seq<i64>, width: int) -> bool {
    &&& s.len() == (m.len() - 1) * 10
    &&& forall|j: int| 0 <= j < s.len() ==> s[j] == sample(m, width, j)
}

/// Whether `m` is a walk of middle controls for a track of `config`: one
/// control per step of the length, starting at zero, each step bounded.
pub open spec fn walk_ok(m: Seq<i64>, config: TrackConfig) -> bool {
    &&& m.len() >= 2
    &&& (m.len() - 1) * CONTROL_STEP < config.length <= m.len() * CONTROL_STEP
    &&& m[0] == 0
    &&& forall|i: int| 0 <= i < m.len() - 1 ==> -CONTROL_STEP <= #[trigger] m[i + 1] - m[i] <= CONTROL_STEP
}

proof fn lemma_weights(k: int)
    requires
        0 <= k < 10,
    ensures
        0 <= h00(k) <= 1000,
        0 <= h01(k) <= 1000,
        h00(k) + h01(k) == 1000,
        0 <= h10(k) <= 150,
        -150 <= h11(k) <= 0,
{
    assert(0 <= k < 10);
    if k == 0 {
        assert(k * k == 0 && k * k * k == 0) by (nonlinear_arith)
            requires k == 0;
    } else if k == 1 {
        assert(k * k == 1 && k * k * k == 1) by (nonlinear_arith)
            requires k == 1;
    } else if k == 2 {
        assert(k * k == 4 && k * k * k == 8) by (nonlinear_arith)
            requires k == 2;
    } else if k == 3 {
        assert(k * k == 9 && k * k * k == 27) by (nonlinear_arith)
            requires k == 3;
    } else if k == 4 {
        assert(k * k == 16 && k * k * k == 64) by (nonlinear_arith)
            requires k == 4;
    } else if k == 5 {
        assert(k * k == 25 && k * k * k == 125) by (nonlinear_arith)
            requires k == 5;
    } else if k == 6 {
        assert(k * k == 36 && k * k * k == 216) by (nonlinear_arith)
            requires k == 6;
    } else if k == 7 {
        assert(k * k == 49 && k * k * k == 343) by (nonlinear_arith)
            requires k == 7;
    } else if k == 8 {
        assert(k * k == 64 && k * k * k == 512) by (nonlinear_arith)
            requires k == 8;
    } else {
        assert(k * k == 81 && k * k * k == 729) by (nonlinear_arith)
            requires k == 9;
    }
}

proof fn lemma_spline_bound(m: Seq<i64>, i: int, k: int, bound: int)
    requires
        m.len() >= 2,
        0 <= i < m.len() - 1,
        0 <= k < 10,
        bound >= 0,
        forall|j: int| 0 <= j < m.len() ==> -bound <= #[trigger] m[j] <= bound,
    ensures
        -2 * bound <= spline(m, i, k) <= 2 * bound,
{
    lemma_weights(k);
    let a = m[i] as int;
    let b = m[i + 1] as int;
    let t1 = tangent4(m, i);
    let t2 = tangent4(m, i + 1);
    assert(-4 * bound <= t1 <= 4 * bound);
    assert(-4 * bound <= t2 <= 4 * bound);
    let (w00, w10, w01, w11) = (h00(k), h10(k), h01(k), h11(k));
    let num = 4 * w00 * a + w10 * t1 + 4 * w01 * b + w11 * t2;
    assert(-8000 * bound <= num <= 8000 * bound) by (nonlinear_arith)
        requires
            0 <= w00 <= 1000, 0 <= w01 <= 1000, w00 + w01 == 1000, 0 <= w10 <= 150,
            -150 <= w11 <= 0, -bound <= a <= bound, -bound <= b <= bound,
            -4 * bound <= t1 <= 4 * bound, -4 * bound <= t2 <= 4 * bound,
            num == 4 * w00 * a + w10 * t1 + 4 * w01 * b + w11 * t2;
    vstd::arithmetic::div_mod::lemma_div_is_ordered(num, 8000 * bound, 4000);
    vstd::arithmetic::div_mod::lemma_div_is_ordered(-8000 * bound, num, 4000);
    vstd::arithmetic::div_mod::lemma_div_multiples_vanish(2 * bound, 4000);
    vstd::arithmetic::div_mod::lemma_div_multiples_vanish(-2 * bound, 4000);
}

/// The Hermite weights at `t = k / 10`.
fn weights(k: i64) -> (r: (i128, i128, i128, i128))
    requires
        0 <= k < 10,
    ensures
        r.0 == h00(k as int),
        r.1 == h10(k as int),
        r.2 == h01(k as int),
        r.3 == h11(k as int),
{
    let k: i128 = k as i128;
    assert(0 <= k * k <= 100) by (nonlinear_arith)
        requires 0 <= k < 10;
    let k2: i128 = k * k;
    assert(0 <= k2 * k <= 1000) by (nonlinear_arith)
        requires 0 <= k < 10, 0 <= k2 <= 100;
    let k3: i128 = k2 * k;
    assert(2 * k3 == 2 * k * k * k && 30 * k2 == 30 * k * k && 20 * k2 == 20 * k * k && 10 * k2
        == 10 * k * k) by (nonlinear_arith)
        requires k2 == k * k, k3 == k2 * k;
    (2 * k3 - 30 * k2 + 1000, k3 - 20 * k2 + 100 * k, 30 * k2 - 2 * k3, k3 - 10 * k2)
}

/// Four times the tangent at control `i`.
fn tangent4_exec(m: &Vec<i64>, i: usize) -> (r: i128)
    requires
        m@.len() >= 2,
        i < m@.len(),
        forall|j: int| 0 <= j < m@.len() ==> -TRACK_LENGTH_LIMIT <= #[trigger] m@[j] <= TRACK_LENGTH_LIMIT,
    ensures
        r == tangent4(m@, i as int),
{
    let n = m.len();
    if i == 0 {
        2 * (m[1] as i128 - m[0] as i128)
    } else if i == n - 1 {
        2 * (m[i] as i128 - m[i - 1] as i128)
    } else {
        m[i + 1] as i128 - m[i - 1] as i128
    }
}

/// The boundary of a track whose middle passes through the controls `m`,
/// spaced ten units apart: a cardinal spline (tension one half) through
/// them, sampled ten times per step, with each boundary `width` away from the
/// middle. Offsetting one spline equals fitting one through each boundary's
/// controls, as the spline is linear in its controls.
pub fn shape_from_controls(m: &Vec<i64>, width: i64) -> (r: Vec<ShapePoint>)
    requires
        2 <= m@.len() <= 0x100_0000,
        0 < width <= TRACK_WIDTH_LIMIT,
        forall|j: int| 0 <= j < m@.len() ==> -TRACK_LENGTH_LIMIT <= #[trigger] m@[j] <= TRACK_LENGTH_LIMIT,
    ensures
        sampled_from(r@, m@, width as int),
        shape_wf(r@),
{
    let n = m.len();
    let mut shape: Vec<ShapePoint> = Vec::new();
    let mut i: usize = 0;
    while i < n - 1
        invariant
            2 <= n == m@.len() <= 0x100_0000,
            0 < width <= TRACK_WIDTH_LIMIT,
            forall|j: int| 0 <= j < m@.len() ==> -TRACK_LENGTH_LIMIT <= #[trigger] m@[j] <= TRACK_LENGTH_LIMIT,
            i <= n - 1,
            shape@.len() == i * 10,
            forall|j: int| 0 <= j < shape@.len() ==> shape@[j] == sample(m@, width as int, j),
        decreases n - 1 - i,
    {
        let t1 = tangent4_exec(m, i);
        let t2 = tangent4_exec(m, i + 1);
        let a: i128 = m[i] as i128;
        let b: i128 = m[i + 1] as i128;
        let mut k: i64 = 0;
        while k < 10
            invariant
                2 <= n == m@.len() <= 0x100_0000,
                0 < width <= TRACK_WIDTH_LIMIT,
                forall|j: int| 0 <= j < m@.len() ==> -TRACK_LENGTH_LIMIT <= #[trigger] m@[j] <= TRACK_LENGTH_LIMIT,
                i < n - 1,
                0 <= k <= 10,
                t1 == tangent4(m@, i as int),
                t2 == tangent4(m@, i + 1),
                a == m@[i as int],
                b == m@[i + 1],
                shape@.len() == i * 10 + k,
                forall|j: int| 0 <= j < shape@.len() ==> shape@[j] == sample(m@, width as int, j),
            decreases 10 - k,
        {
            let (w00, w10, w01, w11) = weights(k);
            proof {
                lemma_weights(k as int);
                lemma_spline_bound(m@, i as int, k as int, TRACK_LENGTH_LIMIT as int);
                assert(-4 * TRACK_LENGTH_LIMIT <= t1 <= 4 * TRACK_LENGTH_LIMIT);
                assert(-4 * TRACK_LENGTH_LIMIT <= t2 <= 4 * TRACK_LENGTH_LIMIT);
                assert(-0x100_0000_0000_0000 <= 4 * w00 * a <= 0x100_0000_0000_0000) by (nonlinear_arith)
                    requires 0 <= w00 <= 1000, -TRACK_LENGTH_LIMIT <= a <= TRACK_LENGTH_LIMIT;
                assert(-0x100_0000_0000_0000 <= 4 * w01 * b <= 0x100_0000_0000_0000) by (nonlinear_arith)
                    requires 0 <= w01 <= 1000, -TRACK_LENGTH_LIMIT <= b <= TRACK_LENGTH_LIMIT;
                assert(-0x100_0000_0000_0000 <= w10 * t1 <= 0x100_0000_0000_0000) by (nonlinear_arith)
                    requires 0 <= w10 <= 150, -4 * TRACK_LENGTH_LIMIT <= t1 <= 4 * TRACK_LENGTH_LIMIT;
                assert(-0x100_0000_0000_0000 <= w11 * t2 <= 0x100_0000_0000_0000) by (nonlinear_arith)
                    requires -150 <= w11 <= 0, -4 * TRACK_LENGTH_LIMIT <= t2 <= 4 * TRACK_LENGTH_LIMIT;
            }
            let num: i128 = 4 * w00 * a + w10 * t1 + 4 * w01 * b + w11 * t2;
            let x: i128 = floor_div(num, 4000);
            let j: i64 = (i as i64) * 10 + k;
            proof {
                vstd::arithmetic::div_mod::lemma_fundamental_div_mod_converse(j as int, 10, i as int, k as int);
                assert(x == spline(m@, j as int / 10, j as int % 10));
            }
            let p = ShapePoint { y: -j * SAMPLE_STEP, left: (x - width as i128) as i64, right: (x + width as i128) as i64 };
            assert(p == sample(m@, width as int, j as int));
            shape.push(p);
            k = k + 1;
        }
        i = i + 1;
    }
    proof {
        assert forall|j: int| 0 <= j < shape@.len() implies point_ok(#[trigger] shape@[j]) by {
            let q = j / 10;
            assert(0 <= j * SAMPLE_STEP <= 0x80_0000_0000) by (nonlinear_arith)
                requires 0 <= j < 0x1000_0000;
            vstd::arithmetic::div_mod::lemma_fundamental_div_mod(j, 10);
            lemma_spline_bound(m@, q, j % 10, TRACK_LENGTH_LIMIT as int);
        }
    }
    shape
}


/// Whether obstacles `a` and `b` do not overlap: their centres lie at least
/// the sum of their radii apart.
pub open spec fn separated(a: Obstacle, b: Obstacle) -> bool {
    let dx = a.position.x - b.position.x;
    let dy = a.position.y - b.position.y;
    let r = a.radius + b.radius;
    dx * dx + dy * dy >= r * r
}

pub open spec fn obstacle_bounded(o: Obstacle) -> bool {
    &&& 0 <= o.radius <= RADIUS_LIMIT
    &&& o.position.within(COORD_LIMIT as int)
}

pub open spec fn obstacles_sorted(obs: Seq<Obstacle>) -> bool {
    forall|i: int, j: int| 0 <= i < j < obs.len() ==> obs[i].position.y >= obs[j].position.y
}

/// No two obstacles overlap.
pub open spec fn obstacles_apart(obs: Seq<Obstacle>) -> bool {
    forall|i: int, j: int|
        0 <= i < obs.len() && 0 <= j < obs.len() && i != j ==> separated(obs[i], obs[j])
}

/// Whether `o` lies in the obstacle area of a track of `config` with boundary
/// `s`: below the spawn area, inside the boundary of its row, and outside
/// that row's middle corridor.
pub open spec fn placed_ok(s: Seq<ShapePoint>, config: TrackConfig, o: Obstacle) -> bool {
    let l = bounds_at(s, o.position.y as int).0;
    let r = bounds_at(s, o.position.y as int).1;
    let off = 2 * o.position.x - (l + r);
    &&& -config.length <= o.position.y < -config.spawn_area
    &&& 0 <= o.radius <= RADIUS_LIMIT
    &&& l + o.radius <= o.position.x <= r - o.radius
    &&& (off >= 2 * config.safe_middle || off <= -2 * config.safe_middle)
}

/// Whether `o` is of a kind of the catalogue: its index and radius are those
/// of an entry.
pub open spec fn of_catalogue(kinds: Seq<ObstacleKind>, o: Obstacle) -> bool {
    exists|k: int| 0 <= k < kinds.len() && kinds[k].index == o.index && kinds[k].hitbox_radius == o.radius
}

impl Track {
    /// A usable track: a valid boundary and bounded obstacles sorted by
    /// decreasing `y`.
    pub open spec fn wf(&self) -> bool {
        &&& shape_wf(self.shape@)
        &&& obstacles_sorted(self.obstacles@)
        &&& forall|i: int| 0 <= i < self.obstacles@.len() ==> obstacle_bounded(#[trigger] self.obstacles@[i])
    }

    /// The layout that generation promises for `config`: obstacles apart from
    /// each other, each in the obstacle area of its row.
    pub open spec fn laid_out(&self, config: TrackConfig) -> bool {
        &&& obstacles_apart(self.obstacles@)
        &&& forall|i: int| 0 <= i < self.obstacles@.len() ==> placed_ok(self.shape@, config, #[trigger] self.obstacles@[i])
    }
}

proof fn lemma_separated_symmetric(a: Obstacle, b: Obstacle)
    ensures
        separated(a, b) == separated(b, a),
{
    let dx = a.position.x - b.position.x;
    let dy = a.position.y - b.position.y;
    assert(dx * dx == (-dx) * (-dx) && dy * dy == (-dy) * (-dy)) by (nonlinear_arith);
}

/// Whether `o` keeps clear of every obstacle of `obs`.
fn clear_of(obs: &Vec<Obstacle>, o: &Obstacle) -> (r: bool)
    requires
        forall|i: int| 0 <= i < obs@.len() ==> obstacle_bounded(#[trigger] obs@[i]),
        obstacle_bounded(*o),
    ensures
        r == forall|i: int| 0 <= i < obs@.len() ==> separated(#[trigger] obs@[i], *o),
{
    let mut i: usize = 0;
    while i < obs.len()
        invariant
            i <= obs@.len(),
            forall|j: int| 0 <= j < obs@.len() ==> obstacle_bounded(#[trigger] obs@[j]),
            obstacle_bounded(*o),
            forall|j: int| 0 <= j < i ==> separated(#[trigger] obs@[j], *o),
        decreases obs@.len() - i,
    {
        let p = &obs[i];
        assert(obstacle_bounded(*p));
        let dx: i128 = p.position.x as i128 - o.position.x as i128;
        let dy: i128 = p.position.y as i128 - o.position.y as i128;
        let rr: i128 = p.radius as i128 + o.radius as i128;
        assert(0 <= dx * dx <= 0x10_0000_0000_0000_0000_0000 && 0 <= dy * dy <= 0x10_0000_0000_0000_0000_0000
            && 0 <= rr * rr <= 0x100_0000_0000_0000) by (nonlinear_arith)
            requires -0x200_0000_0000 <= dx <= 0x200_0000_0000, -0x200_0000_0000 <= dy <= 0x200_0000_0000,
                0 <= rr <= 0x20_0000;
        if dx * dx + dy * dy < rr * rr {
            return false;
        }
        i = i + 1;
    }
    true
}

/// Inserts `o` after every obstacle with `y` at or above its own.
fn insert_sorted(obs: &mut Vec<Obstacle>, o: Obstacle) -> (idx: usize)
    requires
        obstacles_sorted(old(obs)@),
        old(obs)@.len() < usize::MAX,
    ensures
        idx <= old(obs)@.len(),
        final(obs)@ == old(obs)@.insert(idx as int, o),
        obstacles_sorted(final(obs)@),
{
    let mut idx: usize = 0;
    while idx < obs.len() && obs[idx].position.y >= o.position.y
        invariant
            idx <= obs@.len(),
            forall|j: int| 0 <= j < idx ==> (#[trigger] obs@[j]).position.y >= o.position.y,
        decreases obs@.len() - idx,
    {
        idx = idx + 1;
    }
    let ghost before = obs@;
    obs.insert(idx, o);
    proof {
        assert forall|i: int, j: int| 0 <= i < j < obs@.len() implies obs@[i].position.y >= obs@[j].position.y by {
            if idx < before.len() {
                assert(before[idx as int].position.y < o.position.y);
            }
            if i < idx && j > idx {
                assert(before[i].position.y >= before[j - 1].position.y);
            }
        }
    }
    idx
}

/// Number of attempts at placing an obstacle on a track of `config`.
pub open spec fn attempts(config: TrackConfig) -> int {
    (config.length / UNIT) as int * (config.width / UNIT) as int * config.obstacles_density as int / 1000
}

impl Track {
    /// The boundaries `(left, right)` at longitude `y`: the edge sample's
    /// beyond the sampled range, interpolated linearly within it.
    pub fn at(&self, y: i64) -> (r: (i64, i64))
        requires
            self.wf(),
        ensures
            r.0 == bounds_at(self.shape@, y as int).0,
            r.1 == bounds_at(self.shape@, y as int).1,
            -SHAPE_LIMIT <= r.0 <= SHAPE_LIMIT,
            -SHAPE_LIMIT <= r.1 <= SHAPE_LIMIT,
    {
        at_shape(&self.shape, y)
    }

    /// The track of `seed`: a random walk of middle controls, one per ten
    /// units of length, each step at most ten units sideways; the boundary
    /// sampled from it; then obstacles of the catalogue placed at random,
    /// each kept only where it lies in the obstacle area of its row and
    /// overlaps no obstacle kept before.
    pub fn new(seed: u64, config: &TrackConfig, kinds: &Vec<ObstacleKind>) -> (r: Track)
        requires
            config.wf(),
            kinds_wf(kinds@),
        ensures
            r.wf(),
            r.laid_out(*config),
            forall|i: int| 0 <= i < r.obstacles@.len() ==> of_catalogue(kinds@, #[trigger] r.obstacles@[i]),
            exists|m: Seq<i64>| walk_ok(m, *config) && sampled_from(r.shape@, m, config.width as int),
    {
        let mut rng = seeded(seed);
        let mut mids: Vec<i64> = Vec::new();
        let count: i64 = (config.length + CONTROL_STEP - 1) / CONTROL_STEP;
        assert(CONTROL_STEP == 10000);
        assert((count - 1) * CONTROL_STEP < config.length <= count * CONTROL_STEP);
        let mut i: i64 = 0;
        let mut mid: i64 = 0;
        while i < count
            invariant
                config.wf(),
                (count - 1) * CONTROL_STEP < config.length <= count * CONTROL_STEP,
                0 <= i <= count,
                mids@.len() == i,
                -i * CONTROL_STEP <= mid <= i * CONTROL_STEP,
                mids@.len() == 0 ==> mid == 0,
                mids@.len() > 0 ==> mids@[0] == 0,
                mids@.len() > 0 ==> -CONTROL_STEP <= mid - mids@.last() <= CONTROL_STEP,
                forall|k: int| 0 <= k < mids@.len() - 1 ==> -CONTROL_STEP <= #[trigger] mids@[k + 1] - mids@[k] <= CONTROL_STEP,
                forall|j: int| 0 <= j < mids@.len() ==> -TRACK_LENGTH_LIMIT <= #[trigger] mids@[j] <= TRACK_LENGTH_LIMIT,
            decreases count - i,
        {
            mids.push(mid);
            let d = draw_between(&mut rng, -CONTROL_STEP, CONTROL_STEP);
            mid = mid + d;
            i = i + 1;
        }
        assert(walk_ok(mids@, *config));
        let shape = shape_from_controls(&mids, config.width);
        let ghost m = mids@;

        let lu: u64 = (config.length / UNIT) as u64;
        let wu: u64 = (config.width / UNIT) as u64;
        assert(lu * wu <= 300_000_000_000_000) by (nonlinear_arith)
            requires lu <= 69_000_000, wu <= 4_300_000;
        assert(lu * wu * config.obstacles_density <= 4_915_200_000_000_000_000) by (nonlinear_arith)
            requires lu * wu <= 300_000_000_000_000, config.obstacles_density <= 0x4000;
        let total: u64 = lu * wu * config.obstacles_density / 1000;
        let mut obstacles: Vec<Obstacle> = Vec::new();
        let mut t: u64 = 0;
        while t < total
            invariant
                config.wf(),
                kinds_wf(kinds@),
                shape_wf(shape@),
                t <= total,
                obstacles@.len() <= t,
                obstacles_sorted(obstacles@),
                obstacles_apart(obstacles@),
                forall|i: int| 0 <= i < obstacles@.len() ==> placed_ok(shape@, *config, #[trigger] obstacles@[i]),
                forall|i: int| 0 <= i < obstacles@.len() ==> obstacle_bounded(#[trigger] obstacles@[i]),
                forall|i: int| 0 <= i < obstacles@.len() ==> of_catalogue(kinds@, #[trigger] obstacles@[i]),
            decreases total - t,
        {
            t = t + 1;
            if let Some(kind) = draw_kind(&mut rng, kinds) {
                let ghost ki = choose|i: int| 0 <= i < kinds@.len() && kinds@[i] == kind;
                proof {
                    assert(kinds@[ki].wf());
                }
                let radius = kind.hitbox_radius;
                let oy = draw_between(&mut rng, -config.length, -config.spawn_area - 1);
                let (l, r) = at_shape(&shape, oy);
                if l + radius <= r - radius {
                    let x = draw_between(&mut rng, l + radius, r - radius);
                    let off: i64 = 2 * x - (l + r);
                    let band: i64 = 2 * config.safe_middle;
                    if off >= band || off <= -band {
                        let o = Obstacle { index: kind.index, radius, position: Vec2 { x, y: oy } };
                        assert(placed_ok(shape@, *config, o));
                        assert(of_catalogue(kinds@, o)) by {
                            assert(kinds@[ki].index == o.index && kinds@[ki].hitbox_radius == o.radius);
                        }
                        if obstacles.len() < usize::MAX && clear_of(&obstacles, &o) {
                            let ghost before = obstacles@;
                            let idx = insert_sorted(&mut obstacles, o);
                            proof {
                                assert forall|i: int, j: int|
                                    0 <= i < obstacles@.len() && 0 <= j < obstacles@.len() && i != j
                                    implies separated(obstacles@[i], obstacles@[j]) by {
                                    if i == idx {
                                        lemma_separated_symmetric(o, obstacles@[j]);
                                    } else if j != idx {
                                        let bi = if i < idx { i } else { i - 1 };
                                        let bj = if j < idx { j } else { j - 1 };
                                        assert(separated(before[bi], before[bj]));
                                    }
                                }
                                assert forall|i: int| 0 <= i < obstacles@.len() implies
                                    placed_ok(shape@, *config, #[trigger] obstacles@[i]) && obstacle_bounded(obstacles@[i])
                                    && of_catalogue(kinds@, obstacles@[i]) by {
                                    if i < idx {
                                        assert(obstacles@[i] == before[i]);
                                    } else if i > idx {
                                        assert(obstacles@[i] == before[i - 1]);
                                    }
                                }
                            }
                        }
                    }
                }
            }
        }
        let track = Track { obstacles, shape };
        assert(walk_ok(m, *config) && sampled_from(track.shape@, m, config.width as int));
        track
    }
}

/// Whether `obs[a..b]` holds exactly the obstacles with `y` in `y_min..=y_max`,
/// those before it lying above `y_max` and those after it below `y_min`.
pub open spec fn obstacle_window(obs: Seq<Obstacle>, y_max: int, y_min: int, a: int, b: int) -> bool {
    &&& 0 <= a <= b <= obs.len()
    &&& forall|i: int| 0 <= i < a ==> (#[trigger] obs[i]).position.y > y_max
    &&& forall|i: int| a <= i < b ==> y_min <= (#[trigger] obs[i]).position.y <= y_max
    &&& forall|i: int| b <= i < obs.len() ==> (#[trigger] obs[i]).position.y < y_min
}

/// The same for the boundary samples.
pub open spec fn shape_window(s: Seq<ShapePoint>, y_max: int, y_min: int, a: int, b: int) -> bool {
    &&& 0 <= a <= b <= s.len()
    &&& forall|i: int| 0 <= i < a ==> (#[trigger] s[i]).y > y_max
    &&& forall|i: int| a <= i < b ==> y_min <= (#[trigger] s[i]).y <= y_max
    &&& forall|i: int| b <= i < s.len() ==> (#[trigger] s[i]).y < y_min
}

/// First index whose obstacle lies at or below `y` (`strict`: below `y`).
fn obstacle_partition(obs: &Vec<Obstacle>, y: i64, strict: bool) -> (r: usize)
    requires
        obstacles_sorted(obs@),
    ensures
        r <= obs@.len(),
        forall|i: int| 0 <= i < r ==> if strict { (#[trigger] obs@[i]).position.y >= y } else { obs@[i].position.y > y },
        forall|i: int| r <= i < obs@.len() ==> if strict { (#[trigger] obs@[i]).position.y < y } else { obs@[i].position.y <= y },
{
    let mut lo: usize = 0;
    let mut hi: usize = obs.len();
    while lo < hi
        invariant
            obstacles_sorted(obs@),
            lo <= hi <= obs@.len(),
            forall|i: int| 0 <= i < lo ==> if strict { (#[trigger] obs@[i]).position.y >= y } else { obs@[i].position.y > y },
            forall|i: int| hi <= i < obs@.len() ==> if strict { (#[trigger] obs@[i]).position.y < y } else { obs@[i].position.y <= y },
        decreases hi - lo,
    {
        let mid: usize = lo + (hi - lo) / 2;
        let v = obs[mid].position.y;
        let above = if strict { v >= y } else { v > y };
        if above {
            lo = mid + 1;
        } else {
            hi = mid;
        }
    }
    lo
}

/// First index whose sample lies at or below `y` (`strict`: below `y`).
fn shape_partition(s: &Vec<ShapePoint>, y: i64, strict: bool) -> (r: usize)
    requires
        shape_sorted(s@),
    ensures
        r <= s@.len(),
        forall|i: int| 0 <= i < r ==> if strict { (#[trigger] s@[i]).y >= y } else { s@[i].y > y },
        forall|i: int| r <= i < s@.len() ==> if strict { (#[trigger] s@[i]).y < y } else { s@[i].y <= y },
{
    let mut lo: usize = 0;
    let mut hi: usize = s.len();
    while lo < hi
        invariant
            shape_sorted(s@),
            lo <= hi <= s@.len(),
            forall|i: int| 0 <= i < lo ==> if strict { (#[trigger] s@[i]).y >= y } else { s@[i].y > y },
            forall|i: int| hi <= i < s@.len() ==> if strict { (#[trigger] s@[i]).y < y } else { s@[i].y <= y },
        decreases hi - lo,
    {
        let mid: usize = lo + (hi - lo) / 2;
        let v = s[mid].y;
        let above = if strict { v >= y } else { v > y };
        if above {
            lo = mid + 1;
        } else {
            hi = mid;
        }
    }
    lo
}

impl Track {
    /// The obstacles with `y` in `y_min..=y_max`, in track order, found by
    /// binary search of both ends.
    pub fn query_obstacles(&self, y_max: i64, y_min: i64) -> (r: &[Obstacle])
        requires
            self.wf(),
        ensures
            exists|a: int, b: int|
                obstacle_window(self.obstacles@, y_max as int, y_min as int, a, b) && r@ == self.obstacles@.subrange(a, b),
    {
        let a = obstacle_partition(&self.obstacles, y_max, false);
        let b0 = obstacle_partition(&self.obstacles, y_min, true);
        let b = if b0 < a { a } else { b0 };
        let r = &self.obstacles.as_slice()[a..b];
        assert(obstacle_window(self.obstacles@, y_max as int, y_min as int, a as int, b as int));
        r
    }

    /// The boundary samples with `y` in `y_min..=y_max`, in track order.
    pub fn query_shape(&self, y_max: i64, y_min: i64) -> (r: &[ShapePoint])
        requires
            self.wf(),
        ensures
            exists|a: int, b: int|
                shape_window(self.shape@, y_max as int, y_min as int, a, b) && r@ == self.shape@.subrange(a, b),
    {
        let a = shape_partition(&self.shape, y_max, false);
        let b0 = shape_partition(&self.shape, y_min, true);
        let b = if b0 < a { a } else { b0 };
        let r = &self.shape.as_slice()[a..b];
        assert(shape_window(self.shape@, y_max as int, y_min as int, a as int, b as int));
        r
    }
}

/// The bounds at a longitude are continuous in it: within the sampled range
/// they are the linear interpolation of the two samples that bracket it, and
/// stay between those samples' bounds; at a sample they are its own; beyond
/// the range they are the nearest edge sample's, with no extrapolation.
pub proof fn law_bounds_interpolate(s: Seq<ShapePoint>, y: int)
    requires
        shape_wf(s),
    ensures
        y >= s[0].y ==> bounds_at(s, y) == (s[0].left as int, s[0].right as int),
        y <= s.last().y ==> bounds_at(s, y) == (s.last().left as int, s.last().right as int),
        forall|i: int| brackets(s, i, y) ==> bounds_at(s, y) == between(s[i], s[i + 1], y),
        forall|i: int| #![trigger brackets(s, i, y)] brackets(s, i, y) ==> {
            &&& (s[i].left <= bounds_at(s, y).0 <= s[i + 1].left || s[i + 1].left <= bounds_at(s, y).0 <= s[i].left)
            &&& (s[i].right <= bounds_at(s, y).1 <= s[i + 1].right || s[i + 1].right <= bounds_at(s, y).1 <= s[i].right)
        },
        forall|i: int| 0 <= i < s.len() && #[trigger] s[i].y == y ==> bounds_at(s, y) == (s[i].left as int, s[i].right as int),
{
    assert(s[0].y > s.last().y);
    assert forall|i: int| brackets(s, i, y) implies bounds_at(s, y) == between(s[i], s[i + 1], y) by {
        assert(s[i + 1].y >= s.last().y);
        if y >= s[0].y {
            assert(i == 0);
            let den = s[0].y - s[1].y;
            assert((s[1].left - s[0].left) * 0 == 0);
            assert((s[1].right - s[0].right) * 0 == 0);
            vstd::arithmetic::div_mod::lemma_div_multiples_vanish(0, den);
        } else {
            let c = choose|c: int| brackets(s, c, y);
            lemma_brackets_unique(s, c, i, y);
        }
    }
    assert forall|i: int| #![trigger brackets(s, i, y)] brackets(s, i, y) implies {
        &&& (s[i].left <= bounds_at(s, y).0 <= s[i + 1].left || s[i + 1].left <= bounds_at(s, y).0 <= s[i].left)
        &&& (s[i].right <= bounds_at(s, y).1 <= s[i + 1].right || s[i + 1].right <= bounds_at(s, y).1 <= s[i].right)
    } by {
        assert(bounds_at(s, y) == between(s[i], s[i + 1], y));
        lemma_lerp_within(s[i].left as int, s[i + 1].left as int, s[i].y - y, s[i].y - s[i + 1].y);
        lemma_lerp_within(s[i].right as int, s[i + 1].right as int, s[i].y - y, s[i].y - s[i + 1].y);
    }
    assert forall|i: int| 0 <= i < s.len() && #[trigger] s[i].y == y implies bounds_at(s, y) == (s[i].left as int, s[i].right as int) by {
        if i == 0 {
        } else if i == s.len() - 1 {
        } else {
            assert(s[i].y > s[i + 1].y);
            assert(brackets(s, i, y));
            let c = choose|c: int| brackets(s, c, y);
            lemma_brackets_unique(s, c, i, y);
            let den = s[i].y - s[i + 1].y;
            assert((s[i + 1].left - s[i].left) * 0 == 0);
            assert((s[i + 1].right - s[i].right) * 0 == 0);
            vstd::arithmetic::div_mod::lemma_div_multiples_vanish(0, den);
        }
    }
}

} // verus!
