//! The heuristic evaluator: scores every empty cell for the seat to move and
//! picks, uniformly at random, among the cells tied for the maximum score.
//!
//! Scores are computed in `u64` with saturation; the contracts state the
//! result exactly as the mathematical score clamped to `u64::MAX`.

use vstd::prelude::*;
use vstd::arithmetic::power::pow;
use crate::bot::{Bot, ComputerWeights, weights_of};
use crate::game::{Game, GameTrait};
use crate::model::{
    GameModel, Player, PlayerType, board_full, cell, current_player, dir_dx, dir_dy, in_bounds,
    occupied_count, place, terminal, wf_model, extends, lemma_extends_trans, lemma_place_props,
};
use crate::point::Point;

use rand::seq::SliceRandom;

verus! {

/// Clamp a mathematical score to what a `u64` can hold.
pub open spec fn sat64(x: int) -> int {
    if x > u64::MAX {
        u64::MAX as int
    } else {
        x
    }
}

/// The seat about to move, as a seat index.
pub open spec fn current_seat(m: GameModel) -> Player {
    current_player(m) as Player
}

/// What one ray scan has seen so far: empty cells before the first stone,
/// then one seat's stones (`run`) counted through interior gaps, until a
/// foreign stone or the board edge stops the ray.
pub struct RayStats {
    pub initial_empty: int,
    pub run: Option<Player>,
    pub run_count: int,
    pub run_empty: int,
    pub stopped: bool,
}

pub open spec fn ray_start() -> RayStats {
    RayStats { initial_empty: 0, run: None, run_count: 0, run_empty: 0, stopped: false }
}

/// A board read that distinguishes off-board (`None`) from an empty cell.
pub open spec fn tile_at(m: GameModel, x: int, y: int) -> Option<Option<Player>> {
    if in_bounds(m, x, y) {
        Some(cell(m, x, y))
    } else {
        None
    }
}

/// One step of the ray classifier.
pub open spec fn ray_step(s: RayStats, t: Option<Option<Player>>) -> RayStats {
    if s.stopped {
        s
    } else {
        match t {
            None => RayStats { stopped: true, ..s },
            Some(tile) => match s.run {
                None => match tile {
                    Some(p) => RayStats { run: Some(p), run_count: 1, ..s },
                    None => RayStats { initial_empty: s.initial_empty + 1, ..s },
                },
                Some(p) => match tile {
                    Some(q) => if q == p {
                        RayStats { run_count: s.run_count + 1, ..s }
                    } else {
                        RayStats { stopped: true, ..s }
                    },
                    None => RayStats { run_empty: s.run_empty + 1, ..s },
                },
            },
        }
    }
}

/// The classifier folded over the cells `1..=n` steps out from `(x, y)`
/// along `(dx, dy)`.
pub open spec fn ray_scan(m: GameModel, x: int, y: int, dx: int, dy: int, n: nat) -> RayStats
    decreases n,
{
    if n == 0 {
        ray_start()
    } else {
        ray_step(
            ray_scan(m, x, y, dx, dy, (n - 1) as nat),
            tile_at(m, x + n * dx, y + n * dy),
        )
    }
}

/// How far each ray looks: `goal - 1` steps.
pub open spec fn ray_steps(m: GameModel) -> nat {
    if m.goal >= 1 {
        (m.goal - 1) as nat
    } else {
        0
    }
}

pub open spec fn ray_pos(m: GameModel, x: int, y: int, d: int) -> RayStats {
    ray_scan(m, x, y, dir_dx(d), dir_dy(d), ray_steps(m))
}

pub open spec fn ray_neg(m: GameModel, x: int, y: int, d: int) -> RayStats {
    ray_scan(m, x, y, -dir_dx(d), -dir_dy(d), ray_steps(m))
}

pub open spec fn ray_count_for(s: RayStats, p: Player) -> int {
    if s.run == Some(p) {
        s.run_count
    } else {
        0
    }
}

pub open spec fn ray_empty_for(s: RayStats, p: Player) -> int {
    if s.run == Some(p) {
        s.run_empty
    } else {
        0
    }
}

/// Seat `p`'s exact contribution along the line through `(x, y)` in
/// direction `d`: nothing if a run of `goal` is no longer reachable there,
/// otherwise reachable-empties and the current streak, weighted, the streak
/// exponentially.
pub open spec fn player_line_contrib(
    m: GameModel,
    x: int,
    y: int,
    d: int,
    computer: Player,
    w: ComputerWeights,
    p: Player,
) -> int {
    let s1 = ray_neg(m, x, y, d);
    let s2 = ray_pos(m, x, y, d);
    let cnt = ray_count_for(s1, p) + ray_count_for(s2, p);
    let emp = s1.initial_empty + s2.initial_empty + ray_empty_for(s1, p) + ray_empty_for(s2, p);
    if emp + cnt >= m.goal - 1 {
        let ow = if p == computer {
            w.computer
        } else {
            w.opponent
        };
        let sw = if p == computer {
            w.streak_computer
        } else {
            w.streak_opponent
        };
        ow * (w.empty * emp + cnt * w.populated * pow(sw as int, cnt as nat))
    } else {
        0
    }
}

/// Sum of the line contributions of seats `0..k`.
pub open spec fn line_contrib_upto(
    m: GameModel,
    x: int,
    y: int,
    d: int,
    computer: Player,
    w: ComputerWeights,
    k: nat,
) -> int
    decreases k,
{
    if k == 0 {
        0
    } else {
        line_contrib_upto(m, x, y, d, computer, w, (k - 1) as nat) + player_line_contrib(
            m,
            x,
            y,
            d,
            computer,
            w,
            (k - 1) as Player,
        )
    }
}

/// Sum over the first `nd` of the four line directions, each over all seats.
pub open spec fn eval_dirs_upto(
    m: GameModel,
    x: int,
    y: int,
    computer: Player,
    w: ComputerWeights,
    nd: nat,
) -> int
    decreases nd,
{
    if nd == 0 {
        0
    } else {
        eval_dirs_upto(m, x, y, computer, w, (nd - 1) as nat) + line_contrib_upto(
            m,
            x,
            y,
            (nd - 1) as int,
            computer,
            w,
            m.players.len(),
        )
    }
}

/// The exact (unbounded) evaluation of placing on `(x, y)` for `computer`.
pub open spec fn eval_exact(m: GameModel, x: int, y: int, computer: Player, w: ComputerWeights) -> int {
    eval_dirs_upto(m, x, y, computer, w, 4)
}

/// The score the engine computes: the exact evaluation, clamped to `u64`.
pub open spec fn eval_score(m: GameModel, x: int, y: int, computer: Player, w: ComputerWeights) -> int {
    sat64(eval_exact(m, x, y, computer, w))
}

/// What `get_computer_move` promises: `None` exactly on a full board, else
/// an empty cell no other empty cell out-scores.
pub open spec fn computer_move_post(m: GameModel, bot: Bot, r: Option<Point>) -> bool {
    match r {
        None => board_full(m),
        Some(pt) => {
            &&& in_bounds(m, pt.x as int, pt.y as int)
            &&& cell(m, pt.x as int, pt.y as int) is None
            &&& forall|x: int, y: int|
                in_bounds(m, x, y) && #[trigger] cell(m, x, y) is None ==> eval_score(
                    m,
                    x,
                    y,
                    current_seat(m),
                    weights_of(bot),
                ) <= eval_score(m, pt.x as int, pt.y as int, current_seat(m), weights_of(bot))
        },
    }
}

// ---------------------------------------------------------------------------
// Saturation lemmas: the u64 computation equals the clamped exact value.
// ---------------------------------------------------------------------------

proof fn lemma_sat_add(a: int, b: int)
    requires
        a >= 0,
        b >= 0,
    ensures
        sat64(sat64(a) + sat64(b)) == sat64(a + b),
{
}

proof fn lemma_sat_mul(a: int, b: int)
    requires
        0 <= a <= u64::MAX,
        b >= 0,
    ensures
        sat64(a * sat64(b)) == sat64(a * b),
{
    if b > u64::MAX {
        if a == 0 {
            assert(a * sat64(b) == 0) by (nonlinear_arith)
                requires
                    a == 0,
            ;
            assert(a * b == 0) by (nonlinear_arith)
                requires
                    a == 0,
            ;
        } else {
            assert(a * sat64(b) >= sat64(b)) by (nonlinear_arith)
                requires
                    a >= 1,
                    sat64(b) >= 0,
            ;
            assert(a * b >= a * sat64(b)) by (nonlinear_arith)
                requires
                    a >= 0,
                    b >= sat64(b),
            ;
        }
    }
}

proof fn lemma_pow_nonneg(b: int, e: nat)
    requires
        b >= 0,
    ensures
        pow(b, e) >= 0,
    decreases e,
{
    reveal(pow);
    if e > 0 {
        lemma_pow_nonneg(b, (e - 1) as nat);
        assert(b * pow(b, (e - 1) as nat) >= 0) by (nonlinear_arith)
            requires
                b >= 0,
                pow(b, (e - 1) as nat) >= 0,
        ;
    }
}

/// Every field a ray can accumulate is bounded by the number of steps taken.
proof fn lemma_ray_scan_bounds(m: GameModel, x: int, y: int, dx: int, dy: int, n: nat)
    ensures
        0 <= ray_scan(m, x, y, dx, dy, n).initial_empty <= n,
        0 <= ray_scan(m, x, y, dx, dy, n).run_count <= n,
        0 <= ray_scan(m, x, y, dx, dy, n).run_empty <= n,
    decreases n,
{
    if n > 0 {
        lemma_ray_scan_bounds(m, x, y, dx, dy, (n - 1) as nat);
    }
}

proof fn lemma_player_contrib_nonneg(
    m: GameModel,
    x: int,
    y: int,
    d: int,
    computer: Player,
    w: ComputerWeights,
    p: Player,
)
    ensures
        player_line_contrib(m, x, y, d, computer, w, p) >= 0,
{
    lemma_ray_scan_bounds(m, x, y, -dir_dx(d), -dir_dy(d), ray_steps(m));
    lemma_ray_scan_bounds(m, x, y, dir_dx(d), dir_dy(d), ray_steps(m));
    let s1 = ray_neg(m, x, y, d);
    let s2 = ray_pos(m, x, y, d);
    let cnt = ray_count_for(s1, p) + ray_count_for(s2, p);
    let emp = s1.initial_empty + s2.initial_empty + ray_empty_for(s1, p) + ray_empty_for(s2, p);
    if emp + cnt >= m.goal - 1 {
        let ow = if p == computer {
            w.computer
        } else {
            w.opponent
        };
        let sw = if p == computer {
            w.streak_computer
        } else {
            w.streak_opponent
        };
        lemma_pow_nonneg(sw as int, cnt as nat);
        assert(ow * (w.empty * emp + cnt * w.populated * pow(sw as int, cnt as nat)) >= 0)
            by (nonlinear_arith)
            requires
                ow >= 0,
                w.empty >= 0,
                emp >= 0,
                cnt >= 0,
                w.populated >= 0,
                pow(sw as int, cnt as nat) >= 0,
        ;
    }
}

proof fn lemma_line_upto_nonneg(
    m: GameModel,
    x: int,
    y: int,
    d: int,
    computer: Player,
    w: ComputerWeights,
    k: nat,
)
    ensures
        line_contrib_upto(m, x, y, d, computer, w, k) >= 0,
    decreases k,
{
    if k > 0 {
        lemma_line_upto_nonneg(m, x, y, d, computer, w, (k - 1) as nat);
        lemma_player_contrib_nonneg(m, x, y, d, computer, w, (k - 1) as Player);
    }
}

proof fn lemma_dirs_upto_nonneg(
    m: GameModel,
    x: int,
    y: int,
    computer: Player,
    w: ComputerWeights,
    nd: nat,
)
    ensures
        eval_dirs_upto(m, x, y, computer, w, nd) >= 0,
    decreases nd,
{
    if nd > 0 {
        lemma_dirs_upto_nonneg(m, x, y, computer, w, (nd - 1) as nat);
        lemma_line_upto_nonneg(m, x, y, (nd - 1) as int, computer, w, m.players.len());
    }
}

// ---------------------------------------------------------------------------
// Saturating u64 arithmetic.
// ---------------------------------------------------------------------------

fn sat_add(a: u64, b: u64) -> (r: u64)
    ensures
        r as int == sat64(a as int + b as int),
{
    match a.checked_add(b) {
        Some(v) => v,
        None => u64::MAX,
    }
}

fn sat_mul(a: u64, b: u64) -> (r: u64)
    ensures
        r as int == sat64(a as int * b as int),
{
    match a.checked_mul(b) {
        Some(v) => v,
        None => u64::MAX,
    }
}

fn sat_pow(b: u64, e: u64) -> (r: u64)
    ensures
        r as int == sat64(pow(b as int, e as nat)),
{
    proof {
        reveal(pow);
    }
    let mut r: u64 = 1;
    let mut k: u64 = 0;
    while k < e
        invariant
            0 <= k <= e,
            r as int == sat64(pow(b as int, k as nat)),
        decreases e - k,
    {
        proof {
            reveal(pow);
            lemma_pow_nonneg(b as int, k as nat);
            lemma_sat_mul(b as int, pow(b as int, k as nat));
            assert(pow(b as int, (k + 1) as nat) == b as int * pow(b as int, k as nat));
        }
        r = sat_mul(b, r);
        k = k + 1;
    }
    r
}

// ---------------------------------------------------------------------------
// The evaluator.
// ---------------------------------------------------------------------------

/// The two ray totals one scan produces, as machine integers.
struct RayCounts {
    initial_empty: u64,
    run: Option<Player>,
    run_count: u64,
    run_empty: u64,
    stopped: bool,
}

/// The machine stats agree with the classifier's value.
spec fn ray_counts_match(c: RayCounts, s: RayStats) -> bool {
    &&& c.initial_empty as int == s.initial_empty
    &&& c.run == s.run
    &&& c.run_count as int == s.run_count
    &&& c.run_empty as int == s.run_empty
    &&& c.stopped == s.stopped
}

/// Relies on rand's `SliceRandom::choose`: `None` on an empty slice,
/// otherwise one element of the slice, picked by the thread-local generator.
#[verifier::external_body]
fn choose_random(points: &Vec<Point>) -> (r: Option<Point>)
    ensures
        r is Some <==> points@.len() > 0,
        r matches Some(p) ==> points@.contains(p),
{
    points.as_slice().choose(&mut rand::thread_rng()).copied()
}

impl Game {
    /// Scans one ray from `point` along `(dx, dy)`, `goal - 1` steps.
    fn scan_ray(&self, point: Point, dx: isize, dy: isize) -> (s: RayCounts)
        requires
            self.wf(),
            in_bounds(self.model(), point.x as int, point.y as int),
            -1 <= dx <= 1,
            -1 <= dy <= 1,
        ensures
            ray_counts_match(
                s,
                ray_scan(
                    self.model(),
                    point.x as int,
                    point.y as int,
                    dx as int,
                    dy as int,
                    ray_steps(self.model()),
                ),
            ),
            s.initial_empty as int <= ray_steps(self.model()),
            s.run_count as int <= ray_steps(self.model()),
            s.run_empty as int <= ray_steps(self.model()),
    {
        let ghost m = self.model();
        proof {
            assert(m.width * 2 <= m.width * m.height) by (nonlinear_arith)
                requires
                    m.width >= 0,
                    m.height >= 2,
            ;
            assert(m.height * 2 <= m.width * m.height) by (nonlinear_arith)
                requires
                    m.height >= 0,
                    m.width >= 2,
            ;
        }
        let goal = self.get_goal();
        let mut counts = RayCounts {
            initial_empty: 0,
            run: None,
            run_count: 0,
            run_empty: 0,
            stopped: false,
        };
        let mut i: isize = 1;
        while i < goal
            invariant
                self.wf(),
                m == self.model(),
                goal == m.goal,
                in_bounds(m, point.x as int, point.y as int),
                -1 <= dx <= 1,
                -1 <= dy <= 1,
                m.width * 2 <= m.width * m.height,
                m.height * 2 <= m.width * m.height,
                1 <= i,
                goal >= 1 ==> i <= goal,
                goal < 1 ==> i == 1,
                ray_counts_match(
                    counts,
                    ray_scan(m, point.x as int, point.y as int, dx as int, dy as int, (i - 1) as nat),
                ),
                counts.initial_empty < i,
                counts.run_count < i,
                counts.run_empty < i,
            decreases goal - i,
        {
            proof {
                lemma_ray_scan_bounds(m, point.x as int, point.y as int, dx as int, dy as int, (
                i - 1) as nat);
                assert(-i <= dx * i <= i) by (nonlinear_arith)
                    requires
                        -1 <= dx <= 1,
                        i >= 0,
                ;
                assert(-i <= dy * i <= i) by (nonlinear_arith)
                    requires
                        -1 <= dy <= 1,
                        i >= 0,
                ;
                assert(dx as int * i as int == i as int * (dx as int)) by (nonlinear_arith);
                assert(dy as int * i as int == i as int * (dy as int)) by (nonlinear_arith);
            }
            let px = point.x + dx * i;
            let py = point.y + dy * i;
            if !counts.stopped {
                let tile = match self.get_tile(&Point::new(px, py)) {
                    Ok(t) => Some(t),
                    Err(_) => None,
                };
                proof {
                    assert(tile == tile_at(m, point.x as int + i as int * dx as int, point.y as int
                        + i as int * dy as int));
                }
                match tile {
                    None => {
                        counts.stopped = true;
                    },
                    Some(t) => match counts.run {
                        None => match t {
                            Some(p) => {
                                counts.run = Some(p);
                                counts.run_count = 1;
                            },
                            None => {
                                counts.initial_empty = counts.initial_empty + 1;
                            },
                        },
                        Some(p) => match t {
                            Some(q) => {
                                if q == p {
                                    counts.run_count = counts.run_count + 1;
                                } else {
                                    counts.stopped = true;
                                }
                            },
                            None => {
                                counts.run_empty = counts.run_empty + 1;
                            },
                        },
                    },
                }
            }
            i = i + 1;
        }
        proof {
            lemma_ray_scan_bounds(m, point.x as int, point.y as int, dx as int, dy as int, (i
                - 1) as nat);
            if goal >= 1 {
                assert((i - 1) as nat == ray_steps(m));
            } else {
                assert((i - 1) as nat == 0);
                assert(ray_steps(m) == 0);
            }
        }
        counts
    }

    /// Scores placing `computer`'s stone on the empty cell `point`, per the
    /// weighted empty/streak formula, summed over the four directions and
    /// every seat; the exact sum is clamped to `u64::MAX`.
    pub fn evaluate_location(&self, point: Point, computer: Player, weights: &ComputerWeights) -> (r:
        u64)
        requires
            self.wf(),
            in_bounds(self.model(), point.x as int, point.y as int),
        ensures
            r as int == eval_score(self.model(), point.x as int, point.y as int, computer, *weights),
    {
        let ghost m = self.model();
        let ghost px = point.x as int;
        let ghost py = point.y as int;
        let goal = self.get_goal();
        let player_count = self.get_player_count();
        proof {
            assert(m.width * 2 <= m.width * m.height) by (nonlinear_arith)
                requires
                    m.width >= 0,
                    m.height >= 2,
            ;
        }
        let mut acc: u64 = 0;
        let mut d: usize = 0;
        while d < 4
            invariant
                self.wf(),
                m == self.model(),
                goal == m.goal,
                player_count == m.players.len(),
                in_bounds(m, px, py),
                px == point.x as int,
                py == point.y as int,
                m.width * 2 <= m.width * m.height,
                0 <= d <= 4,
                acc as int == sat64(eval_dirs_upto(m, px, py, computer, *weights, d as nat)),
            decreases 4 - d,
        {
            let dir = Self::direction(d);
            let s_neg = self.scan_ray(point, -dir.x, -dir.y);
            let s_pos = self.scan_ray(point, dir.x, dir.y);
            let ghost st_neg = ray_neg(m, px, py, d as int);
            let ghost st_pos = ray_pos(m, px, py, d as int);
            proof {
                assert(ray_counts_match(s_neg, st_neg));
                assert(ray_counts_match(s_pos, st_pos));
                assert(ray_steps(m) <= m.width) by {
                    if m.goal >= 1 {
                        assert(m.goal - 1 < m.width);
                    }
                }
            }
            let ie = s_neg.initial_empty + s_pos.initial_empty;
            let mut p: usize = 0;
            while p < player_count
                invariant
                    self.wf(),
                    m == self.model(),
                    goal == m.goal,
                    player_count == m.players.len(),
                    in_bounds(m, px, py),
                    m.width * 2 <= m.width * m.height,
                    0 <= d < 4,
                    0 <= p <= player_count,
                    ray_counts_match(s_neg, st_neg),
                    ray_counts_match(s_pos, st_pos),
                    st_neg == ray_neg(m, px, py, d as int),
                    st_pos == ray_pos(m, px, py, d as int),
                    s_neg.initial_empty as int <= ray_steps(m),
                    s_pos.initial_empty as int <= ray_steps(m),
                    s_neg.run_count as int <= ray_steps(m),
                    s_pos.run_count as int <= ray_steps(m),
                    s_neg.run_empty as int <= ray_steps(m),
                    s_pos.run_empty as int <= ray_steps(m),
                    ray_steps(m) <= m.width,
                    ie as int == st_neg.initial_empty + st_pos.initial_empty,
                    acc as int == sat64(
                        eval_dirs_upto(m, px, py, computer, *weights, d as nat) + line_contrib_upto(
                            m,
                            px,
                            py,
                            d as int,
                            computer,
                            *weights,
                            p as nat,
                        ),
                    ),
                decreases player_count - p,
            {
                let c1 = match s_neg.run {
                    Some(q) => if q == p {
                        s_neg.run_count
                    } else {
                        0
                    },
                    None => 0,
                };
                let c2 = match s_pos.run {
                    Some(q) => if q == p {
                        s_pos.run_count
                    } else {
                        0
                    },
                    None => 0,
                };
                let e1 = match s_neg.run {
                    Some(q) => if q == p {
                        s_neg.run_empty
                    } else {
                        0
                    },
                    None => 0,
                };
                let e2 = match s_pos.run {
                    Some(q) => if q == p {
                        s_pos.run_empty
                    } else {
                        0
                    },
                    None => 0,
                };
                let cnt = c1 + c2;
                let emp = ie + e1 + e2;
                proof {
                    assert(cnt as int == ray_count_for(st_neg, p) + ray_count_for(st_pos, p));
                    assert(emp as int == st_neg.initial_empty + st_pos.initial_empty
                        + ray_empty_for(st_neg, p) + ray_empty_for(st_pos, p));
                }
                let eligible = if goal < 1 {
                    true
                } else {
                    emp as u128 + cnt as u128 >= (goal - 1) as u128
                };
                let ghost pc = player_line_contrib(m, px, py, d as int, computer, *weights, p);
                if eligible {
                    let ow = if p == computer {
                        weights.computer
                    } else {
                        weights.opponent
                    };
                    let sw = if p == computer {
                        weights.streak_computer
                    } else {
                        weights.streak_opponent
                    };
                    let t_emp = sat_mul(weights.empty, emp);
                    let pw = sat_pow(sw, cnt);
                    let t_inner = sat_mul(weights.populated, pw);
                    let t_streak = sat_mul(cnt, t_inner);
                    let t_sum = sat_add(t_emp, t_streak);
                    let part = sat_mul(ow, t_sum);
                    proof {
                        let powv = pow(sw as int, cnt as nat);
                        lemma_pow_nonneg(sw as int, cnt as nat);
                        lemma_sat_mul(weights.populated as int, powv);
                        assert(weights.populated as int * powv >= 0) by (nonlinear_arith)
                            requires
                                weights.populated as int >= 0,
                                powv >= 0,
                        ;
                        lemma_sat_mul(cnt as int, weights.populated as int * powv);
                        assert(cnt as int * (weights.populated as int * powv) == cnt as int
                            * weights.populated as int * powv) by (nonlinear_arith);
                        assert(t_streak as int == sat64(
                            cnt as int * weights.populated as int * powv,
                        ));
                        assert(cnt as int * weights.populated as int * powv >= 0)
                            by (nonlinear_arith)
                            requires
                                cnt as int >= 0,
                                weights.populated as int >= 0,
                                powv >= 0,
                        ;
                        lemma_sat_add(
                            weights.empty as int * emp as int,
                            cnt as int * weights.populated as int * powv,
                        );
                        assert(weights.empty as int * emp as int >= 0) by (nonlinear_arith)
                            requires
                                weights.empty as int >= 0,
                                emp as int >= 0,
                        ;
                        lemma_sat_mul(
                            ow as int,
                            weights.empty as int * emp as int + cnt as int * weights.populated as int
                                * powv,
                        );
                        assert(part as int == sat64(pc));
                    }
                    proof {
                        lemma_dirs_upto_nonneg(m, px, py, computer, *weights, d as nat);
                        lemma_line_upto_nonneg(m, px, py, d as int, computer, *weights, p as nat);
                        lemma_player_contrib_nonneg(m, px, py, d as int, computer, *weights, p);
                        lemma_sat_add(
                            eval_dirs_upto(m, px, py, computer, *weights, d as nat)
                                + line_contrib_upto(m, px, py, d as int, computer, *weights, p as nat),
                            pc,
                        );
                    }
                    acc = sat_add(acc, part);
                } else {
                    proof {
                        assert(pc == 0);
                    }
                }
                proof {
                    assert(line_contrib_upto(m, px, py, d as int, computer, *weights, (p
                        + 1) as nat) == line_contrib_upto(m, px, py, d as int, computer, *weights, p as nat)
                        + pc);
                }
                p = p + 1;
            }
            proof {
                assert(line_contrib_upto(m, px, py, d as int, computer, *weights, player_count as nat)
                    == line_contrib_upto(m, px, py, d as int, computer, *weights, m.players.len()));
                assert(eval_dirs_upto(m, px, py, computer, *weights, (d + 1) as nat) == eval_dirs_upto(
                    m,
                    px,
                    py,
                    computer,
                    *weights,
                    d as nat,
                ) + line_contrib_upto(m, px, py, d as int, computer, *weights, m.players.len()));
            }
            d = d + 1;
        }
        acc
    }

    /// Evaluates every empty cell for the seat to move (with the weights that
    /// `bot` derives) and returns one of the best-scoring cells, picked
    /// uniformly at random; `None` only when the board is full.
    pub fn get_computer_move(&self, bot: Bot) -> (r: Option<Point>)
        requires
            self.wf(),
        ensures
            computer_move_post(self.model(), bot, r),
    {
        let ghost m = self.model();
        let weights = ComputerWeights::from(bot);
        let computer = self.get_current_player();
        let width = self.get_width() as usize;
        let height = self.get_height() as usize;
        let mut best: Vec<Point> = Vec::new();
        let mut max_eval: u64 = 0;
        let mut y: usize = 0;
        while y < height
            invariant
                self.wf(),
                m == self.model(),
                width == m.width,
                height == m.height,
                weights == weights_of(bot),
                computer == current_seat(m),
                0 <= y <= height,
                forall|i: int|
                    0 <= i < best@.len() ==> in_bounds(
                        m,
                        (#[trigger] best@[i]).x as int,
                        best@[i].y as int,
                    ) && cell(m, best@[i].x as int, best@[i].y as int) is None && eval_score(
                        m,
                        best@[i].x as int,
                        best@[i].y as int,
                        computer,
                        weights,
                    ) == max_eval,
                forall|x0: int, y0: int|
                    0 <= x0 < width && 0 <= y0 < y && #[trigger] cell(m, x0, y0) is None
                        ==> eval_score(m, x0, y0, computer, weights) <= max_eval,
                best@.len() == 0 ==> forall|x0: int, y0: int|
                    0 <= x0 < width && 0 <= y0 < y ==> #[trigger] cell(m, x0, y0) is Some,
            decreases height - y,
        {
            let mut x: usize = 0;
            while x < width
                invariant
                    self.wf(),
                    m == self.model(),
                    width == m.width,
                    height == m.height,
                    weights == weights_of(bot),
                    computer == current_seat(m),
                    0 <= y < height,
                    0 <= x <= width,
                    forall|i: int|
                        0 <= i < best@.len() ==> in_bounds(
                            m,
                            (#[trigger] best@[i]).x as int,
                            best@[i].y as int,
                        ) && cell(m, best@[i].x as int, best@[i].y as int) is None && eval_score(
                            m,
                            best@[i].x as int,
                            best@[i].y as int,
                            computer,
                            weights,
                        ) == max_eval,
                    forall|x0: int, y0: int|
                        0 <= x0 < width && 0 <= y0 < y && #[trigger] cell(m, x0, y0) is None
                            ==> eval_score(m, x0, y0, computer, weights) <= max_eval,
                    forall|x0: int|
                        0 <= x0 < x && #[trigger] cell(m, x0, y as int) is None ==> eval_score(
                            m,
                            x0,
                            y as int,
                            computer,
                            weights,
                        ) <= max_eval,
                    best@.len() == 0 ==> forall|x0: int, y0: int|
                        0 <= x0 < width && 0 <= y0 < y ==> #[trigger] cell(m, x0, y0) is Some,
                    best@.len() == 0 ==> forall|x0: int|
                        0 <= x0 < x ==> #[trigger] cell(m, x0, y as int) is Some,
                decreases width - x,
            {
                let pt = Point::new(x as isize, y as isize);
                let tile = match self.get_tile(&pt) {
                    Ok(t) => t,
                    Err(_) => None,
                };
                if tile.is_none() {
                    proof {
                        assert(in_bounds(m, pt.x as int, pt.y as int));
                        assert(cell(m, pt.x as int, pt.y as int) is None);
                    }
                    let ev = self.evaluate_location(pt, computer, &weights);
                    if best.is_empty() || ev > max_eval {
                        best.clear();
                        best.push(pt);
                        max_eval = ev;
                    } else if ev == max_eval {
                        best.push(pt);
                    }
                }
                x = x + 1;
            }
            y = y + 1;
        }
        match choose_random(&best) {
            Some(pt) => {
                proof {
                    let i = choose|i: int| 0 <= i < best@.len() && best@[i] == pt;
                    assert(in_bounds(m, pt.x as int, pt.y as int));
                    assert(cell(m, pt.x as int, pt.y as int) is None);
                    assert(eval_score(m, pt.x as int, pt.y as int, computer, weights) == max_eval);
                }
                Some(pt)
            },
            None => {
                proof {
                    assert(best@.len() == 0);
                    assert(board_full(m));
                }
                None
            },
        }
    }
}

// ---------------------------------------------------------------------------
// The auto-resolved chain of computer plies that one `play_move` call runs.
// ---------------------------------------------------------------------------

/// One auto-resolved computer ply: the game is not over, the seat to move is
/// computer-controlled, and it places its stone on a best-scoring empty cell.
pub open spec fn chain_step(m1: GameModel, m2: GameModel) -> bool {
    &&& !terminal(m1)
    &&& m1.players[current_player(m1)] matches PlayerType::Computer(bot)
    &&& exists|x: int, y: int|
        {
            &&& in_bounds(m1, x, y)
            &&& cell(m1, x, y) is None
            &&& forall|x0: int, y0: int|
                in_bounds(m1, x0, y0) && #[trigger] cell(m1, x0, y0) is None ==> eval_score(
                    m1,
                    x0,
                    y0,
                    current_seat(m1),
                    weights_of(bot),
                ) <= eval_score(m1, x, y, current_seat(m1), weights_of(bot))
            &&& m2 == #[trigger] place(m1, x, y, current_seat(m1))
        }
}

/// Consecutive entries of `ms` are each one auto-resolved computer ply.
pub open spec fn chain_trace(ms: Seq<GameModel>) -> bool {
    forall|i: int| 0 <= i < ms.len() - 1 ==> chain_step(#[trigger] ms[i], ms[i + 1])
}

/// `ms` witnesses that the engine walked from `m1` to `m2` by auto-resolved
/// computer plies.
pub open spec fn trace_ok(ms: Seq<GameModel>, m1: GameModel, m2: GameModel) -> bool {
    &&& ms.len() >= 1
    &&& ms[0] == m1
    &&& ms.last() == m2
    &&& chain_trace(ms)
}

/// `m2` arises from `m1` by zero or more auto-resolved computer plies.
pub open spec fn ai_reaches(m1: GameModel, m2: GameModel) -> bool {
    exists|ms: Seq<GameModel>| #[trigger] trace_ok(ms, m1, m2)
}

/// Nothing is left to auto-resolve: the game ended, or a human moves next.
pub open spec fn resolved(m: GameModel) -> bool {
    !terminal(m) ==> m.players[current_player(m)] is Human
}

/// One ply of the chain preserves well-formedness and adds one stone.
pub proof fn lemma_chain_step_props(m1: GameModel, m2: GameModel)
    requires
        wf_model(m1),
        chain_step(m1, m2),
    ensures
        wf_model(m2),
        extends(m1, m2),
        occupied_count(m2) == occupied_count(m1) + 1,
{
    let (x, y) = choose|x: int, y: int|
        {
            &&& in_bounds(m1, x, y)
            &&& cell(m1, x, y) is None
            &&& m2 == #[trigger] place(m1, x, y, current_seat(m1))
        };
    lemma_place_props(m1, x, y, current_seat(m1));
}

proof fn lemma_trace_props(ms: Seq<GameModel>)
    requires
        ms.len() >= 1,
        chain_trace(ms),
        wf_model(ms[0]),
    ensures
        wf_model(ms.last()),
        extends(ms[0], ms.last()),
        occupied_count(ms.last()) == occupied_count(ms[0]) + ms.len() - 1,
    decreases ms.len(),
{
    if ms.len() == 1 {
        assert(extends(ms[0], ms[0]));
    } else {
        let prefix = ms.drop_last();
        assert(chain_trace(prefix)) by {
            assert forall|i: int| 0 <= i < prefix.len() - 1 implies chain_step(
                #[trigger] prefix[i],
                prefix[i + 1],
            ) by {
                assert(prefix[i] == ms[i]);
                assert(prefix[i + 1] == ms[i + 1]);
                assert(chain_step(ms[i], ms[i + 1]));
            }
        }
        lemma_trace_props(prefix);
        assert(chain_step(ms[ms.len() - 2], ms[ms.len() - 1]));
        lemma_chain_step_props(prefix.last(), ms.last());
        lemma_extends_trans(ms[0], prefix.last(), ms.last());
    }
}

/// A trace grows at its far end: appending one more ply keeps it a trace.
pub proof fn lemma_trace_push(ms: Seq<GameModel>, m2: GameModel)
    requires
        ms.len() >= 1,
        chain_trace(ms),
        chain_step(ms.last(), m2),
    ensures
        chain_trace(ms.push(m2)),
        ms.push(m2)[0] == ms[0],
        ms.push(m2).last() == m2,
        ms.push(m2).len() == ms.len() + 1,
{
    let ext = ms.push(m2);
    assert forall|i: int| 0 <= i < ext.len() - 1 implies chain_step(#[trigger] ext[i], ext[i + 1]) by {
        if i < ms.len() - 1 {
            assert(ext[i] == ms[i]);
            assert(ext[i + 1] == ms[i + 1]);
            assert(chain_step(ms[i], ms[i + 1]));
        } else {
            assert(ext[i] == ms.last());
            assert(ext[i + 1] == m2);
        }
    }
}

/// A resolved chain only ever adds stones and keeps the board well formed.
pub proof fn lemma_reaches_props(m1: GameModel, m2: GameModel)
    requires
        wf_model(m1),
        ai_reaches(m1, m2),
    ensures
        wf_model(m2),
        extends(m1, m2),
        occupied_count(m2) >= occupied_count(m1),
{
    let ms = choose|ms: Seq<GameModel>| #[trigger] trace_ok(ms, m1, m2);
    lemma_trace_props(ms);
}

} // verus!
