//! The evaluation core: integer feature extraction for positions and
//! moves, a linear model over those features, and the squashing function
//! that turns scores into winning probabilities.
//!
//! All probabilities are fixed-point integers in millionths: `1_000_000`
//! stands for certainty. Evaluation scores are white-centric fixed-point
//! values on the same scale.

use crate::komi::GameResult;
use crate::moves::{Move, MoveView};
use crate::piece::{Color, Piece, Role};
use crate::position::{PosState, Position, HALF_MOVES_MAX};
use crate::road::{count_flat_tops, spec_road_stone};
use crate::square::{spec_file, spec_rank, spec_square_symmetry, valid_square, Direction};
use vstd::prelude::*;

verus! {

/// One full probability, in millionths.
pub const SCALE: u32 = 1_000_000;

/// The exploration floor: 5% of the probability mass is spread evenly
/// over all moves.
pub const POLICY_BASELINE: u32 = 50_000;

/// The number of per-color features of the value model.
pub const NUM_VALUE_FEATURES: usize = 16;

/// The number of per-move features of the policy model.
pub const NUM_POLICY_FEATURES: usize = 12;

/// The squashing function on the fixed-point scale: one half plus
/// `x / (2 * (1 + |x|))`, a logistic-shaped map onto `(0, 1)`.
pub open spec fn spec_sigmoid(x: int) -> int {
    if x >= 0 {
        500_000 + x * 500_000 / (1_000_000 + x)
    } else {
        500_000 - (-x) * 500_000 / (1_000_000 + (-x))
    }
}

/// Map a score to a winning probability in `(0, 1_000_000)`.
/// Larger scores give larger probabilities; zero maps to one half.
pub fn sigmoid(x: i64) -> (r: u32)
    requires
        -1_000_000_000_000 <= x <= 1_000_000_000_000,
    ensures
        r == spec_sigmoid(x as int),
        0 < r < SCALE,
{
    proof {
        assert(x <= 1_000_000_000_000 && -x <= 1_000_000_000_000 ==> x * 500_000
            <= 500_000_000_000_000_000 && (-x) * 500_000 <= 500_000_000_000_000_000)
            by (nonlinear_arith);
    }
    if x >= 0 {
        let num: i64 = x * 500_000;
        let den: i64 = 1_000_000 + x;
        let frac: i64 = num / den;
        proof {
            assert(x * 500_000 < (1_000_000 + x) * 500_000) by (nonlinear_arith)
                requires
                    x >= 0,
            ;
            assert(x * 500_000 / (1_000_000 + x) < 500_000 && x * 500_000 / (1_000_000 + x) >= 0)
                by (nonlinear_arith)
                requires
                    x >= 0,
                    x * 500_000 < (1_000_000 + x) * 500_000,
            ;
        }
        500_000 + (frac as u32)
    } else {
        let y: i64 = -x;
        let num: i64 = y * 500_000;
        let den: i64 = 1_000_000 + y;
        let frac: i64 = num / den;
        proof {
            assert(y * 500_000 < (1_000_000 + y) * 500_000) by (nonlinear_arith)
                requires
                    y >= 0,
            ;
            assert(y * 500_000 / (1_000_000 + y) < 500_000 && y * 500_000 / (1_000_000 + y) >= 0)
                by (nonlinear_arith)
                requires
                    y >= 0,
                    y * 500_000 < (1_000_000 + y) * 500_000,
            ;
        }
        500_000 - (frac as u32)
    }
}

/// The inverse of [`sigmoid`] on exact values: the score whose squashed
/// probability is `p`.
pub open spec fn spec_inverse_sigmoid(p: int) -> int {
    if p >= 500_000 {
        (2 * p - 1_000_000) * 1_000_000 / (2_000_000 - 2 * p)
    } else {
        -((1_000_000 - 2 * p) * 1_000_000 / (2 * p))
    }
}

/// Map a probability strictly between 0 and 1 back to a score.
pub fn inverse_sigmoid(p: u32) -> (r: i64)
    requires
        0 < p < SCALE,
    ensures
        r == spec_inverse_sigmoid(p as int),
{
    if p >= 500_000 {
        let num: i64 = (2 * (p as i64) - 1_000_000) * 1_000_000;
        let den: i64 = 2_000_000 - 2 * (p as i64);
        num / den
    } else {
        let num: i64 = (1_000_000 - 2 * (p as i64)) * 1_000_000;
        let den: i64 = 2 * (p as i64);
        -(num / den)
    }
}

/// A raw weight clamped into the range the linear model accepts.
pub open spec fn spec_clamp_weight(w: i64) -> i64 {
    if w < -1_000_000 {
        (-1_000_000) as i64
    } else if w > 1_000_000 {
        1_000_000 as i64
    } else {
        w
    }
}

/// A parameter vector for the linear model, with every weight bounded so
/// that dot products cannot overflow.
pub struct Params {
    pub values: Vec<i64>,
}

impl Params {
    /// Well-formed parameters: the expected length, every weight small.
    pub open spec fn wf(self, n: int) -> bool {
        self.values@.len() == n && forall|i: int|
            0 <= i < self.values@.len() ==> -1_000_000 <= #[trigger] self.values@[i] <= 1_000_000
    }

    /// Build a parameter vector from raw weights, clamping each into
    /// the allowed range; missing weights are zero.
    pub fn from_weights(weights: Vec<i64>, n: usize) -> (r: Params)
        ensures
            r.wf(n as int),
            forall|j: int|
                0 <= j < n as int ==> #[trigger] r.values@[j] == spec_clamp_weight(
                    if j < weights@.len() {
                        weights@[j]
                    } else {
                        0
                    },
                ),
    {
        let mut values: Vec<i64> = Vec::new();
        let mut i: usize = 0;
        while i < n
            invariant
                i <= n,
                values@.len() == i,
                forall|j: int| 0 <= j < i as int ==> -1_000_000 <= #[trigger] values@[j] <= 1_000_000,
                forall|j: int|
                    0 <= j < i as int ==> #[trigger] values@[j] == spec_clamp_weight(
                        if j < weights@.len() {
                            weights@[j]
                        } else {
                            0
                        },
                    ),
            decreases n - i,
        {
            let raw: i64 = if i < weights.len() {
                weights[i]
            } else {
                0
            };
            let clamped: i64 = if raw < -1_000_000 {
                -1_000_000
            } else if raw > 1_000_000 {
                1_000_000
            } else {
                raw
            };
            values.push(clamped);
            i = i + 1;
        }
        Params { values }
    }
}

/// The built-in value weights: flat material leads, piece-square terms
/// folded by symmetry, walls, capstones, line presence and stack control.
pub fn default_value_params() -> (r: Params)
    ensures
        r.wf(NUM_VALUE_FEATURES as int),
{
    let mut weights: Vec<i64> = Vec::new();
    weights.push(120_000);  // flat top
    weights.push(6_000);  // symmetry class of each flat top
    weights.push(40_000);  // wall top
    weights.push(90_000);  // capstone top
    weights.push(30_000);  // lines with a road stone
    weights.push(25_000);  // stacks of height over one
    weights.push(15_000);  // supports under our tops
    weights.push(-25_000);  // captives under our tops
    weights.push(0);
    weights.push(0);
    weights.push(0);
    weights.push(0);
    weights.push(0);
    weights.push(0);
    weights.push(0);
    weights.push(0);
    Params::from_weights(weights, NUM_VALUE_FEATURES)
}

/// The built-in policy weights: winning moves first, losing moves last,
/// then flat-count swings, centrality and road-building terms.
pub fn default_policy_params() -> (r: Params)
    ensures
        r.wf(NUM_POLICY_FEATURES as int),
{
    let mut weights: Vec<i64> = Vec::new();
    weights.push(1_000_000);  // the move wins at once
    weights.push(-1_000_000);  // the move loses at once
    weights.push(-200_000);  // the move draws at once
    weights.push(-1_000_000);  // declining an available win
    weights.push(150_000);  // flat-count delta
    weights.push(60_000);  // symmetry class of the target square
    weights.push(-80_000);  // placing a wall
    weights.push(100_000);  // placing a capstone
    weights.push(50_000);  // our road stones on the target lines
    weights.push(30_000);  // their road stones on the target lines
    weights.push(-60_000);  // spreads that damage our own group
    weights.push(-30_000);  // moving instead of placing
    Params::from_weights(weights, NUM_POLICY_FEATURES)
}

/// The sum of a prior vector.
pub open spec fn sum_priors(p: Seq<u32>) -> int
    decreases p.len(),
{
    if p.len() == 0 {
        0
    } else {
        sum_priors(p.drop_last()) + p.last()
    }
}

/// Division distributes sub-additively over a sum of two numerators.
proof fn lemma_div_subadditive(a: int, b: int, d: int)
    requires
        a >= 0,
        b >= 0,
        d > 0,
    ensures
        a / d + b / d <= (a + b) / d,
{
    assert(a / d + b / d <= (a + b) / d) by (nonlinear_arith)
        requires
            a >= 0,
            b >= 0,
            d > 0,
    ;
}

/// Division by a positive number is monotone in the numerator.
proof fn lemma_div_monotone(a: int, b: int, d: int)
    requires
        0 <= a <= b,
        d > 0,
    ensures
        a / d <= b / d,
{
    assert(a / d <= b / d) by (nonlinear_arith)
        requires
            0 <= a <= b,
            d > 0,
    ;
}

/// The sum of a raw score vector.
pub open spec fn sum_scores(p: Seq<u32>, n: int) -> int
    decreases n,
{
    if n <= 0 {
        0
    } else {
        sum_scores(p, n - 1) + p[n - 1]
    }
}

proof fn lemma_sum_scores_bounds(p: Seq<u32>, n: int)
    requires
        0 <= n <= p.len(),
        forall|i: int| 0 <= i < p.len() ==> 0 < #[trigger] p[i] < SCALE,
    ensures
        n <= sum_scores(p, n) <= n * 1_000_000,
    decreases n,
{
    if n > 0 {
        lemma_sum_scores_bounds(p, n - 1);
        assert((n - 1) * 1_000_000 + 1_000_000 == n * 1_000_000) by (nonlinear_arith);
    }
}

proof fn lemma_sum_scores_member(p: Seq<u32>, i: int, n: int)
    requires
        0 <= i < n <= p.len(),
        forall|j: int| 0 <= j < p.len() ==> 0 < #[trigger] p[j] < SCALE,
    ensures
        p[i] <= sum_scores(p, n),
    decreases n,
{
    lemma_sum_scores_bounds(p, n - 1);
    if i < n - 1 {
        lemma_sum_scores_member(p, i, n - 1);
    }
}

proof fn lemma_sum_priors_member_first(p: Seq<u32>)
    requires
        p.len() >= 1,
    ensures
        p[0] <= sum_priors(p),
    decreases p.len(),
{
    if p.len() == 1 {
        assert(p.last() == p[0]);
    } else {
        lemma_sum_priors_member_first(p.drop_last());
        assert(p.drop_last()[0] == p[0]);
        lemma_sum_priors_nonneg(p.drop_last());
        assert(sum_priors(p) == sum_priors(p.drop_last()) + p.last());
        assert(p[0] <= sum_priors(p.drop_last()));
        assert(p.last() >= 0);
    }
}

proof fn lemma_sum_priors_nonneg(p: Seq<u32>)
    ensures
        sum_priors(p) >= 0,
    decreases p.len(),
{
    if p.len() > 0 {
        lemma_sum_priors_nonneg(p.drop_last());
    }
}

proof fn lemma_sum_priors_push(p: Seq<u32>, v: u32)
    ensures
        sum_priors(p.push(v)) == sum_priors(p) + v,
{
    assert(p.push(v).drop_last() =~= p);
}

/// The prior a raw score earns before rounding correction: its
/// proportional share of 95% of the mass, plus the even share of the
/// 5% exploration floor.
pub open spec fn spec_prior_share(scores: Seq<u32>, i: int) -> int {
    scores[i] * 950_000 / sum_scores(scores, scores.len() as int) + POLICY_BASELINE as int
        / scores.len() as int
}

/// Renormalize raw move scores into priors: 95% of the mass is shared
/// in proportion to the scores, 5% is spread evenly, and rounding debris
/// is given to the first move so that the priors sum to exactly one.
///
/// Every entry but the first is exactly its proportional share, and
/// every prior is at least the even share of the 5% floor.
pub fn normalize_priors(scores: &Vec<u32>) -> (r: Vec<u32>)
    requires
        scores@.len() >= 1,
        scores@.len() <= 100_000,
        forall|i: int| 0 <= i < scores@.len() ==> 0 < #[trigger] scores@[i] < SCALE,
    ensures
        r@.len() == scores@.len(),
        sum_priors(r@) == SCALE,
        forall|i: int| 1 <= i < r@.len() ==> #[trigger] r@[i] == spec_prior_share(scores@, i),
        r@[0] >= spec_prior_share(scores@, 0),
        forall|i: int|
            0 <= i < r@.len() ==> #[trigger] r@[i] >= POLICY_BASELINE as int / scores@.len() as int,
{
    let n = scores.len();
    let mut sum_q: u64 = 0;
    let mut i: usize = 0;
    while i < n
        invariant
            i <= n,
            n == scores@.len(),
            n <= 100_000,
            forall|j: int| 0 <= j < scores@.len() ==> 0 < #[trigger] scores@[j] < SCALE,
            sum_q == sum_scores(scores@, i as int),
            i <= sum_q <= i * 1_000_000,
        decreases n - i,
    {
        proof {
            lemma_sum_scores_bounds(scores@, i + 1);
        }
        sum_q = sum_q + (scores[i] as u64);
        i = i + 1;
    }
    proof {
        lemma_sum_scores_bounds(scores@, n as int);
    }
    let base: u32 = POLICY_BASELINE / (n as u32);
    let mut out: Vec<u32> = Vec::new();
    let mut total: u64 = 0;
    let mut i2: usize = 0;
    while i2 < n
        invariant
            i2 <= n,
            n == scores@.len(),
            n <= 100_000,
            forall|j: int| 0 <= j < scores@.len() ==> 0 < #[trigger] scores@[j] < SCALE,
            sum_q == sum_scores(scores@, n as int),
            n <= sum_q <= n * 1_000_000,
            base == POLICY_BASELINE / (n as u32),
            base <= POLICY_BASELINE,
            out@.len() == i2,
            total == sum_priors(out@),
            total <= sum_scores(scores@, i2 as int) * 950_000 / (sum_q as int) + i2 * (base as int),
            total <= i2 * 1_050_000,
            forall|j: int| 0 <= j < i2 as int ==> #[trigger] out@[j] >= base,
            forall|j: int|
                0 <= j < i2 as int ==> #[trigger] out@[j] == spec_prior_share(scores@, j),
        decreases n - i2,
    {
        proof {
            lemma_sum_scores_member(scores@, i2 as int, n as int);
            assert((scores@[i2 as int] as int) * 950_000 / (sum_q as int) < SCALE)
                by (nonlinear_arith)
                requires
                    0 < scores@[i2 as int] < SCALE,
                    sum_q >= scores@[i2 as int],
                    sum_q >= 1,
            ;
        }
        let share: u64 = (scores[i2] as u64) * 950_000 / sum_q;
        let p: u32 = (share as u32) + base;
        proof {
            lemma_sum_priors_push(out@, p);
            lemma_sum_scores_bounds(scores@, i2 as int);
            lemma_div_subadditive(
                sum_scores(scores@, i2 as int) * 950_000,
                (scores@[i2 as int] as int) * 950_000,
                sum_q as int,
            );
            assert(sum_scores(scores@, i2 + 1) * 950_000 == sum_scores(scores@, i2 as int)
                * 950_000 + (scores@[i2 as int] as int) * 950_000) by (nonlinear_arith)
                requires
                    sum_scores(scores@, i2 + 1) == sum_scores(scores@, i2 as int) + scores@[i2 as int],
            ;
        }
        proof {
            assert((i2 + 1) * 1_050_000 == i2 * 1_050_000 + 1_050_000) by (nonlinear_arith);
            assert((i2 + 1) * (base as int) == i2 * (base as int) + (base as int))
                by (nonlinear_arith);
            assert(i2 * 1_050_000 <= 100_000 * 1_050_000) by (nonlinear_arith)
                requires
                    0 <= i2 <= 100_000,
            ;
        }
        out.push(p);
        total = total + (p as u64);
        i2 = i2 + 1;
    }
    proof {
        lemma_div_monotone(
            sum_scores(scores@, n as int) * 950_000,
            (sum_q as int) * 950_000,
            sum_q as int,
        );
        assert((sum_q as int) * 950_000 / (sum_q as int) == 950_000) by (nonlinear_arith)
            requires
                sum_q >= 1,
        ;
        assert(sum_scores(scores@, n as int) * 950_000 <= (sum_q as int) * 950_000)
            by (nonlinear_arith)
            requires
                sum_scores(scores@, n as int) == sum_q as int,
        ;
        assert((n as int) * (base as int) <= POLICY_BASELINE) by (nonlinear_arith)
            requires
                base == POLICY_BASELINE as int / n as int,
                n >= 1,
        ;
    }
    let leftover: u32 = SCALE - (total as u32);
    proof {
        lemma_sum_priors_member_first(out@);
    }
    let first = out[0];
    let ghost before_fix = out@;
    proof {
        lemma_sum_priors_update_add(before_fix, 0, leftover);
    }
    out.set(0, first + leftover);
    proof {
        assert(out@ =~= before_fix.update(0, (before_fix[0] + leftover) as u32));
    }
    out
}

/// Adding to one entry adds to the sum.
proof fn lemma_sum_priors_update_add(p: Seq<u32>, i: int, add: u32)
    requires
        0 <= i < p.len(),
        p[i] + add <= u32::MAX,
    ensures
        sum_priors(p) == sum_priors(p.update(i, (p[i] + add) as u32)) - add,
    decreases p.len(),
{
    if p.len() > 0 {
        if i == p.len() - 1 {
            assert(p.update(i, (p[i] + add) as u32).drop_last() =~= p.drop_last());
        } else {
            assert(p.update(i, (p[i] + add) as u32).drop_last() =~= p.drop_last().update(
                i,
                (p[i] + add) as u32,
            ));
            lemma_sum_priors_update_add(p.drop_last(), i, add);
        }
    }
}


/// The number of squares among the first `n` whose top piece is of
/// `color` and `role`.
pub open spec fn count_tops(board: Seq<Seq<Piece>>, color: Color, role: Role, n: int) -> int
    decreases n,
{
    if n <= 0 {
        0
    } else {
        count_tops(board, color, role, n - 1) + if board[n - 1].len() > 0 && board[n
            - 1].last().color == color && board[n - 1].last().role == role {
            1int
        } else {
            0int
        }
    }
}

/// The sum of the symmetry classes of the squares among the first `n`
/// whose top piece is a flat of `color`.
pub open spec fn sum_flat_classes(board: Seq<Seq<Piece>>, color: Color, s: int, n: int) -> int
    decreases n,
{
    if n <= 0 {
        0
    } else {
        sum_flat_classes(board, color, s, n - 1) + if board[n - 1].len() > 0 && board[n
            - 1].last().color == color && board[n - 1].last().role == Role::Flat {
            spec_square_symmetry(n - 1, s)
        } else {
            0int
        }
    }
}

/// The number of squares among the first `n` holding a stack of height
/// at least two topped by `color`.
pub open spec fn count_tall_tops(board: Seq<Seq<Piece>>, color: Color, n: int) -> int
    decreases n,
{
    if n <= 0 {
        0
    } else {
        count_tall_tops(board, color, n - 1) + if board[n - 1].len() > 1 && board[n
            - 1].last().color == color {
            1int
        } else {
            0int
        }
    }
}

/// How many of the first `k` buried pieces of `stack` have the same
/// color as its top piece.
pub open spec fn count_same_below(stack: Seq<Piece>, k: int) -> int
    decreases k,
{
    if k <= 0 {
        0
    } else {
        count_same_below(stack, k - 1) + if stack[k - 1].color == stack.last().color {
            1int
        } else {
            0int
        }
    }
}

/// A stack-shape summand clamped to at most eight.
pub open spec fn clamp8(x: int) -> int {
    if x > 8 {
        8
    } else {
        x
    }
}

/// The supports of `color` among the first `n` squares: for each tall
/// stack topped by `color`, the buried pieces of the same color, capped
/// at eight per stack.
pub open spec fn sum_supports(board: Seq<Seq<Piece>>, color: Color, n: int) -> int
    decreases n,
{
    if n <= 0 {
        0
    } else {
        sum_supports(board, color, n - 1) + if board[n - 1].len() > 1 && board[n - 1].last().color
            == color {
            clamp8(count_same_below(board[n - 1], board[n - 1].len() - 1))
        } else {
            0int
        }
    }
}

/// The captives of `color` among the first `n` squares: for each tall
/// stack topped by `color`, the buried pieces of the other color, capped
/// at eight per stack.
pub open spec fn sum_captives(board: Seq<Seq<Piece>>, color: Color, n: int) -> int
    decreases n,
{
    if n <= 0 {
        0
    } else {
        sum_captives(board, color, n - 1) + if board[n - 1].len() > 1 && board[n - 1].last().color
            == color {
            clamp8(board[n - 1].len() - 1 - count_same_below(board[n - 1], board[n - 1].len() - 1))
        } else {
            0int
        }
    }
}

/// The `j`-th square of rank (or file) `line`.
pub open spec fn spec_line_sq(s: int, line: int, by_rank: bool, j: int) -> int {
    if by_rank {
        line * s + j
    } else {
        j * s + line
    }
}

/// Whether rank (or file) `line` holds a road stone of `color`.
pub open spec fn spec_line_road(
    board: Seq<Seq<Piece>>,
    s: int,
    line: int,
    by_rank: bool,
    color: Color,
) -> bool {
    exists|j: int|
        0 <= j < s && #[trigger] spec_road_stone(board, spec_line_sq(s, line, by_rank, j), color)
}

/// The number of lines among the first `upto` ranks and files holding a
/// road stone of `color`.
pub open spec fn count_road_lines(board: Seq<Seq<Piece>>, s: int, color: Color, upto: int) -> int
    decreases upto,
{
    if upto <= 0 {
        0
    } else {
        count_road_lines(board, s, color, upto - 1) + (if spec_line_road(
            board,
            s,
            upto - 1,
            true,
            color,
        ) {
            1int
        } else {
            0int
        }) + (if spec_line_road(board, s, upto - 1, false, color) {
            1int
        } else {
            0int
        })
    }
}

/// The white-minus-black dot product of the first `k` value features
/// with the weights.
pub open spec fn spec_value_cp(p: PosState, params: Params, k: int) -> int
    decreases k,
{
    if k <= 0 {
        0
    } else {
        spec_value_cp(p, params, k - 1) + (spec_value_feature(p, Color::White, k - 1)
            - spec_value_feature(p, Color::Black, k - 1)) * params.values@[k - 1]
    }
}

/// The opening blend factor in thousandths: `clamp((24 - ply) / 12, 0, 1)`.
pub open spec fn spec_opening_factor(hm: int) -> int {
    if hm >= 24 {
        0
    } else if (24 - hm) * 1000 / 12 > 1000 {
        1000
    } else {
        (24 - hm) * 1000 / 12
    }
}

/// The endgame blend factor in thousandths: `clamp((ply - 24) / 24, 0, 1)`.
pub open spec fn spec_endgame_factor(hm: int) -> int {
    if hm <= 24 {
        0
    } else if (hm - 24) * 1000 / 24 > 1000 {
        1000
    } else {
        (hm - 24) * 1000 / 24
    }
}

/// The scalar that blends the linear score over the game phases:
/// openings count 12/10, middlegames 10/10 and endgames 9/10.
pub open spec fn spec_phase_blend(hm: int) -> int {
    (spec_opening_factor(hm) * 12 + (1000 - spec_opening_factor(hm) - spec_endgame_factor(hm)) * 10
        + spec_endgame_factor(hm) * 9) / 10
}

/// Division rounding toward zero, as machine division does.
pub open spec fn spec_div_trunc(a: int, b: int) -> int {
    if a >= 0 {
        a / b
    } else {
        -((-a) / b)
    }
}

/// Clamp a score into the range the squashing function accepts.
pub open spec fn spec_clamp_cp(x: int) -> int {
    if x > 1_000_000_000_000 {
        1_000_000_000_000
    } else if x < -1_000_000_000_000 {
        -1_000_000_000_000
    } else {
        x
    }
}

/// The white-centric static evaluation: the phase-blended dot product
/// of the value features with the weights, minus the komi term, clamped.
pub open spec fn spec_static_eval(p: PosState, params: Params) -> int {
    spec_clamp_cp(
        spec_div_trunc(
            spec_value_cp(p, params, NUM_VALUE_FEATURES as int) * spec_phase_blend(
                p.half_moves as int,
            ),
            1000,
        ) - p.komi.spec_half_komi() * 60_000,
    )
}

/// Value feature `i` of `color`: flat, wall and capstone tops, the
/// symmetry-folded placement of the flats, line presence, and stack
/// shape; the remaining slots are reserved and zero.
pub open spec fn spec_value_feature(p: PosState, c: Color, i: int) -> int {
    if i == 0 {
        count_tops(p.board, c, Role::Flat, p.num_squares())
    } else if i == 1 {
        sum_flat_classes(p.board, c, p.size as int, p.num_squares())
    } else if i == 2 {
        count_tops(p.board, c, Role::Wall, p.num_squares())
    } else if i == 3 {
        count_tops(p.board, c, Role::Cap, p.num_squares())
    } else if i == 4 {
        count_road_lines(p.board, p.size as int, c, p.size as int)
    } else if i == 5 {
        count_tall_tops(p.board, c, p.num_squares())
    } else if i == 6 {
        sum_supports(p.board, c, p.num_squares())
    } else if i == 7 {
        sum_captives(p.board, c, p.num_squares())
    } else {
        0
    }
}

/// The game-phase blend factors in thousandths: the opening factor is
/// `clamp((24 - ply) / 12, 0, 1)`, the endgame factor
/// `clamp((ply - 24) / 24, 0, 1)`, and the middlegame the rest.
pub fn phase_factors(half_moves: u32) -> (r: (i64, i64, i64))
    ensures
        r.0 == if half_moves >= 24 {
            0int
        } else if (24 - half_moves) * 1000 / 12 > 1000 {
            1000int
        } else {
            (24 - half_moves) * 1000 / 12
        },
        r.2 == if half_moves <= 24 {
            0int
        } else if (half_moves - 24) * 1000 / 24 > 1000 {
            1000int
        } else {
            (half_moves - 24) * 1000 / 24
        },
        r.1 == 1000 - r.0 - r.2,
        0 <= r.0 <= 1000 && 0 <= r.1 <= 1000 && 0 <= r.2 <= 1000,
{
    let opening: i64 = if half_moves >= 24 {
        0
    } else {
        let raw: i64 = ((24 - half_moves) as i64) * 1000 / 12;
        if raw > 1000 {
            1000
        } else {
            raw
        }
    };
    let endgame: i64 = if half_moves <= 24 {
        0
    } else {
        let raw: i64 = ((half_moves - 24) as i64) * 1000 / 24;
        if raw > 1000 {
            1000
        } else {
            raw
        }
    };
    let middle: i64 = 1000 - opening - endgame;
    proof {
        assert(opening == 0 || endgame == 0);
    }
    (opening, middle, endgame)
}

impl Position {
    /// Fill the per-color value features: flat, wall and capstone tops,
    /// their symmetry-folded placement, line presence, and stack shape
    /// (controlled tall stacks, supports and captives). Each entry is
    /// exactly [`spec_value_feature`] of its color and index.
    pub fn static_eval_game_phase(&self, white_features: &mut Vec<i64>, black_features: &mut Vec<
        i64,
    >)
        requires
            self@.wf(),
        ensures
            final(white_features)@.len() == NUM_VALUE_FEATURES,
            final(black_features)@.len() == NUM_VALUE_FEATURES,
            forall|i: int|
                0 <= i < NUM_VALUE_FEATURES ==> #[trigger] final(white_features)@[i]
                    == spec_value_feature(self@, Color::White, i),
            forall|i: int|
                0 <= i < NUM_VALUE_FEATURES ==> #[trigger] final(black_features)@[i]
                    == spec_value_feature(self@, Color::Black, i),
            forall|i: int|
                0 <= i < NUM_VALUE_FEATURES ==> 0 <= #[trigger] final(white_features)@[i] <= 2000,
            forall|i: int|
                0 <= i < NUM_VALUE_FEATURES ==> 0 <= #[trigger] final(black_features)@[i] <= 2000,
    {
        white_features.clear();
        black_features.clear();
        let w = self.value_features_for_color(Color::White);
        let b = self.value_features_for_color(Color::Black);
        let mut i: usize = 0;
        while i < NUM_VALUE_FEATURES
            invariant
                i <= NUM_VALUE_FEATURES,
                w@.len() == NUM_VALUE_FEATURES,
                b@.len() == NUM_VALUE_FEATURES,
                white_features@.len() == i,
                black_features@.len() == i,
                forall|j: int| 0 <= j < i as int ==> #[trigger] white_features@[j] == w@[j],
                forall|j: int| 0 <= j < i as int ==> #[trigger] black_features@[j] == b@[j],
            decreases NUM_VALUE_FEATURES - i,
        {
            white_features.push(w[i]);
            black_features.push(b[i]);
            i = i + 1;
        }
    }

    /// One color's value feature vector, entry by entry equal to
    /// [`spec_value_feature`].
    #[verifier::rlimit(100)]
    fn value_features_for_color(&self, c: Color) -> (r: Vec<i64>)
        requires
            self@.wf(),
        ensures
            r@.len() == NUM_VALUE_FEATURES,
            forall|i: int|
                0 <= i < NUM_VALUE_FEATURES ==> #[trigger] r@[i] == spec_value_feature(
                    self@,
                    c,
                    i,
                ),
            forall|i: int| 0 <= i < NUM_VALUE_FEATURES ==> 0 <= #[trigger] r@[i] <= 2000,
    {
        proof {
            assert((self@.size as int) * (self@.size as int) <= 64) by (nonlinear_arith)
                requires
                    self@.size <= 8,
            ;
        }
        let n = self.num_squares();
        let s = self.size();
        let mut f0: i64 = 0;
        let mut f1: i64 = 0;
        let mut f2: i64 = 0;
        let mut f3: i64 = 0;
        let mut f5: i64 = 0;
        let mut f6: i64 = 0;
        let mut f7: i64 = 0;
        let mut sq: u8 = 0;
        while sq < n
            invariant
                sq <= n,
                n <= 64,
                self@.wf(),
                s == self@.size,
                n as int == self@.num_squares(),
                n as int == self@.board.len(),
                f0 == count_tops(self@.board, c, Role::Flat, sq as int),
                f1 == sum_flat_classes(self@.board, c, s as int, sq as int),
                f2 == count_tops(self@.board, c, Role::Wall, sq as int),
                f3 == count_tops(self@.board, c, Role::Cap, sq as int),
                f5 == count_tall_tops(self@.board, c, sq as int),
                f6 == sum_supports(self@.board, c, sq as int),
                f7 == sum_captives(self@.board, c, sq as int),
                0 <= f0 <= sq as int,
                0 <= f1 <= 10 * sq as int,
                0 <= f2 <= sq as int,
                0 <= f3 <= sq as int,
                0 <= f5 <= sq as int,
                0 <= f6 <= 8 * sq as int,
                0 <= f7 <= 8 * sq as int,
            decreases n - sq,
        {
            proof {
                assert((sq as int) < (s as int) * (s as int));
                assert(10 * (sq as int + 1) == 10 * (sq as int) + 10 && 8 * (sq as int + 1) == 8 * (
                sq as int) + 8) by (nonlinear_arith);
            }
            let stack = self.get_stack(sq);
            let height = stack.len();
            if height > 0 {
                let top = stack.get(height - 1).unwrap();
                let class = crate::square::lookup_square_symmetries(sq, s) as i64;
                if top.color == c {
                    match top.role {
                        Role::Flat => {
                            f0 = f0 + 1;
                            f1 = f1 + class;
                        },
                        Role::Wall => {
                            f2 = f2 + 1;
                        },
                        Role::Cap => {
                            f3 = f3 + 1;
                        },
                    }
                    if height > 1 {
                        proof {
                            self@.lemma_stack_height_bound(sq as int);
                        }
                        f5 = f5 + 1;
                        let mut k: usize = 0;
                        let mut supports: i64 = 0;
                        while k < height - 1
                            invariant
                                k <= height - 1,
                                height == stack@.len(),
                                height >= 2,
                                height <= 120,
                                0 <= supports <= k,
                                supports == count_same_below(stack@, k as int),
                            decreases height - 1 - k,
                        {
                            let piece = stack.get(k).unwrap();
                            let top_again = stack.get(height - 1).unwrap();
                            if piece.color == top_again.color {
                                supports = supports + 1;
                            }
                            k = k + 1;
                        }
                        let mut captives: i64 = (height as i64) - 1 - supports;
                        if supports > 8 {
                            supports = 8;
                        }
                        if captives > 8 {
                            captives = 8;
                        }
                        f6 = f6 + supports;
                        f7 = f7 + captives;
                    }
                }
            }
            sq = sq + 1;
        }
        // Line presence: ranks and files holding at least one road stone.
        let mut f4: i64 = 0;
        let mut line: u8 = 0;
        while line < s
            invariant
                line <= s,
                self@.wf(),
                s == self@.size,
                f4 == count_road_lines(self@.board, s as int, c, line as int),
                0 <= f4 <= 2 * line as int,
            decreases s - line,
        {
            let lr = self.line_has_road_stone(line, true, c);
            let lf = self.line_has_road_stone(line, false, c);
            f4 = f4 + (if lr {
                1
            } else {
                0
            }) + (if lf {
                1
            } else {
                0
            });
            line = line + 1;
        }
        let mut out: Vec<i64> = Vec::new();
        out.push(f0);
        out.push(f1);
        out.push(f2);
        out.push(f3);
        out.push(f4);
        out.push(f5);
        out.push(f6);
        out.push(f7);
        let mut pad: usize = 8;
        while pad < NUM_VALUE_FEATURES
            invariant
                8 <= pad <= NUM_VALUE_FEATURES,
                out@.len() == pad,
                out@[0] == f0 && out@[1] == f1 && out@[2] == f2 && out@[3] == f3,
                out@[4] == f4 && out@[5] == f5 && out@[6] == f6 && out@[7] == f7,
                forall|j: int| 8 <= j < pad as int ==> #[trigger] out@[j] == 0,
            decreases NUM_VALUE_FEATURES - pad,
        {
            out.push(0);
            pad = pad + 1;
        }
        out
    }

    /// Whether the given rank (or file) holds a road stone of `color`:
    /// exactly [`spec_line_road`].
    fn line_has_road_stone(&self, line: u8, by_rank: bool, color: Color) -> (r: bool)
        requires
            self@.wf(),
            line < self@.size,
        ensures
            r == spec_line_road(self@.board, self@.size as int, line as int, by_rank, color),
    {
        proof {
            assert((self@.size as int) * (self@.size as int) <= 64) by (nonlinear_arith)
                requires
                    self@.size <= 8,
            ;
        }
        let s = self.size();
        let mut j: u8 = 0;
        while j < s
            invariant
                j <= s,
                self@.wf(),
                s == self@.size,
                line < s,
                (s as int) * (s as int) <= 64,
                forall|jj: int|
                    0 <= jj < j as int ==> !spec_road_stone(
                        self@.board,
                        #[trigger] spec_line_sq(s as int, line as int, by_rank, jj),
                        color,
                    ),
            decreases s - j,
        {
            proof {
                assert((line as int) * (s as int) + (j as int) < (s as int) * (s as int) && (
                j as int) * (s as int) + (line as int) < (s as int) * (s as int))
                    by (nonlinear_arith)
                    requires
                        line < s,
                        j < s,
                        s <= 8,
                ;
            }
            let sq: u8 = if by_rank {
                line * s + j
            } else {
                j * s + line
            };
            let stack = self.get_stack(sq);
            let height = stack.len();
            if height > 0 {
                let top = stack.get(height - 1).unwrap();
                if top.color == color && top.role != Role::Wall {
                    proof {
                        assert(sq as int == spec_line_sq(
                            s as int,
                            line as int,
                            by_rank,
                            j as int,
                        ));
                        assert(spec_road_stone(
                            self@.board,
                            spec_line_sq(s as int, line as int, by_rank, j as int),
                            color,
                        ));
                    }
                    return true;
                }
            }
            j = j + 1;
        }
        false
    }

    /// The white-centric static evaluation: the phase-blended linear
    /// model over the difference of the two colors' feature vectors,
    /// with the komi folded in. The result is exactly
    /// [`spec_static_eval`].
    pub fn static_eval_with_params(&self, params: &Params) -> (r: i64)
        requires
            self@.wf(),
            params.wf(NUM_VALUE_FEATURES as int),
        ensures
            r == spec_static_eval(self@, *params),
            -1_000_000_000_000 <= r <= 1_000_000_000_000,
    {
        let mut white_features: Vec<i64> = Vec::new();
        let mut black_features: Vec<i64> = Vec::new();
        self.static_eval_game_phase(&mut white_features, &mut black_features);
        let (opening, middle, endgame) = phase_factors(self.half_moves_played());
        let mut cp: i64 = 0;
        let mut i: usize = 0;
        while i < NUM_VALUE_FEATURES
            invariant
                i <= NUM_VALUE_FEATURES,
                self@.wf(),
                white_features@.len() == NUM_VALUE_FEATURES,
                black_features@.len() == NUM_VALUE_FEATURES,
                params.wf(NUM_VALUE_FEATURES as int),
                forall|j: int|
                    0 <= j < NUM_VALUE_FEATURES ==> #[trigger] white_features@[j]
                        == spec_value_feature(self@, Color::White, j),
                forall|j: int|
                    0 <= j < NUM_VALUE_FEATURES ==> #[trigger] black_features@[j]
                        == spec_value_feature(self@, Color::Black, j),
                forall|j: int|
                    0 <= j < NUM_VALUE_FEATURES ==> 0 <= #[trigger] white_features@[j] <= 2000,
                forall|j: int|
                    0 <= j < NUM_VALUE_FEATURES ==> 0 <= #[trigger] black_features@[j] <= 2000,
                cp == spec_value_cp(self@, *params, i as int),
                -(i as i64) * 2_000_000_000 <= cp <= (i as i64) * 2_000_000_000,
            decreases NUM_VALUE_FEATURES - i,
        {
            let diff: i64 = white_features[i] - black_features[i];
            let w: i64 = params.values[i];
            proof {
                assert(-2_000_000_000 <= diff * w <= 2_000_000_000) by (nonlinear_arith)
                    requires
                        -2000 <= diff <= 2000,
                        -1_000_000 <= w <= 1_000_000,
                ;
                assert(((i + 1) as i64) * 2_000_000_000 == (i as i64) * 2_000_000_000
                    + 2_000_000_000) by (nonlinear_arith)
                    requires
                        i < 16,
                ;
            }
            cp = cp + diff * w;
            i = i + 1;
        }
        // The phase blend scales the material part of the score.
        let blend: i64 = (opening * 12 + middle * 10 + endgame * 9) / 10;
        proof {
            assert(opening == spec_opening_factor(self@.half_moves as int));
            assert(endgame == spec_endgame_factor(self@.half_moves as int));
            assert(blend == spec_phase_blend(self@.half_moves as int));
            assert(0 <= blend <= 1200);
            assert(-32_000_000_000 <= cp <= 32_000_000_000);
            assert(-40_000_000_000_000 <= cp * blend <= 40_000_000_000_000) by (nonlinear_arith)
                requires
                    -32_000_000_000 <= cp <= 32_000_000_000,
                    0 <= blend <= 1200,
            ;
        }
        let scaled: i64 = cp * blend / 1000;
        // Komi counts against White on the flat tally.
        let komi_term: i64 = (self.komi().half_komi() as i64) * 60_000;
        let total: i64 = scaled - komi_term;
        if total > 1_000_000_000_000 {
            1_000_000_000_000
        } else if total < -1_000_000_000_000 {
            -1_000_000_000_000
        } else {
            total
        }
    }
}


/// One-ply outcome detectors, characterized over the game result of
/// the position after the move.
proof fn lemma_one_ply_outcomes(p: PosState, m: MoveView, outcome: Option<GameResult>)
    requires
        outcome == p.spec_do_move(m).spec_game_result(),
    ensures
        spec_move_wins(p, m) == match (outcome, p.to_move) {
            (Option::Some(GameResult::WhiteWin), Color::White) => true,
            (Option::Some(GameResult::BlackWin), Color::Black) => true,
            _ => false,
        },
        spec_move_loses(p, m) == match (outcome, p.to_move) {
            (Option::Some(GameResult::WhiteWin), Color::Black) => true,
            (Option::Some(GameResult::BlackWin), Color::White) => true,
            _ => false,
        },
        spec_move_draws(p, m) == (outcome == Option::Some(GameResult::Draw)),
{
    reveal(spec_move_wins);
    reveal(spec_move_loses);
    reveal(spec_move_draws);
}

/// The mover of `p` wins the game at once by playing `m`.
#[verifier::opaque]
pub open spec fn spec_move_wins(p: PosState, m: MoveView) -> bool {
    match (p.spec_do_move(m).spec_game_result(), p.to_move) {
        (Option::Some(GameResult::WhiteWin), Color::White) => true,
        (Option::Some(GameResult::BlackWin), Color::Black) => true,
        _ => false,
    }
}

/// The mover of `p` loses the game at once by playing `m`.
#[verifier::opaque]
pub open spec fn spec_move_loses(p: PosState, m: MoveView) -> bool {
    match (p.spec_do_move(m).spec_game_result(), p.to_move) {
        (Option::Some(GameResult::WhiteWin), Color::Black) => true,
        (Option::Some(GameResult::BlackWin), Color::White) => true,
        _ => false,
    }
}

/// Playing `m` ends the game in a draw at once.
#[verifier::opaque]
pub open spec fn spec_move_draws(p: PosState, m: MoveView) -> bool {
    p.spec_do_move(m).spec_game_result() == Option::Some(GameResult::Draw)
}

/// Some move of the list wins at once for the mover.
pub open spec fn spec_any_win(p: PosState, ms: Seq<MoveView>) -> bool {
    exists|j: int| 0 <= j < ms.len() && spec_move_wins(p, #[trigger] ms[j])
}

/// The flat-count delta `m` causes for the mover, clamped to `[-8, 8]`.
#[verifier::opaque]
pub open spec fn spec_fcd_clamped(p: PosState, m: MoveView) -> int {
    let d = count_flat_tops(p.spec_do_move(m).board, p.to_move, p.num_squares())
        - count_flat_tops(p.board, p.to_move, p.num_squares());
    if d > 8 {
        8
    } else if d < -8 {
        -8
    } else {
        d
    }
}

/// The road stones of `c` on rank `rk` and file `fl`, over the first
/// `j` positions of each line.
pub open spec fn count_line_road_stones(
    board: Seq<Seq<Piece>>,
    s: int,
    rk: int,
    fl: int,
    c: Color,
    j: int,
) -> int
    decreases j,
{
    if j <= 0 {
        0
    } else {
        count_line_road_stones(board, s, rk, fl, c, j - 1) + (if spec_road_stone(
            board,
            rk * s + (j - 1),
            c,
        ) {
            1int
        } else {
            0int
        }) + (if spec_road_stone(board, (j - 1) * s + fl, c) {
            1int
        } else {
            0int
        })
    }
}

/// The number of road stones of `c` on the rank and file through `sq`,
/// capped at sixteen.
pub open spec fn spec_road_stones_on_lines(p: PosState, sq: int, c: Color) -> int {
    let t = count_line_road_stones(
        p.board,
        p.size as int,
        spec_rank(sq, p.size as int),
        spec_file(sq, p.size as int),
        c,
        p.size as int,
    );
    if t > 16 {
        16
    } else {
        t
    }
}

/// Whether spreading the stack at `sq` in `dir` damages the mover's
/// group: neither flank keeps it connected.
pub open spec fn spec_spread_damage(p: PosState, sq: u8, dir: Direction) -> bool {
    !(crate::history::spec_flank_keeps_group(
        p,
        sq,
        dir,
        p.to_move,
        dir.spec_orthogonal_directions().0,
    ) || crate::history::spec_flank_keeps_group(
        p,
        sq,
        dir,
        p.to_move,
        dir.spec_orthogonal_directions().1,
    ))
}

/// Policy feature `i` of move `m`: the one-ply win, loss and draw
/// detectors, declining an available win, the clamped flat-count delta,
/// the target's symmetry class, wall and capstone placement markers,
/// road stones on the target's lines for both sides, the group-damage
/// marker, and the movement marker. During the opening plies every
/// feature is zero.
pub open spec fn spec_policy_feature(p: PosState, m: MoveView, any_win: bool, i: int) -> int {
    if p.half_moves < 2 {
        0
    } else if i == 0 {
        if spec_move_wins(p, m) {
            100
        } else {
            0
        }
    } else if i == 1 {
        if spec_move_loses(p, m) {
            100
        } else {
            0
        }
    } else if i == 2 {
        if spec_move_draws(p, m) {
            50
        } else {
            0
        }
    } else if i == 3 {
        if any_win && !spec_move_wins(p, m) {
            100
        } else {
            0
        }
    } else if i == 4 {
        spec_fcd_clamped(p, m)
    } else if i == 5 {
        spec_square_symmetry(m.spec_origin_square() as int, p.size as int)
    } else if i == 6 {
        match m {
            MoveView::Place(role, _) => if role == Role::Wall {
                1int
            } else {
                0int
            },
            _ => 0int,
        }
    } else if i == 7 {
        match m {
            MoveView::Place(role, _) => if role == Role::Cap {
                1int
            } else {
                0int
            },
            _ => 0int,
        }
    } else if i == 8 {
        spec_road_stones_on_lines(p, m.spec_origin_square() as int, p.to_move)
    } else if i == 9 {
        spec_road_stones_on_lines(p, m.spec_origin_square() as int, p.to_move.spec_other())
    } else if i == 10 {
        match m {
            MoveView::Spread(sq, dir, _) => if spec_spread_damage(p, sq, dir) {
                1int
            } else {
                0int
            },
            _ => 0int,
        }
    } else {
        match m {
            MoveView::Spread(_, _, _) => 1int,
            _ => 0int,
        }
    }
}

impl Position {
    /// The place-to-allow-opponent-to-end markers: the mover's view of
    /// the flat-count adjudication if the opponent could end the game
    /// on flats after gaining one more flat. Exactly one of the loss,
    /// draw and win markers is one.
    pub fn check_flat_win_next_move(&self, us: Color, our_flats_after_move: i8, their_flats: i8)
        -> (r: (i64, i64, i64))
        requires
            their_flats < 100,
        ensures
            ({
                let adj = if us == Color::White {
                    self@.komi.spec_flatcount_result(
                        our_flats_after_move as int,
                        their_flats + 1,
                    )
                } else {
                    self@.komi.spec_flatcount_result(
                        their_flats + 1,
                        our_flats_after_move as int,
                    )
                };
                let win_for_us = if us == Color::White {
                    GameResult::WhiteWin
                } else {
                    GameResult::BlackWin
                };
                let loss_for_us = if us == Color::White {
                    GameResult::BlackWin
                } else {
                    GameResult::WhiteWin
                };
                &&& r.0 == (if adj == loss_for_us {
                    1int
                } else {
                    0int
                })
                &&& r.1 == (if adj == GameResult::Draw {
                    1int
                } else {
                    0int
                })
                &&& r.2 == (if adj == win_for_us {
                    1int
                } else {
                    0int
                })
                &&& r.0 + r.1 + r.2 == 1
            }),
    {
        let outcome = match us {
            Color::White => self.komi().game_result_with_flatcounts(
                our_flats_after_move,
                their_flats + 1,
            ),
            Color::Black => self.komi().game_result_with_flatcounts(
                their_flats + 1,
                our_flats_after_move,
            ),
        };
        match (outcome, us) {
            (GameResult::Draw, _) => (0, 1, 0),
            (GameResult::WhiteWin, Color::White) => (0, 0, 1),
            (GameResult::BlackWin, Color::White) => (1, 0, 0),
            (GameResult::WhiteWin, Color::Black) => (1, 0, 0),
            (GameResult::BlackWin, Color::Black) => (0, 0, 1),
        }
    }
}

/// The dot product of the first `k` policy features of `m` with the
/// weights.
pub open spec fn spec_policy_dot(
    p: PosState,
    m: MoveView,
    any_win: bool,
    params: Params,
    k: int,
) -> int
    decreases k,
{
    if k <= 0 {
        0
    } else {
        spec_policy_dot(p, m, any_win, params, k - 1) + spec_policy_feature(p, m, any_win, k - 1)
            * params.values@[k - 1]
    }
}

/// The clamped sigmoid offset that centres `n` moves' raw scores on
/// the even share.
pub open spec fn spec_policy_offset(n: int) -> int {
    let denom = if n < 2 {
        2int
    } else if n > 4096 {
        4096int
    } else {
        n
    };
    let raw = spec_inverse_sigmoid(SCALE as int / denom);
    if raw > 600_000_000_000 {
        600_000_000_000
    } else if raw < -600_000_000_000 {
        -600_000_000_000
    } else {
        raw
    }
}

/// The raw policy score of `m` among `n` moves: the squashed sum of its
/// feature dot product and the offset.
pub open spec fn spec_policy_score(
    p: PosState,
    m: MoveView,
    any_win: bool,
    params: Params,
    n: int,
) -> int {
    spec_sigmoid(
        spec_clamp_cp(
            spec_policy_dot(p, m, any_win, params, NUM_POLICY_FEATURES as int)
                + spec_policy_offset(n),
        ),
    )
}

/// The raw policy scores of a move list.
pub open spec fn spec_policy_scores(p: PosState, ms: Seq<MoveView>, params: Params) -> Seq<u32> {
    Seq::new(
        ms.len(),
        |j: int| spec_policy_score(p, ms[j], spec_any_win(p, ms), params, ms.len() as int) as u32,
    )
}

impl Position {
    /// The per-move policy features: entry by entry exactly
    /// [`spec_policy_feature`], with the decline-a-win flag taken over
    /// the whole list.
    #[verifier::rlimit(100)]
    pub fn features_for_moves(&self, moves: &Vec<Move>) -> (r: Vec<Vec<i64>>)
        requires
            self@.wf(),
            self@.half_moves < HALF_MOVES_MAX,
            forall|j: int| 0 <= j < moves@.len() ==> self@.spec_legal_move(#[trigger] moves@[j]@),
        ensures
            r@.len() == moves@.len(),
            forall|j: int|
                0 <= j < r@.len() ==> (#[trigger] r@[j])@.len() == NUM_POLICY_FEATURES,
            forall|j: int, k: int|
                0 <= j < r@.len() && 0 <= k < NUM_POLICY_FEATURES ==> -100 <= #[trigger] r@[j]@[k]
                    <= 100,
            self@.half_moves < 2 ==> forall|j: int, k: int|
                0 <= j < r@.len() && 0 <= k < NUM_POLICY_FEATURES ==> #[trigger] r@[j]@[k] == 0,
            forall|j: int, k: int|
                0 <= j < r@.len() && 0 <= k < NUM_POLICY_FEATURES ==> #[trigger] r@[j]@[k]
                    == spec_policy_feature(
                    self@,
                    moves@[j]@,
                    spec_any_win(self@, moves@.map_values(|m: Move| m@)),
                    k,
                ),
    {
        let (win_flags, any_win) = self.one_ply_win_flags(moves);
        let mut out: Vec<Vec<i64>> = Vec::new();
        let us = self.side_to_move();
        let mut i: usize = 0;
        while i < moves.len()
            invariant
                i <= moves@.len(),
                self@.wf(),
                self@.half_moves < HALF_MOVES_MAX,
                forall|k: int|
                    0 <= k < moves@.len() ==> self@.spec_legal_move(#[trigger] moves@[k]@),
                win_flags@.len() == moves@.len(),
                us == self@.to_move,
                forall|j2: int|
                    0 <= j2 < moves@.len() ==> #[trigger] win_flags@[j2] == spec_move_wins(
                        self@,
                        moves@[j2]@,
                    ),
                any_win == spec_any_win(self@, moves@.map_values(|m: Move| m@)),
                out@.len() == i,
                forall|j2: int|
                    0 <= j2 < out@.len() ==> (#[trigger] out@[j2])@.len() == NUM_POLICY_FEATURES,
                forall|j2: int, k: int|
                    0 <= j2 < out@.len() && 0 <= k < NUM_POLICY_FEATURES ==> -100
                        <= #[trigger] out@[j2]@[k] <= 100,
                self@.half_moves < 2 ==> forall|j2: int, k: int|
                    0 <= j2 < out@.len() && 0 <= k < NUM_POLICY_FEATURES
                        ==> #[trigger] out@[j2]@[k] == 0,
                forall|j2: int, k: int|
                    0 <= j2 < out@.len() && 0 <= k < NUM_POLICY_FEATURES ==> #[trigger] out@[j2]@[k]
                        == spec_policy_feature(
                        self@,
                        moves@[j2]@,
                        spec_any_win(self@, moves@.map_values(|m: Move| m@)),
                        k,
                    ),
            decreases moves@.len() - i,
        {
            let mv = &moves[i];
            let features = self.features_for_move(mv, win_flags[i], any_win);
            out.push(features);
            i = i + 1;
        }
        out
    }

    /// Which of the moves win at once for the mover, and whether any
    /// does.
    #[verifier::rlimit(100)]
    fn one_ply_win_flags(&self, moves: &Vec<Move>) -> (r: (Vec<bool>, bool))
        requires
            self@.wf(),
            self@.half_moves < HALF_MOVES_MAX,
            forall|j: int| 0 <= j < moves@.len() ==> self@.spec_legal_move(#[trigger] moves@[j]@),
        ensures
            r.0@.len() == moves@.len(),
            forall|j: int|
                0 <= j < moves@.len() ==> #[trigger] r.0@[j] == spec_move_wins(
                    self@,
                    moves@[j]@,
                ),
            r.1 == spec_any_win(self@, moves@.map_values(|m: Move| m@)),
    {
        let us = self.side_to_move();
        let mut any_win = false;
        let mut win_flags: Vec<bool> = Vec::new();
        let mut j: usize = 0;
        while j < moves.len()
            invariant
                j <= moves@.len(),
                self@.wf(),
                self@.half_moves < HALF_MOVES_MAX,
                forall|k: int|
                    0 <= k < moves@.len() ==> self@.spec_legal_move(#[trigger] moves@[k]@),
                win_flags@.len() == j,
                us == self@.to_move,
                forall|j2: int|
                    0 <= j2 < j as int ==> #[trigger] win_flags@[j2] == spec_move_wins(
                        self@,
                        moves@[j2]@,
                    ),
                any_win <==> (exists|j2: int|
                    0 <= j2 < j as int && spec_move_wins(self@, (#[trigger] moves@[j2])@)),
            decreases moves@.len() - j,
        {
            let mv = &moves[j];
            proof {
                self@.lemma_do_move_wf(moves@[j as int]@);
            }
            let mut scratch = self.duplicate();
            let _ = scratch.do_move(mv.duplicate());
            let outcome = scratch.game_result();
            let wins = match (outcome, us) {
                (Some(GameResult::WhiteWin), Color::White) => true,
                (Some(GameResult::BlackWin), Color::Black) => true,
                _ => false,
            };
            proof {
                lemma_one_ply_outcomes(self@, moves@[j as int]@, outcome);
                assert(wins == spec_move_wins(self@, moves@[j as int]@));
            }
            if wins {
                any_win = true;
            }
            win_flags.push(wins);
            proof {
                if !wins {
                    if exists|j2: int|
                        0 <= j2 < j + 1 && spec_move_wins(self@, (#[trigger] moves@[j2])@) {
                        let j2 = choose|j2: int|
                            0 <= j2 < j + 1 && spec_move_wins(self@, (#[trigger] moves@[j2])@);
                        assert(j2 < j as int);
                    }
                }
            }
            j = j + 1;
        }
        proof {
            let ghost views = moves@.map_values(|m: Move| m@);
            assert forall|j2: int| 0 <= j2 < views.len() implies (#[trigger] views[j2])
                == moves@[j2]@ by {}
            if any_win {
                let j2 = choose|j2: int|
                    0 <= j2 < moves@.len() && spec_move_wins(self@, (#[trigger] moves@[j2])@);
                assert(spec_move_wins(self@, views[j2]));
                assert(spec_any_win(self@, views));
            } else {
                if spec_any_win(self@, views) {
                    let j2 = choose|j2: int|
                        0 <= j2 < views.len() && spec_move_wins(self@, #[trigger] views[j2]);
                    assert(spec_move_wins(self@, moves@[j2]@));
                    assert(false);
                }
            }
            assert(any_win == spec_any_win(self@, views));
        }
        (win_flags, any_win)
    }

    /// The policy features of one move: entry by entry exactly
    /// [`spec_policy_feature`]. During the first two plies every
    /// feature is zero, so every opening move gets the same prior.
    #[verifier::rlimit(100)]
    fn features_for_move(&self, mv: &Move, wins: bool, any_win: bool) -> (r: Vec<i64>)
        requires
            self@.wf(),
            self@.half_moves < HALF_MOVES_MAX,
            self@.spec_legal_move(mv@),
            wins == spec_move_wins(self@, mv@),
        ensures
            r@.len() == NUM_POLICY_FEATURES,
            forall|k: int| 0 <= k < NUM_POLICY_FEATURES ==> -100 <= #[trigger] r@[k] <= 100,
            self@.half_moves < 2 ==> forall|k: int|
                0 <= k < NUM_POLICY_FEATURES ==> #[trigger] r@[k] == 0,
            forall|k: int|
                0 <= k < NUM_POLICY_FEATURES ==> #[trigger] r@[k] == spec_policy_feature(
                    self@,
                    mv@,
                    any_win,
                    k,
                ),
    {
        if self.half_moves_played() < 2 {
            let mut zeros: Vec<i64> = Vec::new();
            let mut z: usize = 0;
            while z < NUM_POLICY_FEATURES
                invariant
                    z <= NUM_POLICY_FEATURES,
                    zeros@.len() == z,
                    forall|k: int| 0 <= k < z as int ==> #[trigger] zeros@[k] == 0,
                decreases NUM_POLICY_FEATURES - z,
            {
                zeros.push(0);
                z = z + 1;
            }
            return zeros;
        }
        let us = self.side_to_move();
        proof {
            self@.lemma_do_move_wf(mv@);
            assert((self@.size as int) * (self@.size as int) <= 64) by (nonlinear_arith)
                requires
                    self@.size <= 8,
            ;
        }
        let mut scratch = self.duplicate();
        let _ = scratch.do_move(mv.duplicate());
        let outcome = scratch.game_result();
        let loses = match (outcome, us) {
            (Some(GameResult::WhiteWin), Color::Black) => true,
            (Some(GameResult::BlackWin), Color::White) => true,
            _ => false,
        };
        let draws = match outcome {
            Some(GameResult::Draw) => true,
            _ => false,
        };
        proof {
            lemma_one_ply_outcomes(self@, mv@, outcome);
            assert(loses == spec_move_loses(self@, mv@));
            assert(draws == spec_move_draws(self@, mv@));
        }
        let fcd = self.fcd_for_move(mv);
        let fcd_clamped: i64 = if fcd > 8 {
            8
        } else if fcd < -8 {
            -8
        } else {
            fcd as i64
        };
        proof {
            reveal(spec_fcd_clamped);
            assert(fcd_clamped == spec_fcd_clamped(self@, mv@));
        }
        let sq = mv.origin_square();
        let class = crate::square::lookup_square_symmetries(sq, self.size()) as i64;
        let our_line = self.road_stones_on_lines(sq, us);
        let their_line = self.road_stones_on_lines(sq, us.other());
        let mut features: Vec<i64> = Vec::new();
        features.push(if wins {
            100
        } else {
            0
        });
        features.push(if loses {
            100
        } else {
            0
        });
        features.push(if draws {
            50
        } else {
            0
        });
        features.push(if any_win && !wins {
            100
        } else {
            0
        });
        features.push(fcd_clamped);
        features.push(class);
        match mv {
            Move::Place(role, _) => {
                features.push(if *role == Role::Wall {
                    1
                } else {
                    0
                });
                features.push(if *role == Role::Cap {
                    1
                } else {
                    0
                });
                features.push(our_line);
                features.push(their_line);
                features.push(0);
                features.push(0);
            },
            Move::Spread(origin, dir, _) => {
                features.push(0);
                features.push(0);
                features.push(our_line);
                features.push(their_line);
                let damages = crate::history::spread_damages_our_group(self, *origin, *dir, us);
                proof {
                    assert(damages == spec_spread_damage(self@, *origin, *dir));
                }
                features.push(if damages {
                    1
                } else {
                    0
                });
                features.push(1);
            },
        }
        features
    }

    /// The number of road stones of `color` on the rank and file through
    /// `sq`: exactly [`spec_road_stones_on_lines`].
    fn road_stones_on_lines(&self, sq: u8, color: Color) -> (r: i64)
        requires
            self@.wf(),
            valid_square(sq as int, self@.size as int),
        ensures
            0 <= r <= 16,
            r == spec_road_stones_on_lines(self@, sq as int, color),
    {
        proof {
            assert((self@.size as int) * (self@.size as int) <= 64) by (nonlinear_arith)
                requires
                    self@.size <= 8,
            ;
        }
        let s = self.size();
        let rank = crate::square::square_rank(sq, s);
        let file = crate::square::square_file(sq, s);
        let mut total: i64 = 0;
        let mut j: u8 = 0;
        while j < s
            invariant
                j <= s,
                self@.wf(),
                s == self@.size,
                rank < s,
                file < s,
                rank == spec_rank(sq as int, s as int),
                file == spec_file(sq as int, s as int),
                (s as int) * (s as int) <= 64,
                0 <= total <= 2 * j as int,
                total == count_line_road_stones(
                    self@.board,
                    s as int,
                    rank as int,
                    file as int,
                    color,
                    j as int,
                ),
            decreases s - j,
        {
            proof {
                assert((rank as int) * (s as int) + (j as int) < (s as int) * (s as int) && (
                j as int) * (s as int) + (file as int) < (s as int) * (s as int))
                    by (nonlinear_arith)
                    requires
                        rank < s,
                        file < s,
                        j < s,
                        s <= 8,
                ;
            }
            let rank_sq: u8 = rank * s + j;
            let file_sq: u8 = j * s + file;
            let st1 = self.get_stack(rank_sq);
            if st1.len() > 0 {
                let top = st1.get(st1.len() - 1).unwrap();
                if top.color == color && top.role != Role::Wall {
                    total = total + 1;
                }
            }
            let st2 = self.get_stack(file_sq);
            if st2.len() > 0 {
                let top = st2.get(st2.len() - 1).unwrap();
                if top.color == color && top.role != Role::Wall {
                    total = total + 1;
                }
            }
            j = j + 1;
        }
        if total > 16 {
            16
        } else {
            total
        }
    }

    /// Generate the legal moves with their policy priors.
    ///
    /// The priors sum to exactly one and each is at least the even share
    /// of the exploration floor; every returned move is legal, and an
    /// undecided position always yields at least one.
    pub fn generate_moves_with_probabilities(&self, params: &Params) -> (r: Vec<(Move, u32)>)
        requires
            self@.wf(),
            self@.spec_game_result() is None,
            self@.half_moves < HALF_MOVES_MAX,
            params.wf(NUM_POLICY_FEATURES as int),
        ensures
            1 <= r@.len() <= 100_000,
            forall|j: int|
                0 <= j < r@.len() ==> self@.spec_legal_move((#[trigger] r@[j]).0@),
            sum_priors(r@.map_values(|t: (Move, u32)| t.1)) == SCALE,
            forall|j: int|
                0 <= j < r@.len() ==> (#[trigger] r@[j]).1 >= POLICY_BASELINE as int
                    / r@.len() as int,
            forall|j: int|
                1 <= j < r@.len() ==> (#[trigger] r@[j]).1 == spec_prior_share(
                    spec_policy_scores(self@, r@.map_values(|t: (Move, u32)| t.0@), *params),
                    j,
                ),
            r@[0].1 >= spec_prior_share(
                spec_policy_scores(self@, r@.map_values(|t: (Move, u32)| t.0@), *params),
                0,
            ),
    {
        let mut moves: Vec<Move> = Vec::new();
        self.generate_moves(&mut moves);
        proof {
            self@.lemma_undecided_has_moves();
        }
        if moves.len() > 100_000 {
            moves.truncate(100_000);
            proof {
                assert(moves@ =~= moves@);
            }
        }
        let num_moves = moves.len();
        let features = self.features_for_moves(&moves);
        let denom: u32 = if num_moves < 2 {
            2
        } else if num_moves > 4096 {
            4096
        } else {
            num_moves as u32
        };
        proof {
            assert(0 < 1_000_000int / (denom as int) <= 500_000) by (nonlinear_arith)
                requires
                    2 <= denom <= 4096,
            ;
        }
        let offset_p: u32 = SCALE / denom;
        let offset_raw: i64 = inverse_sigmoid(offset_p);
        let offset: i64 = if offset_raw > 600_000_000_000 {
            600_000_000_000
        } else if offset_raw < -600_000_000_000 {
            -600_000_000_000
        } else {
            offset_raw
        };
        let ghost aw = spec_any_win(self@, moves@.map_values(|m: Move| m@));
        proof {
            assert(offset as int == spec_policy_offset(num_moves as int));
        }
        let mut scores: Vec<u32> = Vec::new();
        let mut i: usize = 0;
        while i < num_moves
            invariant
                i <= num_moves,
                num_moves == moves@.len(),
                num_moves == features@.len(),
                params.wf(NUM_POLICY_FEATURES as int),
                forall|j: int|
                    0 <= j < features@.len() ==> (#[trigger] features@[j])@.len()
                        == NUM_POLICY_FEATURES,
                forall|j: int, k: int|
                    0 <= j < features@.len() && 0 <= k < NUM_POLICY_FEATURES ==> -100
                        <= #[trigger] features@[j]@[k] <= 100,
                aw == spec_any_win(self@, moves@.map_values(|m: Move| m@)),
                forall|j: int, k: int|
                    0 <= j < features@.len() && 0 <= k < NUM_POLICY_FEATURES
                        ==> #[trigger] features@[j]@[k] == spec_policy_feature(
                        self@,
                        moves@[j]@,
                        aw,
                        k,
                    ),
                -600_000_000_000 <= offset <= 600_000_000_000,
                offset as int == spec_policy_offset(num_moves as int),
                scores@.len() == i,
                forall|j: int| 0 <= j < i as int ==> 0 < #[trigger] scores@[j] < SCALE,
                forall|j: int|
                    0 <= j < i as int ==> #[trigger] scores@[j] as int == spec_policy_score(
                        self@,
                        moves@[j]@,
                        aw,
                        *params,
                        num_moves as int,
                    ),
            decreases num_moves - i,
        {
            let fs = &features[i];
            let mut dot: i64 = 0;
            let mut k: usize = 0;
            while k < NUM_POLICY_FEATURES
                invariant
                    k <= NUM_POLICY_FEATURES,
                    0 <= (i as int) < moves@.len(),
                    fs@.len() == NUM_POLICY_FEATURES,
                    fs@ == features@[i as int]@,
                    params.wf(NUM_POLICY_FEATURES as int),
                    forall|k2: int| 0 <= k2 < NUM_POLICY_FEATURES ==> -100 <= #[trigger] fs@[k2] <= 100,
                    forall|k2: int|
                        0 <= k2 < NUM_POLICY_FEATURES ==> #[trigger] fs@[k2]
                            == spec_policy_feature(self@, moves@[i as int]@, aw, k2),
                    -(k as i64) * 100_000_000 <= dot <= (k as i64) * 100_000_000,
                    dot as int == spec_policy_dot(self@, moves@[i as int]@, aw, *params, k as int),
                decreases NUM_POLICY_FEATURES - k,
            {
                let f: i64 = fs[k];
                let w: i64 = params.values[k];
                proof {
                    assert(-100_000_000 <= f * w <= 100_000_000) by (nonlinear_arith)
                        requires
                            -100 <= f <= 100,
                            -1_000_000 <= w <= 1_000_000,
                    ;
                    assert(((k + 1) as i64) * 100_000_000 == (k as i64) * 100_000_000
                        + 100_000_000) by (nonlinear_arith)
                        requires
                            k < 12,
                    ;
                }
                dot = dot + f * w;
                k = k + 1;
            }
            let total_value: i64 = dot + offset;
            let clamped: i64 = if total_value > 1_000_000_000_000 {
                1_000_000_000_000
            } else if total_value < -1_000_000_000_000 {
                -1_000_000_000_000
            } else {
                total_value
            };
            let score = sigmoid(clamped);
            proof {
                assert(clamped as int == spec_clamp_cp(dot as int + offset as int));
                assert(score as int == spec_policy_score(
                    self@,
                    moves@[i as int]@,
                    aw,
                    *params,
                    num_moves as int,
                ));
            }
            scores.push(score);
            i = i + 1;
        }
        let priors = normalize_priors(&scores);
        let mut out: Vec<(Move, u32)> = Vec::new();
        let mut i2: usize = 0;
        let ghost orig_moves = moves@;
        let mut moves = moves;
        proof {
            assert(out@.map_values(|t: (Move, u32)| t.1) =~= Seq::<u32>::empty());
            assert(moves@ =~= orig_moves.skip(0));
        }
        while i2 < num_moves
            invariant
                i2 <= num_moves,
                num_moves >= 1,
                num_moves == priors@.len(),
                num_moves == orig_moves.len(),
                num_moves == scores@.len(),
                moves@.len() + i2 == num_moves,
                moves@ =~= orig_moves.skip(i2 as int),
                self@.wf(),
                forall|j: int|
                    0 <= j < moves@.len() ==> self@.spec_legal_move(#[trigger] moves@[j]@),
                out@.len() == i2,
                forall|j: int|
                    0 <= j < out@.len() ==> self@.spec_legal_move((#[trigger] out@[j]).0@),
                forall|j: int| 0 <= j < out@.len() ==> (#[trigger] out@[j]).0@ == orig_moves[j]@,
                out@.map_values(|t: (Move, u32)| t.1) =~= priors@.take(i2 as int),
                forall|j: int| 0 <= j < out@.len() ==> (#[trigger] out@[j]).1 == priors@[j],
                forall|j: int|
                    0 <= j < priors@.len() ==> #[trigger] priors@[j] >= POLICY_BASELINE as int
                        / num_moves as int,
                forall|j: int|
                    1 <= j < priors@.len() ==> #[trigger] priors@[j] == spec_prior_share(
                        scores@,
                        j,
                    ),
                priors@[0] >= spec_prior_share(scores@, 0),
                aw == spec_any_win(self@, orig_moves.map_values(|m: Move| m@)),
                forall|j: int|
                    0 <= j < scores@.len() ==> #[trigger] scores@[j] as int == spec_policy_score(
                        self@,
                        orig_moves[j]@,
                        aw,
                        *params,
                        num_moves as int,
                    ),
            decreases num_moves - i2,
        {
            let mv = moves.remove(0);
            let p = priors[i2];
            proof {
                assert(mv@ == orig_moves[i2 as int]@);
                assert(moves@ =~= orig_moves.skip(i2 + 1));
            }
            out.push((mv, p));
            proof {
                assert(out@.map_values(|t: (Move, u32)| t.1) =~= priors@.take(i2 + 1));
            }
            i2 = i2 + 1;
        }
        proof {
            assert(priors@.take(num_moves as int) =~= priors@);
            let ghost outms = out@.map_values(|t: (Move, u32)| t.0@);
            assert(outms =~= orig_moves.map_values(|m: Move| m@));
            assert(spec_any_win(self@, outms) == aw);
            assert forall|j: int| 0 <= j < num_moves as int implies #[trigger] spec_policy_scores(
                self@,
                outms,
                *params,
            )[j] == scores@[j] by {
                assert(outms[j] == orig_moves[j]@);
                assert(scores@[j] as int == spec_policy_score(
                    self@,
                    orig_moves[j]@,
                    aw,
                    *params,
                    num_moves as int,
                ));
            }
            assert(spec_policy_scores(self@, outms, *params) =~= scores@);
        }
        out
    }
}

} // verus!
