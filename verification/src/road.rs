//! Road detection: does a color own a connected chain of road stones
//! from one board edge to the opposite one?
//!
//! The specification is direct: a road is a path of adjacent squares,
//! each topped by a flat or capstone of the color, whose ends lie on two
//! opposite edges. The checker computes reachability from one edge by
//! saturation and is proved to find a road exactly when one exists.

use crate::piece::{Color, Role};
use crate::position::{PosState, Position};
use crate::square::{
    spec_file, spec_go_direction, spec_rank, valid_size, valid_square, Direction,
};
use vstd::prelude::*;

verus! {

/// Square `b` is one orthogonal step away from square `a`.
pub open spec fn spec_adjacent(a: int, b: int, s: int) -> bool {
    ||| spec_go_direction(a, s, Direction::North) == Option::<int>::Some(b)
    ||| spec_go_direction(a, s, Direction::West) == Option::<int>::Some(b)
    ||| spec_go_direction(a, s, Direction::East) == Option::<int>::Some(b)
    ||| spec_go_direction(a, s, Direction::South) == Option::<int>::Some(b)
}

/// Adjacency is symmetric.
proof fn lemma_adjacent_symmetric(a: int, b: int, s: int)
    requires
        valid_size(s),
        valid_square(a, s),
        spec_adjacent(a, b, s),
    ensures
        spec_adjacent(b, a, s),
{
    if spec_go_direction(a, s, Direction::North) == Option::<int>::Some(b) {
        assert(b == a - s && a / s != 0);
        assert(a / s >= 1 && a >= s && a / s <= s - 1) by (nonlinear_arith)
            requires
                s >= 3,
                0 <= a < s * s,
                a / s != 0,
        ;
        assert((a - s) / s == a / s - 1 && (a - s) % s == a % s) by (nonlinear_arith)
            requires
                s >= 3,
                a >= s,
        ;
        assert(spec_go_direction(b, s, Direction::South) == Option::<int>::Some(a));
    } else if spec_go_direction(a, s, Direction::West) == Option::<int>::Some(b) {
        assert(b == a - 1 && a % s != 0);
        assert((a - 1) % s == a % s - 1 && a % s <= s - 1) by (nonlinear_arith)
            requires
                s >= 3,
                0 <= a < s * s,
                a % s != 0,
        ;
        assert(spec_go_direction(b, s, Direction::East) == Option::<int>::Some(a));
    } else if spec_go_direction(a, s, Direction::East) == Option::<int>::Some(b) {
        assert(b == a + 1 && a % s != s - 1);
        assert((a + 1) % s == a % s + 1) by (nonlinear_arith)
            requires
                s >= 3,
                0 <= a < s * s,
                a % s != s - 1,
        ;
        assert(spec_go_direction(b, s, Direction::West) == Option::<int>::Some(a));
    } else {
        assert(b == a + s && a / s != s - 1);
        let q = a / s;
        let rem = a % s;
        assert(a == q * s + rem && a + s == (q + 1) * s + rem && 0 <= rem < s && 0 <= q)
            by (nonlinear_arith)
            requires
                s >= 3,
                0 <= a,
                q == a / s,
                rem == a % s,
        ;
        assert((a + s) / s == q + 1 && (a + s) % s == rem) by (nonlinear_arith)
            requires
                s >= 3,
                a + s == (q + 1) * s + rem,
                0 <= rem < s,
                0 <= q + 1,
        ;
        assert(spec_go_direction(b, s, Direction::North) == Option::<int>::Some(a));
    }
}

/// The top of `sq` is a road stone (flat or capstone) of `color`.
pub open spec fn spec_road_stone(board: Seq<Seq<Piece8>>, sq: int, color: Color) -> bool {
    board[sq].len() > 0 && board[sq].last().color == color && board[sq].last().role != Role::Wall
}

/// Shorthand for the piece sequences of a board.
pub type Piece8 = crate::piece::Piece;

/// A chain of adjacent road stones of one color.
pub open spec fn spec_road_path(board: Seq<Seq<Piece8>>, s: int, color: Color, p: Seq<int>) -> bool {
    &&& p.len() >= 1
    &&& forall|i: int|
        0 <= i < p.len() ==> valid_square(#[trigger] p[i], s) && spec_road_stone(board, p[i], color)
    &&& forall|i: int| 0 <= i < p.len() - 1 ==> spec_adjacent(#[trigger] p[i], p[i + 1], s)
}

/// The low edge of an axis: rank 0 for north-south, file 0 for west-east.
pub open spec fn spec_edge_start(sq: int, s: int, by_rank: bool) -> bool {
    if by_rank {
        spec_rank(sq, s) == 0
    } else {
        spec_file(sq, s) == 0
    }
}

/// The high edge of an axis: rank `s - 1` or file `s - 1`.
pub open spec fn spec_edge_end(sq: int, s: int, by_rank: bool) -> bool {
    if by_rank {
        spec_rank(sq, s) == s - 1
    } else {
        spec_file(sq, s) == s - 1
    }
}

/// A road path of `color` from the low edge of the axis to `sq`.
pub open spec fn spec_reach(
    board: Seq<Seq<Piece8>>,
    s: int,
    color: Color,
    by_rank: bool,
    sq: int,
) -> bool {
    exists|p: Seq<int>|
        #[trigger] spec_road_path(board, s, color, p) && spec_edge_start(p[0], s, by_rank)
            && p.last() == sq
}

/// A road of `color`: a path of its road stones connecting two opposite
/// edges of the board.
pub open spec fn spec_has_road(board: Seq<Seq<Piece8>>, s: int, color: Color) -> bool {
    ||| exists|q: int|
        valid_square(q, s) && #[trigger] spec_reach(board, s, color, true, q) && spec_edge_end(
            q,
            s,
            true,
        )
    ||| exists|q: int|
        valid_square(q, s) && #[trigger] spec_reach(board, s, color, false, q) && spec_edge_end(
            q,
            s,
            false,
        )
}

/// The number of set flags among the first `n` entries.
pub open spec fn count_trues(flags: Seq<bool>, n: int) -> int
    decreases n,
{
    if n <= 0 {
        0
    } else {
        count_trues(flags, n - 1) + if flags[n - 1] {
            1int
        } else {
            0int
        }
    }
}

proof fn lemma_count_trues_bounds(flags: Seq<bool>, n: int)
    requires
        0 <= n <= flags.len(),
    ensures
        0 <= count_trues(flags, n) <= n,
    decreases n,
{
    if n > 0 {
        lemma_count_trues_bounds(flags, n - 1);
    }
}

proof fn lemma_count_trues_set(flags: Seq<bool>, i: int, n: int)
    requires
        0 <= i < n,
        n <= flags.len(),
        !flags[i],
    ensures
        count_trues(flags.update(i, true), n) == count_trues(flags, n) + 1,
    decreases n,
{
    if i == n - 1 {
        assert forall|j: int| 0 <= j < n - 1 implies flags[j] == flags.update(i, true)[j] by {}
        lemma_count_trues_frame(flags, flags.update(i, true), n - 1);
        assert(flags.update(i, true)[n - 1]);
    } else {
        lemma_count_trues_set(flags, i, n - 1);
        assert(flags.update(i, true)[n - 1] == flags[n - 1]);
    }
}

proof fn lemma_count_trues_frame(a: Seq<bool>, b: Seq<bool>, n: int)
    requires
        forall|i: int| 0 <= i < n ==> a[i] == b[i],
    ensures
        count_trues(a, n) == count_trues(b, n),
    decreases n,
{
    if n > 0 {
        lemma_count_trues_frame(a, b, n - 1);
    }
}

/// A single marked square extends to a marked path claim: every square
/// of a road path that starts marked-from-the-edge stays marked, given
/// the closure property.
proof fn lemma_closed_covers_path(
    board: Seq<Seq<Piece8>>,
    s: int,
    color: Color,
    by_rank: bool,
    marks: Seq<bool>,
    p: Seq<int>,
    i: int,
)
    requires
        valid_size(s),
        marks.len() == s * s,
        spec_road_path(board, s, color, p),
        spec_edge_start(p[0], s, by_rank),
        0 <= i < p.len(),
        // Closure: every road stone on the edge, or next to a marked
        // square, is marked.
        forall|sq: int|
            valid_square(sq, s) && spec_road_stone(board, sq, color) && (spec_edge_start(
                sq,
                s,
                by_rank,
            ) || exists|nb: int|
                valid_square(nb, s) && #[trigger] spec_adjacent(sq, nb, s) && marks[nb])
                ==> #[trigger] marks[sq],
    ensures
        marks[p[i]],
    decreases i,
{
    if i == 0 {
        assert(valid_square(p[0], s) && spec_road_stone(board, p[0], color));
    } else {
        lemma_closed_covers_path(board, s, color, by_rank, marks, p, i - 1);
        assert(spec_adjacent(p[i - 1], p[i], s));
        lemma_adjacent_symmetric(p[i - 1], p[i], s);
        assert(valid_square(p[i - 1], s) && spec_adjacent(p[i], p[i - 1], s) && marks[p[i - 1]]);
    }
}

impl Position {
    /// One saturation pass helper: whether `sq` should be marked, i.e.
    /// it tops a road stone of `color` and either lies on the start edge
    /// or touches a marked square.
    fn should_mark(&self, sq: u8, color: Color, by_rank: bool, marks: &Vec<bool>) -> (r: bool)
        requires
            self@.wf(),
            valid_square(sq as int, self@.size as int),
            marks@.len() == self@.board.len(),
        ensures
            r == (spec_road_stone(self@.board, sq as int, color) && (spec_edge_start(
                sq as int,
                self@.size as int,
                by_rank,
            ) || exists|nb: int|
                valid_square(nb, self@.size as int) && #[trigger] spec_adjacent(
                    sq as int,
                    nb,
                    self@.size as int,
                ) && marks@[nb])),
    {
        proof {
            assert((self@.size as int) * (self@.size as int) <= 64) by (nonlinear_arith)
                requires
                    self@.size <= 8,
            ;
        }
        let stack = self.get_stack(sq);
        let stack_len = stack.len();
        if stack_len == 0 {
            return false;
        }
        let top = stack.get(stack_len - 1).unwrap();
        if top.color != color || top.role == Role::Wall {
            return false;
        }
        let s = self.size();
        let on_edge = if by_rank {
            crate::square::square_rank(sq, s) == 0
        } else {
            crate::square::square_file(sq, s) == 0
        };
        if on_edge {
            return true;
        }
        let hit_n = self.marked_neighbor(sq, Direction::North, marks);
        let hit_w = self.marked_neighbor(sq, Direction::West, marks);
        let hit_e = self.marked_neighbor(sq, Direction::East, marks);
        let hit_s = self.marked_neighbor(sq, Direction::South, marks);
        if hit_n || hit_w || hit_e || hit_s {
            proof {
                let ghost si = self@.size as int;
                let ghost dir = if hit_n {
                    Direction::North
                } else if hit_w {
                    Direction::West
                } else if hit_e {
                    Direction::East
                } else {
                    Direction::South
                };
                crate::square::lemma_go_direction_valid(sq as int, si, dir);
                let ghost nb = spec_go_direction(sq as int, si, dir)->Some_0;
                assert(valid_square(nb, si) && spec_adjacent(sq as int, nb, si) && marks@[nb]);
            }
            return true;
        }
        proof {
            if exists|nb: int|
                valid_square(nb, self@.size as int) && #[trigger] spec_adjacent(
                    sq as int,
                    nb,
                    self@.size as int,
                ) && marks@[nb] {
                let nb = choose|nb: int|
                    valid_square(nb, self@.size as int) && #[trigger] spec_adjacent(
                        sq as int,
                        nb,
                        self@.size as int,
                    ) && marks@[nb];
                let ghost si = self@.size as int;
                if spec_go_direction(sq as int, si, Direction::North) == Option::<int>::Some(nb) {
                    assert(hit_n);
                } else if spec_go_direction(sq as int, si, Direction::West) == Option::<int>::Some(
                    nb,
                ) {
                    assert(hit_w);
                } else if spec_go_direction(sq as int, si, Direction::East) == Option::<int>::Some(
                    nb,
                ) {
                    assert(hit_e);
                } else {
                    assert(hit_s);
                }
                assert(false);
            }
        }
        false
    }

    /// Whether the neighbour of `sq` in `dir` exists and is marked.
    fn marked_neighbor(&self, sq: u8, dir: Direction, marks: &Vec<bool>) -> (r: bool)
        requires
            self@.wf(),
            valid_square(sq as int, self@.size as int),
            marks@.len() == self@.board.len(),
        ensures
            r == (spec_go_direction(sq as int, self@.size as int, dir) is Some && marks@[
            spec_go_direction(sq as int, self@.size as int, dir)->Some_0]),
    {
        proof {
            assert((self@.size as int) * (self@.size as int) <= 64) by (nonlinear_arith)
                requires
                    self@.size <= 8,
            ;
        }
        match crate::square::go_direction(sq, self.size(), dir) {
            Some(nb) => marks[nb as usize],
            None => false,
        }
    }

    /// Whether `color` has a road along one axis: a path of its road
    /// stones from rank 0 to rank `s - 1` (by rank), or from file 0 to
    /// file `s - 1` (by file).
    #[verifier::rlimit(100)]
    fn has_road_axis(&self, color: Color, by_rank: bool) -> (r: bool)
        requires
            self@.wf(),
        ensures
            r == exists|q: int|
                valid_square(q, self@.size as int) && #[trigger] spec_reach(
                    self@.board,
                    self@.size as int,
                    color,
                    by_rank,
                    q,
                ) && spec_edge_end(q, self@.size as int, by_rank),
    {
        proof {
            assert((self@.size as int) * (self@.size as int) <= 64) by (nonlinear_arith)
                requires
                    self@.size <= 8,
            ;
        }
        let ghost s = self@.size as int;
        let n = self.num_squares();
        let mut marks: Vec<bool> = Vec::new();
        let mut q: u8 = 0;
        while q < n
            invariant
                q <= n,
                marks@.len() == q as int,
                forall|j: int| 0 <= j < q as int ==> !(#[trigger] marks@[j]),
            decreases n - q,
        {
            marks.push(false);
            q = q + 1;
        }
        let mut marked_count: usize = 0;
        let mut changed = true;
        proof {
            lemma_count_trues_bounds(marks@, marks@.len() as int);
            assert(count_trues(marks@, marks@.len() as int) == 0) by {
                lemma_count_trues_frame(marks@, Seq::<bool>::new(marks@.len(), |j: int| false), marks@.len() as int);
                lemma_count_zero(Seq::<bool>::new(marks@.len(), |j: int| false), marks@.len() as int);
            }
        }
        while changed
            invariant
                self@.wf(),
                valid_size(s),
                s == self@.size as int,
                n as int == self@.board.len(),
                marks@.len() == n as int,
                marked_count == count_trues(marks@, n as int),
                marked_count <= n,
                // Soundness: every marked square is reachable.
                forall|j: int|
                    0 <= j < n as int && #[trigger] marks@[j] ==> spec_reach(
                        self@.board,
                        s,
                        color,
                        by_rank,
                        j,
                    ),
                // At a fixpoint, the marking is closed.
                !changed ==> forall|sq: int|
                    valid_square(sq, s) && spec_road_stone(self@.board, sq, color) && (
                    spec_edge_start(sq, s, by_rank) || exists|nb: int|
                        valid_square(nb, s) && #[trigger] spec_adjacent(sq, nb, s) && marks@[nb])
                        ==> #[trigger] marks@[sq],
            decreases n - marked_count + (if changed {
                1int
            } else {
                0int
            }),
        {
            changed = false;
            let mut sq: u8 = 0;
            let ghost marks_at_pass_start = marks@;
            let ghost count_at_pass_start = marked_count;
            while sq < n
                invariant
                    sq <= n,
                    self@.wf(),
                    valid_size(s),
                    s == self@.size as int,
                    n as int == self@.board.len(),
                    marks@.len() == n as int,
                    marked_count == count_trues(marks@, n as int),
                    marked_count <= n,
                    forall|j: int|
                        0 <= j < n as int && #[trigger] marks_at_pass_start[j] ==> marks@[j],
                    changed ==> marked_count > count_at_pass_start,
                    count_at_pass_start <= marked_count,
                    forall|j: int|
                        0 <= j < n as int && #[trigger] marks@[j] ==> spec_reach(
                            self@.board,
                            s,
                            color,
                            by_rank,
                            j,
                        ),
                    !changed ==> marks@ == marks_at_pass_start,
                    !changed ==> forall|j: int|
                        0 <= j < sq as int && valid_square(j, s) && spec_road_stone(
                            self@.board,
                            j,
                            color,
                        ) && (spec_edge_start(j, s, by_rank) || exists|nb: int|
                            valid_square(nb, s) && #[trigger] spec_adjacent(j, nb, s)
                                && marks@[nb]) ==> #[trigger] marks@[j],
                decreases n - sq,
            {
                proof {
                    assert((sq as int) < s * s);
                }
                if !marks[sq as usize] {
                    if self.should_mark(sq, color, by_rank, &marks) {
                        proof {
                            lemma_count_trues_set(marks@, sq as int, n as int);
                            // Reachability of the newly marked square.
                            if spec_edge_start(sq as int, s, by_rank) {
                                let ghost p0 = seq![sq as int];
                                assert(spec_road_path(self@.board, s, color, p0));
                                assert(p0.last() == sq as int && p0[0] == sq as int);
                                assert(spec_reach(self@.board, s, color, by_rank, sq as int));
                            } else {
                                let ghost nb = choose|nb: int|
                                    valid_square(nb, s) && #[trigger] spec_adjacent(
                                        sq as int,
                                        nb,
                                        s,
                                    ) && marks@[nb];
                                let ghost p = choose|p: Seq<int>|
                                    #[trigger] spec_road_path(self@.board, s, color, p)
                                        && spec_edge_start(p[0], s, by_rank) && p.last() == nb;
                                let ghost p2 = p.push(sq as int);
                                lemma_adjacent_symmetric(sq as int, nb, s);
                                assert(spec_road_path(self@.board, s, color, p2)) by {
                                    assert forall|i: int| 0 <= i < p2.len() implies valid_square(
                                        #[trigger] p2[i],
                                        s,
                                    ) && spec_road_stone(self@.board, p2[i], color) by {
                                        if i < p.len() {
                                            assert(p2[i] == p[i]);
                                        }
                                    }
                                    assert forall|i: int| 0 <= i < p2.len() - 1 implies
                                        spec_adjacent(#[trigger] p2[i], p2[i + 1], s) by {
                                        if i < p.len() - 1 {
                                            assert(p2[i] == p[i] && p2[i + 1] == p[i + 1]);
                                        } else {
                                            assert(p2[i] == p.last() && p2[i + 1] == sq as int);
                                        }
                                    }
                                }
                                assert(p2[0] == p[0] && p2.last() == sq as int);
                                assert(spec_reach(self@.board, s, color, by_rank, sq as int));
                            }
                        }
                        marks.set(sq as usize, true);
                        marked_count = marked_count + 1;
                        changed = true;
                        proof {
                            lemma_count_trues_bounds(marks@, n as int);
                        }
                    }
                }
                sq = sq + 1;
            }
        }
        // The marking is now exactly reachability; scan the far edge.
        let mut sq: u8 = 0;
        let mut found = false;
        while sq < n
            invariant
                sq <= n,
                self@.wf(),
                valid_size(s),
                s == self@.size as int,
                n as int == self@.board.len(),
                marks@.len() == n as int,
                forall|j: int|
                    0 <= j < n as int && #[trigger] marks@[j] ==> spec_reach(
                        self@.board,
                        s,
                        color,
                        by_rank,
                        j,
                    ),
                forall|j: int|
                    valid_square(j, s) && spec_road_stone(self@.board, j, color) && (
                    spec_edge_start(j, s, by_rank) || exists|nb: int|
                        valid_square(nb, s) && #[trigger] spec_adjacent(j, nb, s) && marks@[nb])
                        ==> #[trigger] marks@[j],
                found ==> exists|q2: int|
                    valid_square(q2, s) && #[trigger] spec_reach(self@.board, s, color, by_rank, q2)
                        && spec_edge_end(q2, s, by_rank),
                !found ==> forall|q2: int|
                    0 <= q2 < sq as int && spec_edge_end(q2, s, by_rank) ==> !(#[trigger] marks@[
                    q2]),
            decreases n - sq,
        {
            proof {
                assert((sq as int) < s * s);
            }
            if marks[sq as usize] {
                let on_end = if by_rank {
                    crate::square::square_rank(sq, self.size()) == self.size() - 1
                } else {
                    crate::square::square_file(sq, self.size()) == self.size() - 1
                };
                if on_end {
                    found = true;
                }
            }
            sq = sq + 1;
        }
        proof {
            if !found {
                // No marked square on the far edge: no road on this axis.
                if exists|q2: int|
                    valid_square(q2, s) && #[trigger] spec_reach(self@.board, s, color, by_rank, q2)
                        && spec_edge_end(q2, s, by_rank) {
                    let q2 = choose|q2: int|
                        valid_square(q2, s) && #[trigger] spec_reach(
                            self@.board,
                            s,
                            color,
                            by_rank,
                            q2,
                        ) && spec_edge_end(q2, s, by_rank);
                    let p = choose|p: Seq<int>|
                        #[trigger] spec_road_path(self@.board, s, color, p) && spec_edge_start(
                            p[0],
                            s,
                            by_rank,
                        ) && p.last() == q2;
                    lemma_closed_covers_path(
                        self@.board,
                        s,
                        color,
                        by_rank,
                        marks@,
                        p,
                        p.len() - 1,
                    );
                }
            }
        }
        found
    }

    /// Whether `color` has completed a road.
    pub fn has_road(&self, color: Color) -> (r: bool)
        requires
            self@.wf(),
        ensures
            r == spec_has_road(self@.board, self@.size as int, color),
    {
        let ns = self.has_road_axis(color, true);
        let we = self.has_road_axis(color, false);
        ns || we
    }
}

/// The number of squares whose top piece is a flat of `color`, among the
/// first `n` squares.
pub open spec fn count_flat_tops(board: Seq<Seq<Piece8>>, color: Color, n: int) -> int
    decreases n,
{
    if n <= 0 {
        0
    } else {
        count_flat_tops(board, color, n - 1) + if board[n - 1].len() > 0 && board[n
            - 1].last().color == color && board[n - 1].last().role == Role::Flat {
            1int
        } else {
            0int
        }
    }
}

impl PosState {
    /// Every square of the board is occupied.
    pub open spec fn spec_board_full(self) -> bool {
        forall|q: int|
            valid_square(q, self.size as int) ==> (#[trigger] self.board[q]).len() > 0
    }

    /// The game result of this position, if it is decided: a road wins
    /// outright (on a double road the player who just moved wins); with
    /// a reserve emptied or the board full, flats and komi decide.
    pub open spec fn spec_game_result(self) -> Option<crate::komi::GameResult> {
        let road_white = spec_has_road(self.board, self.size as int, Color::White);
        let road_black = spec_has_road(self.board, self.size as int, Color::Black);
        if road_white && road_black {
            Option::Some(
                match self.to_move {
                    Color::White => crate::komi::GameResult::BlackWin,
                    Color::Black => crate::komi::GameResult::WhiteWin,
                },
            )
        } else if road_white {
            Option::Some(crate::komi::GameResult::WhiteWin)
        } else if road_black {
            Option::Some(crate::komi::GameResult::BlackWin)
        } else if self.spec_stones_left(Color::White) + self.spec_caps_left(Color::White) == 0
            || self.spec_stones_left(Color::Black) + self.spec_caps_left(Color::Black) == 0
            || self.spec_board_full() {
            Option::Some(
                self.komi.spec_flatcount_result(
                    count_flat_tops(self.board, Color::White, self.num_squares()),
                    count_flat_tops(self.board, Color::Black, self.num_squares()),
                ),
            )
        } else {
            Option::None
        }
    }

    /// An undecided position still offers a move: there is an empty
    /// square, and the placing player has a piece for it.
    pub proof fn lemma_undecided_has_moves(self)
        requires
            self.wf(),
            self.spec_game_result() is None,
        ensures
            exists|q: int|
                valid_square(q, self.size as int) && (#[trigger] self.board[q]).len() == 0,
            self.half_moves < 2 ==> self.spec_stones_left(self.placing_color()) > 0,
            self.half_moves >= 2 ==> self.spec_stones_left(self.placing_color())
                + self.spec_caps_left(self.placing_color()) > 0,
    {
        assert(!self.spec_board_full());
        let q = choose|q: int|
            valid_square(q, self.size as int) && !((#[trigger] self.board[q]).len() > 0);
        assert(valid_square(q, self.size as int) && self.board[q].len() == 0);
    }
}

/// Flat-top counts never exceed the number of squares considered.
pub proof fn lemma_count_flat_tops_bound(board: Seq<Seq<Piece8>>, color: Color, n: int)
    requires
        n >= 0,
    ensures
        count_flat_tops(board, color, n) <= n,
        count_flat_tops(board, color, n) >= 0,
    decreases n,
{
    if n > 0 {
        lemma_count_flat_tops_bound(board, color, n - 1);
    }
}

impl Position {
    /// The number of flat-topped squares of `color`.
    pub fn count_flats_pub(&self, color: Color) -> (r: u8)
        requires
            self@.wf(),
        ensures
            r as int == count_flat_tops(self@.board, color, self@.num_squares()),
            r <= 64,
    {
        proof {
            assert((self@.size as int) * (self@.size as int) <= 64) by (nonlinear_arith)
                requires
                    self@.size <= 8,
            ;
        }
        let n = self.num_squares();
        let mut total: u8 = 0;
        let mut q: u8 = 0;
        while q < n
            invariant
                q <= n,
                n <= 64,
                self@.wf(),
                n as int == self@.num_squares(),
                n as int == self@.board.len(),
                total as int == count_flat_tops(self@.board, color, q as int),
                total <= q,
            decreases n - q,
        {
            let stack = self.get_stack(q);
            let stack_len = stack.len();
            if stack_len > 0 {
                let top = stack.get(stack_len - 1).unwrap();
                if top.color == color && top.role == Role::Flat {
                    total = total + 1;
                }
            }
            q = q + 1;
        }
        total
    }

    /// Whether every square is occupied.
    fn board_full(&self) -> (r: bool)
        requires
            self@.wf(),
        ensures
            r == self@.spec_board_full(),
    {
        proof {
            assert((self@.size as int) * (self@.size as int) <= 64) by (nonlinear_arith)
                requires
                    self@.size <= 8,
            ;
        }
        let n = self.num_squares();
        let mut q: u8 = 0;
        while q < n
            invariant
                q <= n,
                self@.wf(),
                n as int == self@.num_squares(),
                n as int == self@.board.len(),
                forall|j: int| 0 <= j < q as int ==> (#[trigger] self@.board[j]).len() > 0,
            decreases n - q,
        {
            if self.get_stack(q).len() == 0 {
                return false;
            }
            q = q + 1;
        }
        true
    }

    /// The game result of the current position, or `None` while the game
    /// goes on. This is exactly [`PosState::spec_game_result`].
    pub fn game_result(&self) -> (r: Option<crate::komi::GameResult>)
        requires
            self@.wf(),
        ensures
            r == self@.spec_game_result(),
    {
        let road_white = self.has_road(Color::White);
        let road_black = self.has_road(Color::Black);
        if road_white && road_black {
            Some(
                match self.side_to_move() {
                    Color::White => crate::komi::GameResult::BlackWin,
                    Color::Black => crate::komi::GameResult::WhiteWin,
                },
            )
        } else if road_white {
            Some(crate::komi::GameResult::WhiteWin)
        } else if road_black {
            Some(crate::komi::GameResult::BlackWin)
        } else {
            let white_out = self.stones_left(Color::White) == 0 && self.caps_left(Color::White)
                == 0;
            let black_out = self.stones_left(Color::Black) == 0 && self.caps_left(Color::Black)
                == 0;
            if white_out || black_out || self.board_full() {
                let wf_count = self.count_flats_pub(Color::White);
                let bf_count = self.count_flats_pub(Color::Black);
                Some(self.komi().game_result_with_flatcounts(wf_count as i8, bf_count as i8))
            } else {
                None
            }
        }
    }
}

proof fn lemma_count_zero(flags: Seq<bool>, n: int)
    requires
        forall|j: int| 0 <= j < n ==> !(#[trigger] flags[j]),
    ensures
        count_trues(flags, n) == 0,
    decreases n,
{
    if n > 0 {
        lemma_count_zero(flags, n - 1);
    }
}

use crate::piece::Piece;

} // verus!
