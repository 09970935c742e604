//! Move legality, the functional specification of make/unmake, and the
//! laws that tie them together: a legal move keeps the position
//! well-formed, and reversing a move restores the position exactly.

use crate::komi::Komi;
use crate::moves::{MoveView, ReverseMoveView, StackMovementView};
use crate::piece::{Color, Piece, Role};
use crate::position::{
    count_board, count_pieces, lemma_count_board_update, lemma_count_pieces_bounds,
    lemma_count_pieces_concat, lemma_count_pieces_update_same_class, piece_matches, shape_ok,
    spec_zobrist, PosState, HALF_MOVES_MAX,
};
use crate::square::{
    spec_go_direction, spec_jump_direction, valid_size, valid_square, Direction,
};
use vstd::prelude::*;

verus! {

/// The sum of a drop pattern.
pub open spec fn sum_drops(drops: Seq<u8>) -> int
    decreases drops.len(),
{
    if drops.len() == 0 {
        0
    } else {
        sum_drops(drops.drop_first()) + drops[0]
    }
}

/// Whether a spread's drop pattern is legal from `sq` onward: every step
/// stays on the board, every visited square accepts the dropped pieces
/// (no capstone below, a wall only flattened by a lone capstone as the
/// final drop), and the hand is used up exactly.
pub open spec fn spec_drops_ok(
    board: Seq<Seq<Piece>>,
    s: u8,
    sq: int,
    dir: Direction,
    hand_len: int,
    cap_on_top: bool,
    drops: Seq<u8>,
) -> bool
    decreases drops.len(),
{
    if drops.len() == 0 {
        hand_len == 0
    } else {
        &&& spec_go_direction(sq, s as int, dir) is Some
        &&& {
            let next = spec_go_direction(sq, s as int, dir)->Some_0;
            let target = board[next];
            &&& 1 <= drops[0] <= hand_len
            &&& (target.len() == 0 || target.last().role == Role::Flat || (target.last().role
                == Role::Wall && drops.len() == 1 && hand_len == 1 && cap_on_top))
            &&& spec_drops_ok(
                board,
                s,
                next,
                dir,
                hand_len - drops[0],
                cap_on_top,
                drops.drop_first(),
            )
        }
    }
}

impl PosState {
    /// The color whose piece a placement puts down: during the two
    /// opening plies each player places a piece of the opponent's color.
    pub open spec fn placing_color(self) -> Color {
        if self.half_moves < 2 {
            self.to_move.spec_other()
        } else {
            self.to_move
        }
    }

    /// Whether a move is legal in this position.
    pub open spec fn spec_legal_move(self, m: MoveView) -> bool {
        match m {
            MoveView::Place(role, sq) => {
                &&& valid_square(sq as int, self.size as int)
                &&& self.board[sq as int].len() == 0
                &&& (self.half_moves < 2 ==> role == Role::Flat)
                &&& (match role {
                    Role::Flat | Role::Wall => self.spec_stones_left(self.placing_color()) > 0,
                    Role::Cap => self.spec_caps_left(self.placing_color()) > 0,
                })
            },
            MoveView::Spread(sq, dir, sm) => {
                &&& self.half_moves >= 2
                &&& valid_square(sq as int, self.size as int)
                &&& self.board[sq as int].len() > 0
                &&& self.board[sq as int].last().color == self.to_move
                &&& 1 <= sm.pieces_to_take <= self.size
                &&& sm.pieces_to_take <= self.board[sq as int].len()
                &&& sm.drops.len() >= 1
                &&& sum_drops(sm.drops) == sm.pieces_to_take
                &&& spec_drops_ok(
                    self.board,
                    self.size,
                    sq as int,
                    dir,
                    sm.pieces_to_take as int,
                    self.board[sq as int].last().role == Role::Cap,
                    sm.drops,
                )
            },
        }
    }
}

/// Whether the final drop of a spread flattens a wall: the hand is down
/// to a lone capstone and the next square is topped by a wall.
pub open spec fn spec_flatten_here(target: Seq<Piece>, hand: Seq<Piece>, drops: Seq<u8>) -> bool {
    drops.len() == 1 && hand.len() == 1 && hand[0].role == Role::Cap && target.len() > 0
        && target.last().role == Role::Wall
}

/// A stack with its top turned into the given role, keeping the color.
pub open spec fn retop(stack: Seq<Piece>, role: Role) -> Seq<Piece> {
    stack.update(stack.len() - 1, Piece { color: stack.last().color, role })
}

/// The board after dropping `drops` pieces of `hand` square by square in
/// direction `dir`, starting one step after `sq`. The final drop may
/// flatten a wall.
pub open spec fn spec_do_drops(
    board: Seq<Seq<Piece>>,
    s: u8,
    sq: int,
    dir: Direction,
    hand: Seq<Piece>,
    drops: Seq<u8>,
) -> Seq<Seq<Piece>>
    decreases drops.len(),
{
    if drops.len() == 0 {
        board
    } else {
        let next = spec_go_direction(sq, s as int, dir)->Some_0;
        let d = drops[0] as int;
        let target = board[next];
        let target2 = if spec_flatten_here(target, hand, drops) {
            retop(target, Role::Flat)
        } else {
            target
        };
        spec_do_drops(
            board.update(next, target2 + hand.take(d)),
            s,
            next,
            dir,
            hand.skip(d),
            drops.drop_first(),
        )
    }
}

/// Whether a spread from `sq` flattens a wall on its final square.
pub open spec fn spec_spread_flattens(
    board: Seq<Seq<Piece>>,
    s: u8,
    sq: int,
    dir: Direction,
    hand: Seq<Piece>,
    drops: Seq<u8>,
) -> bool
    decreases drops.len(),
{
    if drops.len() == 0 {
        false
    } else {
        let next = spec_go_direction(sq, s as int, dir)->Some_0;
        let d = drops[0] as int;
        let target = board[next];
        if drops.len() == 1 {
            spec_flatten_here(target, hand, drops)
        } else {
            spec_spread_flattens(
                board.update(next, target + hand.take(d)),
                s,
                next,
                dir,
                hand.skip(d),
                drops.drop_first(),
            )
        }
    }
}

impl PosState {
    /// The position after a legal move: the new board, reserves, side to
    /// move, ply counter, history and hash.
    pub open spec fn spec_do_move(self, m: MoveView) -> PosState {
        match m {
            MoveView::Place(role, sq) => {
                let color = self.placing_color();
                let piece = Piece { color, role };
                let board = self.board.update(sq as int, self.board[sq as int].push(piece));
                let next = PosState {
                    board,
                    to_move: self.to_move.spec_other(),
                    white_stones_left: if color == Color::White && role != Role::Cap {
                        (self.white_stones_left - 1) as u8
                    } else {
                        self.white_stones_left
                    },
                    white_caps_left: if color == Color::White && role == Role::Cap {
                        (self.white_caps_left - 1) as u8
                    } else {
                        self.white_caps_left
                    },
                    black_stones_left: if color == Color::Black && role != Role::Cap {
                        (self.black_stones_left - 1) as u8
                    } else {
                        self.black_stones_left
                    },
                    black_caps_left: if color == Color::Black && role == Role::Cap {
                        (self.black_caps_left - 1) as u8
                    } else {
                        self.black_caps_left
                    },
                    half_moves: (self.half_moves + 1) as u32,
                    history: self.history.push(m),
                    ..self
                };
                PosState { hash: spec_zobrist(next.board, next.to_move), ..next }
            },
            MoveView::Spread(sq, dir, sm) => {
                let origin = self.board[sq as int];
                let base = origin.take(origin.len() - sm.pieces_to_take);
                let hand = origin.skip(origin.len() - sm.pieces_to_take);
                let board0 = self.board.update(sq as int, base);
                let board = spec_do_drops(board0, self.size, sq as int, dir, hand, sm.drops);
                let next = PosState {
                    board,
                    to_move: self.to_move.spec_other(),
                    half_moves: (self.half_moves + 1) as u32,
                    history: self.history.push(m),
                    ..self
                };
                PosState { hash: spec_zobrist(next.board, next.to_move), ..next }
            },
        }
    }

    /// The undo token for a legal move in this position.
    pub open spec fn spec_rev_token(self, m: MoveView) -> ReverseMoveView {
        match m {
            MoveView::Place(_, sq) => ReverseMoveView::Place(sq),
            MoveView::Spread(sq, dir, sm) => {
                let origin = self.board[sq as int];
                let hand = origin.skip(origin.len() - sm.pieces_to_take);
                let board0 = self.board.update(
                    sq as int,
                    origin.take(origin.len() - sm.pieces_to_take),
                );
                ReverseMoveView::Spread(
                    sq,
                    dir,
                    sm,
                    spec_spread_flattens(board0, self.size, sq as int, dir, hand, sm.drops),
                )
            },
        }
    }
}

/// Whether the undo of a drop pattern is meaningful on this board: the
/// path stays on the board and every visited square still holds the
/// pieces to pick back up (one more where a flattened wall must be
/// restored below them).
pub open spec fn spec_undo_drops_ok(
    board: Seq<Seq<Piece>>,
    s: u8,
    sq: int,
    dir: Direction,
    drops: Seq<u8>,
    flattened: bool,
) -> bool
    decreases drops.len(),
{
    if drops.len() == 0 {
        true
    } else {
        &&& spec_go_direction(sq, s as int, dir) is Some
        &&& {
            let next = spec_go_direction(sq, s as int, dir)->Some_0;
            let d = drops[0] as int;
            let target = board[next];
            &&& 1 <= d
            &&& target.len() >= d + if drops.len() == 1 && flattened {
                1int
            } else {
                0int
            }
            &&& spec_undo_drops_ok(board, s, next, dir, drops.drop_first(), flattened)
        }
    }
}

/// The board after picking the dropped pieces back up, and the hand they
/// form, bottom to top.
pub open spec fn spec_undo_drops(
    board: Seq<Seq<Piece>>,
    s: u8,
    sq: int,
    dir: Direction,
    drops: Seq<u8>,
    flattened: bool,
) -> (Seq<Seq<Piece>>, Seq<Piece>)
    decreases drops.len(),
{
    if drops.len() == 0 {
        (board, Seq::<Piece>::empty())
    } else {
        let next = spec_go_direction(sq, s as int, dir)->Some_0;
        let d = drops[0] as int;
        let target = board[next];
        let chunk = target.skip(target.len() - d);
        let st1 = target.take(target.len() - d);
        let st2 = if drops.len() == 1 && flattened {
            retop(st1, Role::Wall)
        } else {
            st1
        };
        let rest = spec_undo_drops(board, s, next, dir, drops.drop_first(), flattened);
        (rest.0.update(next, st2), chunk + rest.1)
    }
}

impl PosState {
    /// Whether an undo token can be applied to this position without
    /// running out of pieces, board or history.
    pub open spec fn spec_undoable(self, r: ReverseMoveView) -> bool {
        &&& self.half_moves >= 1
        &&& self.history.len() >= 1
        &&& (match r {
            ReverseMoveView::Place(sq) => {
                &&& valid_square(sq as int, self.size as int)
                &&& self.board[sq as int].len() >= 1
            },
            ReverseMoveView::Spread(sq, dir, sm, flattened) => {
                &&& valid_square(sq as int, self.size as int)
                &&& sm.drops.len() >= 1
                &&& 1 <= sum_drops(sm.drops) <= self.size
                &&& spec_undo_drops_ok(self.board, self.size, sq as int, dir, sm.drops, flattened)
            },
        })
    }

    /// The position after applying an undo token.
    pub open spec fn spec_undo(self, r: ReverseMoveView) -> PosState {
        match r {
            ReverseMoveView::Place(sq) => {
                let piece = self.board[sq as int].last();
                let board = self.board.update(sq as int, self.board[sq as int].drop_last());
                let next = PosState {
                    board,
                    to_move: self.to_move.spec_other(),
                    white_stones_left: if piece.color == Color::White && piece.role != Role::Cap {
                        (self.white_stones_left + 1) as u8
                    } else {
                        self.white_stones_left
                    },
                    white_caps_left: if piece.color == Color::White && piece.role == Role::Cap {
                        (self.white_caps_left + 1) as u8
                    } else {
                        self.white_caps_left
                    },
                    black_stones_left: if piece.color == Color::Black && piece.role != Role::Cap {
                        (self.black_stones_left + 1) as u8
                    } else {
                        self.black_stones_left
                    },
                    black_caps_left: if piece.color == Color::Black && piece.role == Role::Cap {
                        (self.black_caps_left + 1) as u8
                    } else {
                        self.black_caps_left
                    },
                    half_moves: (self.half_moves - 1) as u32,
                    history: self.history.drop_last(),
                    ..self
                };
                PosState { hash: spec_zobrist(next.board, next.to_move), ..next }
            },
            ReverseMoveView::Spread(sq, dir, sm, flattened) => {
                let undone = spec_undo_drops(
                    self.board,
                    self.size,
                    sq as int,
                    dir,
                    sm.drops,
                    flattened,
                );
                let board = undone.0.update(sq as int, undone.0[sq as int] + undone.1);
                let next = PosState {
                    board,
                    to_move: self.to_move.spec_other(),
                    half_moves: (self.half_moves - 1) as u32,
                    history: self.history.drop_last(),
                    ..self
                };
                PosState { hash: spec_zobrist(next.board, next.to_move), ..next }
            },
        }
    }
}


/// Every step of a path of length `n` starting at `sq` stays on the board.
pub open spec fn spec_path_ok(s: u8, sq: int, dir: Direction, n: int) -> bool {
    forall|k: nat| 1 <= k <= n ==> (#[trigger] spec_jump_direction(sq, s as int, dir, k)) is Some
}

/// Whether `q` is one of the `n` squares a path from `sq` visits.
pub open spec fn spec_on_path(s: u8, sq: int, dir: Direction, n: int, q: int) -> bool {
    exists|k: nat|
        1 <= k <= n && #[trigger] spec_jump_direction(sq, s as int, dir, k)
            == Option::<int>::Some(q)
}

/// A jump of `k >= 1` steps moves strictly up the board for east and
/// south, strictly down for north and west.
pub proof fn lemma_jump_strict(sq: int, s: int, dir: Direction, k: nat)
    requires
        valid_size(s),
        valid_square(sq, s),
        k >= 1,
        spec_jump_direction(sq, s, dir, k) is Some,
    ensures
        valid_square(spec_jump_direction(sq, s, dir, k)->Some_0, s),
        match dir {
            Direction::East | Direction::South => spec_jump_direction(sq, s, dir, k)->Some_0 > sq,
            Direction::North | Direction::West => spec_jump_direction(sq, s, dir, k)->Some_0 < sq,
        },
    decreases k,
{
    crate::square::lemma_go_direction_valid(sq, s, dir);
    let next = spec_go_direction(sq, s, dir)->Some_0;
    if k == 1 {
    } else {
        lemma_jump_strict(next, s, dir, (k - 1) as nat);
    }
}

/// One step shifts the path: what lies `k + 1` steps from `sq` lies `k`
/// steps from its neighbour.
pub proof fn lemma_path_shift(s: u8, sq: int, dir: Direction, n: int)
    requires
        spec_go_direction(sq, s as int, dir) is Some,
        spec_path_ok(s, sq, dir, n),
        n >= 1,
    ensures
        spec_path_ok(s, spec_go_direction(sq, s as int, dir)->Some_0, dir, n - 1),
        forall|q: int|
            spec_on_path(s, spec_go_direction(sq, s as int, dir)->Some_0, dir, n - 1, q)
                ==> spec_on_path(s, sq, dir, n, q),
{
    let next = spec_go_direction(sq, s as int, dir)->Some_0;
    assert forall|k: nat| 1 <= k <= n - 1 implies (#[trigger] spec_jump_direction(
        next,
        s as int,
        dir,
        k,
    )) is Some by {
        assert(spec_jump_direction(sq, s as int, dir, (k + 1) as nat) is Some);
        assert(spec_jump_direction(sq, s as int, dir, (k + 1) as nat) == spec_jump_direction(
            next,
            s as int,
            dir,
            k,
        ));
    }
    assert forall|q: int| spec_on_path(s, next, dir, n - 1, q) implies spec_on_path(
        s,
        sq,
        dir,
        n,
        q,
    ) by {
        let k = choose|k: nat|
            1 <= k <= n - 1 && #[trigger] spec_jump_direction(next, s as int, dir, k)
                == Option::<int>::Some(q);
        assert(spec_jump_direction(sq, s as int, dir, (k + 1) as nat) == spec_jump_direction(
            next,
            s as int,
            dir,
            k,
        ));
        assert(1 <= k + 1 <= n && spec_jump_direction(sq, s as int, dir, (k + 1) as nat)
            == Option::<int>::Some(q));
    }
}

/// A square never lies on its own outgoing path.
pub proof fn lemma_not_on_own_path(s: u8, sq: int, dir: Direction, n: int)
    requires
        valid_size(s as int),
        valid_square(sq, s as int),
    ensures
        !spec_on_path(s, sq, dir, n, sq),
{
    if spec_on_path(s, sq, dir, n, sq) {
        let k = choose|k: nat|
            1 <= k <= n && #[trigger] spec_jump_direction(sq, s as int, dir, k)
                == Option::<int>::Some(sq);
        lemma_jump_strict(sq, s as int, dir, k);
    }
}

/// A legal drop pattern keeps the whole path on the board.
pub proof fn lemma_drops_ok_path(
    board: Seq<Seq<Piece>>,
    s: u8,
    sq: int,
    dir: Direction,
    hand_len: int,
    cap_top: bool,
    drops: Seq<u8>,
)
    requires
        valid_size(s as int),
        valid_square(sq, s as int),
        spec_drops_ok(board, s, sq, dir, hand_len, cap_top, drops),
    ensures
        spec_path_ok(s, sq, dir, drops.len() as int),
    decreases drops.len(),
{
    if drops.len() > 0 {
        let next = spec_go_direction(sq, s as int, dir)->Some_0;
        crate::square::lemma_go_direction_valid(sq, s as int, dir);
        lemma_drops_ok_path(board, s, next, dir, hand_len - drops[0], cap_top, drops.drop_first());
        assert forall|k: nat| 1 <= k <= drops.len() implies (#[trigger] spec_jump_direction(
            sq,
            s as int,
            dir,
            k,
        )) is Some by {
            if k == 1 {
                assert(spec_jump_direction(next, s as int, dir, 0nat) is Some);
                assert(spec_jump_direction(sq, s as int, dir, 1nat) is Some);
            } else {
                assert(spec_jump_direction(next, s as int, dir, (k - 1) as nat) is Some);
                assert(spec_jump_direction(sq, s as int, dir, k) == spec_jump_direction(
                    next,
                    s as int,
                    dir,
                    (k - 1) as nat,
                ));
            }
        }
    }
}

/// The legality of a drop pattern depends only on the squares of its path.
pub proof fn lemma_drops_ok_frame(
    a: Seq<Seq<Piece>>,
    b: Seq<Seq<Piece>>,
    s: u8,
    sq: int,
    dir: Direction,
    hand_len: int,
    cap_top: bool,
    drops: Seq<u8>,
)
    requires
        valid_size(s as int),
        valid_square(sq, s as int),
        spec_drops_ok(a, s, sq, dir, hand_len, cap_top, drops),
        forall|q: int| spec_on_path(s, sq, dir, drops.len() as int, q) ==> a[q] == b[q],
    ensures
        spec_drops_ok(b, s, sq, dir, hand_len, cap_top, drops),
    decreases drops.len(),
{
    if drops.len() > 0 {
        let next = spec_go_direction(sq, s as int, dir)->Some_0;
        crate::square::lemma_go_direction_valid(sq, s as int, dir);
        lemma_drops_ok_path(a, s, sq, dir, hand_len, cap_top, drops);
        lemma_path_shift(s, sq, dir, drops.len() as int);
        assert(spec_jump_direction(next, s as int, dir, 0nat) == Option::<int>::Some(next));
        assert(spec_jump_direction(sq, s as int, dir, 1nat) == Option::<int>::Some(next));
        assert(spec_on_path(s, sq, dir, drops.len() as int, next));
        lemma_drops_ok_frame(a, b, s, next, dir, hand_len - drops[0], cap_top, drops.drop_first());
    }
}

/// Dropping pieces does not change the board's size, nor any square off
/// the path.
pub proof fn lemma_do_drops_frame(
    board: Seq<Seq<Piece>>,
    s: u8,
    sq: int,
    dir: Direction,
    hand: Seq<Piece>,
    drops: Seq<u8>,
)
    requires
        valid_size(s as int),
        valid_square(sq, s as int),
        board.len() == (s as int) * (s as int),
        spec_path_ok(s, sq, dir, drops.len() as int),
    ensures
        spec_do_drops(board, s, sq, dir, hand, drops).len() == board.len(),
        forall|q: int|
            0 <= q < board.len() && !spec_on_path(s, sq, dir, drops.len() as int, q)
                ==> spec_do_drops(board, s, sq, dir, hand, drops)[q] == board[q],
    decreases drops.len(),
{
    if drops.len() > 0 {
        assert(spec_jump_direction(sq, s as int, dir, 1nat) is Some);
        let next = spec_go_direction(sq, s as int, dir)->Some_0;
        crate::square::lemma_go_direction_valid(sq, s as int, dir);
        assert(spec_jump_direction(next, s as int, dir, 0nat) == Option::<int>::Some(next));
        assert(spec_jump_direction(sq, s as int, dir, 1nat) == Option::<int>::Some(next));
        lemma_path_shift(s, sq, dir, drops.len() as int);
        let d = drops[0] as int;
        let target = board[next];
        let target2 = if spec_flatten_here(target, hand, drops) {
            retop(target, Role::Flat)
        } else {
            target
        };
        let board_a = board.update(next, target2 + hand.take(d));
        lemma_do_drops_frame(board_a, s, next, dir, hand.skip(d), drops.drop_first());
        assert forall|q: int|
            0 <= q < board.len() && !spec_on_path(s, sq, dir, drops.len() as int, q)
                implies spec_do_drops(board, s, sq, dir, hand, drops)[q] == board[q] by {
            assert(spec_on_path(s, sq, dir, drops.len() as int, next));
            assert(!spec_on_path(s, next, dir, drops.len() - 1, q));
            assert(q != next);
            assert(spec_do_drops(board, s, sq, dir, hand, drops) == spec_do_drops(
                board_a,
                s,
                next,
                dir,
                hand.skip(d),
                drops.drop_first(),
            ));
            assert(spec_do_drops(board_a, s, next, dir, hand.skip(d), drops.drop_first())[q]
                == board_a[q]);
        }
    }
}

/// Undoing a spread restores the board and the hand exactly, and the
/// undo itself is meaningful on the board the spread produced.
pub proof fn lemma_drops_roundtrip(
    board: Seq<Seq<Piece>>,
    s: u8,
    sq: int,
    dir: Direction,
    hand: Seq<Piece>,
    drops: Seq<u8>,
    cap_top: bool,
)
    requires
        valid_size(s as int),
        valid_square(sq, s as int),
        board.len() == (s as int) * (s as int),
        spec_drops_ok(board, s, sq, dir, hand.len() as int, cap_top, drops),
    ensures
        spec_undo_drops_ok(
            spec_do_drops(board, s, sq, dir, hand, drops),
            s,
            sq,
            dir,
            drops,
            spec_spread_flattens(board, s, sq, dir, hand, drops),
        ),
        spec_undo_drops(
            spec_do_drops(board, s, sq, dir, hand, drops),
            s,
            sq,
            dir,
            drops,
            spec_spread_flattens(board, s, sq, dir, hand, drops),
        ).0 == board,
        spec_undo_drops(
            spec_do_drops(board, s, sq, dir, hand, drops),
            s,
            sq,
            dir,
            drops,
            spec_spread_flattens(board, s, sq, dir, hand, drops),
        ).1 == hand,
    decreases drops.len(),
{
    let done = spec_do_drops(board, s, sq, dir, hand, drops);
    let fl = spec_spread_flattens(board, s, sq, dir, hand, drops);
    if drops.len() == 0 {
        assert(spec_undo_drops(done, s, sq, dir, drops, fl).1 =~= hand);
    } else {
        let next = spec_go_direction(sq, s as int, dir)->Some_0;
        crate::square::lemma_go_direction_valid(sq, s as int, dir);
        lemma_drops_ok_path(board, s, sq, dir, hand.len() as int, cap_top, drops);
        lemma_path_shift(s, sq, dir, drops.len() as int);
        assert(spec_jump_direction(next, s as int, dir, 0nat) == Option::<int>::Some(next));
        assert(spec_jump_direction(sq, s as int, dir, 1nat) == Option::<int>::Some(next));
        let d = drops[0] as int;
        let target = board[next];
        let here = spec_flatten_here(target, hand, drops);
        let target2 = if here {
            retop(target, Role::Flat)
        } else {
            target
        };
        let board_a = board.update(next, target2 + hand.take(d));
        assert(spec_drops_ok(board, s, next, dir, hand.len() - d, cap_top, drops.drop_first()));
        // The recursive spread sees the same flattening decision.
        if drops.len() > 1 {
            assert(!here);
            assert(fl == spec_spread_flattens(
                board_a,
                s,
                next,
                dir,
                hand.skip(d),
                drops.drop_first(),
            ));
        } else {
            assert(fl == here);
            assert(drops.drop_first().len() == 0);
            assert(hand.len() - d == 0);
        }
        // Legality of the rest carries over to the updated board.
        lemma_not_on_own_path(s, next, dir, drops.len() - 1);
        assert forall|q: int|
            spec_on_path(s, next, dir, drops.len() - 1, q) implies board[q] == board_a[q] by {
            let k = choose|k: nat|
                1 <= k <= drops.len() - 1 && #[trigger] spec_jump_direction(
                    next,
                    s as int,
                    dir,
                    k,
                ) == Option::<int>::Some(q);
            lemma_jump_strict(next, s as int, dir, k);
        }
        lemma_drops_ok_frame(
            board,
            board_a,
            s,
            next,
            dir,
            hand.len() - d,
            cap_top,
            drops.drop_first(),
        );
        assert(hand.skip(d).len() == hand.len() - d);
        lemma_drops_roundtrip(board_a, s, next, dir, hand.skip(d), drops.drop_first(), cap_top);
        // The rest of the spread does not touch `next`.
        lemma_drops_ok_path(
            board_a,
            s,
            next,
            dir,
            hand.skip(d).len() as int,
            cap_top,
            drops.drop_first(),
        );
        lemma_do_drops_frame(board_a, s, next, dir, hand.skip(d), drops.drop_first());
        assert(done == spec_do_drops(board_a, s, next, dir, hand.skip(d), drops.drop_first()));
        assert(0 <= next < board_a.len());
        assert(done[next] == board_a[next]);
        assert(done[next] =~= target2 + hand.take(d));
        // Unfold the undo at the head square.
        assert(hand.take(d).len() == d);
        assert(target2.len() == target.len());
        assert(done[next].len() == target.len() + d);
        let chunk = done[next].skip(done[next].len() - d);
        let st1 = done[next].take(done[next].len() - d);
        assert(chunk =~= hand.take(d));
        assert(st1 =~= target2);
        let st2 = if drops.len() == 1 && fl {
            retop(st1, Role::Wall)
        } else {
            st1
        };
        assert(st2 =~= target) by {
            if drops.len() == 1 && fl {
                assert(target.len() > 0 && target.last().role == Role::Wall);
                assert(target2 =~= retop(target, Role::Flat));
                assert(retop(st1, Role::Wall).len() == target.len());
                assert forall|i: int| 0 <= i < target.len() implies retop(st1, Role::Wall)[i]
                    == target[i] by {
                    assert(st1 =~= target2);
                }
            } else {
                assert(!here);
            }
        }
        let fl2 = if drops.len() == 1 {
            fl
        } else {
            spec_spread_flattens(board_a, s, next, dir, hand.skip(d), drops.drop_first())
        };
        assert(fl == fl2);
        let rest = spec_undo_drops(done, s, next, dir, drops.drop_first(), fl);
        assert(rest.0 == board_a && rest.1 == hand.skip(d));
        assert(spec_undo_drops(done, s, sq, dir, drops, fl).0 == rest.0.update(next, st2));
        assert(spec_undo_drops(done, s, sq, dir, drops, fl).1 == chunk + rest.1);
        assert(rest.0.update(next, st2) =~~= board) by {
            assert(board_a.update(next, st2) =~~= board.update(next, st2));
            assert(board.update(next, st2) =~~= board);
        }
        assert(chunk + rest.1 =~= hand);
        // Meaningfulness of the undo on the produced board.
        if drops.len() == 1 && fl {
            assert(done[next].len() >= d + 1);
        }
        if drops.len() == 1 {
            assert(spec_undo_drops_ok(done, s, next, dir, drops.drop_first(), fl));
        } else {
            assert(spec_undo_drops_ok(done, s, next, dir, drops.drop_first(), fl));
        }
        assert(spec_undo_drops_ok(done, s, sq, dir, drops, fl));
    }
}

/// Spreading moves pieces around but never creates or destroys any:
/// the board gains exactly the hand, class by class.
proof fn lemma_do_drops_count(
    board: Seq<Seq<Piece>>,
    s: u8,
    sq: int,
    dir: Direction,
    hand: Seq<Piece>,
    drops: Seq<u8>,
    cap_top: bool,
    color: Color,
    caps: bool,
)
    requires
        valid_size(s as int),
        valid_square(sq, s as int),
        board.len() == (s as int) * (s as int),
        spec_drops_ok(board, s, sq, dir, hand.len() as int, cap_top, drops),
    ensures
        count_board(spec_do_drops(board, s, sq, dir, hand, drops), color, caps) == count_board(
            board,
            color,
            caps,
        ) + count_pieces(hand, color, caps),
    decreases drops.len(),
{
    if drops.len() == 0 {
        assert(hand.len() == 0);
        assert(count_pieces(hand, color, caps) == 0);
    } else {
        let next = spec_go_direction(sq, s as int, dir)->Some_0;
        crate::square::lemma_go_direction_valid(sq, s as int, dir);
        let d = drops[0] as int;
        let target = board[next];
        let here = spec_flatten_here(target, hand, drops);
        let target2 = if here {
            retop(target, Role::Flat)
        } else {
            target
        };
        let board_a = board.update(next, target2 + hand.take(d));
        if here {
            assert(piece_matches(target.last(), color, caps) == piece_matches(
                Piece { color: target.last().color, role: Role::Flat },
                color,
                caps,
            ));
            lemma_count_pieces_update_same_class(
                target,
                target.len() - 1,
                Piece { color: target.last().color, role: Role::Flat },
                color,
                caps,
            );
        }
        lemma_count_pieces_concat(target2, hand.take(d), color, caps);
        lemma_count_board_update(board, next, target2 + hand.take(d), color, caps);
        lemma_not_on_own_path(s, next, dir, drops.len() - 1);
        lemma_drops_ok_path(board, s, sq, dir, hand.len() as int, cap_top, drops);
        lemma_path_shift(s, sq, dir, drops.len() as int);
        assert forall|q: int|
            spec_on_path(s, next, dir, drops.len() - 1, q) implies board[q] == board_a[q] by {
            let k = choose|k: nat|
                1 <= k <= drops.len() - 1 && #[trigger] spec_jump_direction(
                    next,
                    s as int,
                    dir,
                    k,
                ) == Option::<int>::Some(q);
            lemma_jump_strict(next, s as int, dir, k);
        }
        lemma_drops_ok_frame(
            board,
            board_a,
            s,
            next,
            dir,
            hand.len() - d,
            cap_top,
            drops.drop_first(),
        );
        assert(hand.skip(d).len() == hand.len() - d);
        lemma_do_drops_count(
            board_a,
            s,
            next,
            dir,
            hand.skip(d),
            drops.drop_first(),
            cap_top,
            color,
            caps,
        );
        lemma_count_pieces_concat(hand.take(d), hand.skip(d), color, caps);
        assert(hand.take(d) + hand.skip(d) =~= hand);
    }
}

/// Whether every piece of a hand below its last one is flat.
pub open spec fn hand_shape(hand: Seq<Piece>) -> bool {
    forall|i: int| 0 <= i < hand.len() - 1 ==> (#[trigger] hand[i]).role == Role::Flat
}

/// A legal spread leaves only flats below every stack top.
proof fn lemma_do_drops_shape(
    board: Seq<Seq<Piece>>,
    s: u8,
    sq: int,
    dir: Direction,
    hand: Seq<Piece>,
    drops: Seq<u8>,
    cap_top: bool,
)
    requires
        valid_size(s as int),
        valid_square(sq, s as int),
        board.len() == (s as int) * (s as int),
        spec_drops_ok(board, s, sq, dir, hand.len() as int, cap_top, drops),
        forall|q: int| 0 <= q < board.len() ==> shape_ok(#[trigger] board[q]),
        hand_shape(hand),
        hand.len() > 0 ==> (cap_top <==> hand.last().role == Role::Cap),
    ensures
        forall|q: int|
            0 <= q < board.len() ==> shape_ok(
                #[trigger] spec_do_drops(board, s, sq, dir, hand, drops)[q],
            ),
    decreases drops.len(),
{
    if drops.len() > 0 {
        let next = spec_go_direction(sq, s as int, dir)->Some_0;
        crate::square::lemma_go_direction_valid(sq, s as int, dir);
        let d = drops[0] as int;
        let target = board[next];
        let here = spec_flatten_here(target, hand, drops);
        let target2 = if here {
            retop(target, Role::Flat)
        } else {
            target
        };
        let st_new = target2 + hand.take(d);
        // The new stack has only flats below its top.
        assert(shape_ok(st_new)) by {
            if target.len() > 0 && target.last().role == Role::Wall && !here {
                // A wall can only be covered by the final lone capstone.
                assert(drops.len() == 1 && hand.len() == 1 && cap_top);
                assert(hand[0] == hand.last());
                assert(false);
            }
            assert forall|i: int| 0 <= i < st_new.len() - 1 implies (#[trigger] st_new[i]).role
                == Role::Flat by {
                if i < target2.len() - 1 {
                    assert(st_new[i] == target2[i]);
                } else if i == target2.len() - 1 {
                    assert(st_new[i] == target2[i]);
                } else {
                    assert(st_new[i] == hand.take(d)[i - target2.len()]);
                    assert(i - target2.len() < hand.len() - 1);
                }
            }
        }
        let board_a = board.update(next, st_new);
        lemma_not_on_own_path(s, next, dir, drops.len() - 1);
        lemma_drops_ok_path(board, s, sq, dir, hand.len() as int, cap_top, drops);
        lemma_path_shift(s, sq, dir, drops.len() as int);
        assert forall|q: int|
            spec_on_path(s, next, dir, drops.len() - 1, q) implies board[q] == board_a[q] by {
            let k = choose|k: nat|
                1 <= k <= drops.len() - 1 && #[trigger] spec_jump_direction(
                    next,
                    s as int,
                    dir,
                    k,
                ) == Option::<int>::Some(q);
            lemma_jump_strict(next, s as int, dir, k);
        }
        lemma_drops_ok_frame(
            board,
            board_a,
            s,
            next,
            dir,
            hand.len() - d,
            cap_top,
            drops.drop_first(),
        );
        assert(hand.skip(d).len() == hand.len() - d);
        assert(hand_shape(hand.skip(d))) by {
            assert forall|i: int| 0 <= i < hand.skip(d).len() - 1 implies (#[trigger] hand.skip(
                d,
            )[i]).role == Role::Flat by {
                assert(hand.skip(d)[i] == hand[d + i]);
            }
        }
        if hand.skip(d).len() > 0 {
            assert(hand.skip(d).last() == hand.last());
        }
        lemma_do_drops_shape(board_a, s, next, dir, hand.skip(d), drops.drop_first(), cap_top);
        assert forall|q: int| 0 <= q < board.len() implies shape_ok(
            #[trigger] spec_do_drops(board, s, sq, dir, hand, drops)[q],
        ) by {
            assert(spec_do_drops(board, s, sq, dir, hand, drops) == spec_do_drops(
                board_a,
                s,
                next,
                dir,
                hand.skip(d),
                drops.drop_first(),
            ));
            assert(shape_ok(spec_do_drops(board_a, s, next, dir, hand.skip(d), drops.drop_first())[q]));
        }
    }
}

/// The shared groundwork for a legal spread: the hand is the lifted top
/// of the origin stack, the drop pattern stays legal on the board with
/// the origin truncated, and base and hand keep their shapes.
pub proof fn lemma_spread_setup(p: PosState, sq: u8, dir: Direction, sm: StackMovementView)
    requires
        p.wf(),
        p.spec_legal_move(MoveView::Spread(sq, dir, sm)),
    ensures
        ({
            let origin = p.board[sq as int];
            let keep = origin.len() - sm.pieces_to_take;
            let base = origin.take(keep);
            let hand = origin.skip(keep);
            let board0 = p.board.update(sq as int, base);
            &&& hand.len() == sm.pieces_to_take as int
            &&& hand.last() == origin.last()
            &&& base + hand =~= origin
            &&& shape_ok(base)
            &&& hand_shape(hand)
            &&& board0.len() == (p.size as int) * (p.size as int)
            &&& spec_drops_ok(
                board0,
                p.size,
                sq as int,
                dir,
                hand.len() as int,
                origin.last().role == Role::Cap,
                sm.drops,
            )
        }),
{
    let origin = p.board[sq as int];
    let keep = origin.len() - sm.pieces_to_take;
    let base = origin.take(keep);
    let hand = origin.skip(keep);
    let board0 = p.board.update(sq as int, base);
    let cap_top = origin.last().role == Role::Cap;
    assert(base + hand =~= origin);
    assert(hand.last() == origin.last());
    assert(shape_ok(base)) by {
        assert forall|i: int| 0 <= i < base.len() - 1 implies (#[trigger] base[i]).role
            == Role::Flat by {
            assert(base[i] == origin[i]);
        }
    }
    assert(hand_shape(hand)) by {
        assert forall|i: int| 0 <= i < hand.len() - 1 implies (#[trigger] hand[i]).role
            == Role::Flat by {
            assert(hand[i] == origin[keep + i]);
        }
    }
    lemma_drops_ok_path(p.board, p.size, sq as int, dir, sm.pieces_to_take as int, cap_top, sm.drops);
    lemma_not_on_own_path(p.size, sq as int, dir, sm.drops.len() as int);
    assert forall|q: int|
        spec_on_path(p.size, sq as int, dir, sm.drops.len() as int, q)
            implies p.board[q] == board0[q] by {
        let k = choose|k: nat|
            1 <= k <= sm.drops.len() && #[trigger] spec_jump_direction(
                sq as int,
                p.size as int,
                dir,
                k,
            ) == Option::<int>::Some(q);
        lemma_jump_strict(sq as int, p.size as int, dir, k);
        assert(q != sq as int);
        assert(valid_square(q, p.size as int));
    }
    lemma_drops_ok_frame(
        p.board,
        board0,
        p.size,
        sq as int,
        dir,
        sm.pieces_to_take as int,
        cap_top,
        sm.drops,
    );
}

impl PosState {
    /// A legal move keeps the position well-formed: the reserves stay in
    /// step with the board, stacks keep their shape, and the hash stays
    /// in step with the board.
    pub proof fn lemma_do_move_wf(self, m: MoveView)
        requires
            self.wf(),
            self.spec_legal_move(m),
            self.half_moves < HALF_MOVES_MAX,
        ensures
            self.spec_do_move(m).wf(),
            self.spec_do_move(m).size == self.size,
            self.spec_do_move(m).spec_undoable(self.spec_rev_token(m)),
    {
        match m {
            MoveView::Place(role, sq) => {
                self.lemma_do_place_wf(role, sq);
            },
            MoveView::Spread(sq, dir, sm) => {
                self.lemma_do_spread_wf(sq, dir, sm);
            },
        }
    }

    /// A legal placement keeps the position well-formed.
    #[verifier::rlimit(100)]
    proof fn lemma_do_place_wf(self, role: Role, sq: u8)
        requires
            self.wf(),
            self.spec_legal_move(MoveView::Place(role, sq)),
            self.half_moves < HALF_MOVES_MAX,
        ensures
            self.spec_do_move(MoveView::Place(role, sq)).wf(),
            self.spec_do_move(MoveView::Place(role, sq)).size == self.size,
            self.spec_do_move(MoveView::Place(role, sq)).spec_undoable(
                self.spec_rev_token(MoveView::Place(role, sq)),
            ),
    {
        let color = self.placing_color();
        let piece = Piece { color, role };
        let st_new = self.board[sq as int].push(piece);
        assert(st_new.drop_last() =~= self.board[sq as int]);
        assert(st_new.last() == piece);
        lemma_count_board_update(self.board, sq as int, st_new, Color::White, false);
        lemma_count_board_update(self.board, sq as int, st_new, Color::White, true);
        lemma_count_board_update(self.board, sq as int, st_new, Color::Black, false);
        lemma_count_board_update(self.board, sq as int, st_new, Color::Black, true);
        assert(shape_ok(st_new));
    }

    /// A legal spread moves pieces without creating or destroying any.
    #[verifier::rlimit(100)]
    proof fn lemma_do_spread_counts(self, sq: u8, dir: Direction, sm: StackMovementView)
        requires
            self.wf(),
            self.spec_legal_move(MoveView::Spread(sq, dir, sm)),
        ensures
            ({
                let origin = self.board[sq as int];
                let keep = origin.len() - sm.pieces_to_take;
                let board0 = self.board.update(sq as int, origin.take(keep));
                let done = spec_do_drops(
                    board0,
                    self.size,
                    sq as int,
                    dir,
                    origin.skip(keep),
                    sm.drops,
                );
                forall|color: Color, caps: bool|
                    count_board(done, color, caps) == count_board(self.board, color, caps)
            }),
    {
        let origin = self.board[sq as int];
        let keep = origin.len() - sm.pieces_to_take;
        let base = origin.take(keep);
        let hand = origin.skip(keep);
        let board0 = self.board.update(sq as int, base);
        let cap_top = origin.last().role == Role::Cap;
        lemma_spread_setup(self, sq, dir, sm);
        let done = spec_do_drops(board0, self.size, sq as int, dir, hand, sm.drops);
        assert forall|color: Color, caps: bool|
            count_board(done, color, caps) == count_board(self.board, color, caps) by {
            lemma_count_pieces_concat(base, hand, color, caps);
            assert(base + hand =~= origin);
            lemma_count_board_update(self.board, sq as int, base, color, caps);
            lemma_do_drops_count(
                board0,
                self.size,
                sq as int,
                dir,
                hand,
                sm.drops,
                cap_top,
                color,
                caps,
            );
        }
    }

    /// A legal spread keeps the position well-formed.
    #[verifier::rlimit(100)]
    #[verifier::spinoff_prover]
    proof fn lemma_do_spread_wf(self, sq: u8, dir: Direction, sm: StackMovementView)
        requires
            self.wf(),
            self.spec_legal_move(MoveView::Spread(sq, dir, sm)),
            self.half_moves < HALF_MOVES_MAX,
        ensures
            self.spec_do_move(MoveView::Spread(sq, dir, sm)).wf(),
            self.spec_do_move(MoveView::Spread(sq, dir, sm)).size == self.size,
            self.spec_do_move(MoveView::Spread(sq, dir, sm)).spec_undoable(
                self.spec_rev_token(MoveView::Spread(sq, dir, sm)),
            ),
    {
        let origin = self.board[sq as int];
        let keep = origin.len() - sm.pieces_to_take;
        let base = origin.take(keep);
        let hand = origin.skip(keep);
        let board0 = self.board.update(sq as int, base);
        let cap_top = origin.last().role == Role::Cap;
        lemma_spread_setup(self, sq, dir, sm);
        self.lemma_do_spread_counts(sq, dir, sm);
        lemma_do_drops_shape(board0, self.size, sq as int, dir, hand, sm.drops, cap_top);
        lemma_drops_ok_path(
            board0,
            self.size,
            sq as int,
            dir,
            hand.len() as int,
            cap_top,
            sm.drops,
        );
        lemma_do_drops_frame(board0, self.size, sq as int, dir, hand, sm.drops);
        lemma_drops_roundtrip(board0, self.size, sq as int, dir, hand, sm.drops, cap_top);
    }

    /// Reversing a move restores the position exactly, Zobrist hash and
    /// history included.
    #[verifier::rlimit(100)]
    pub proof fn lemma_reverse_move_restores(self, m: MoveView)
        requires
            self.wf(),
            self.spec_legal_move(m),
            self.half_moves < HALF_MOVES_MAX,
        ensures
            self.spec_do_move(m).spec_undo(self.spec_rev_token(m)) == self,
    {
        let after = self.spec_do_move(m);
        let rev = self.spec_rev_token(m);
        let back = after.spec_undo(rev);
        match m {
            MoveView::Place(role, sq) => {
                let color = self.placing_color();
                let piece = Piece { color, role };
                let st_new = self.board[sq as int].push(piece);
                assert(after.board[sq as int] == st_new);
                assert(st_new.last() == piece);
                assert(st_new.drop_last() =~= self.board[sq as int]);
                assert(after.board.update(sq as int, self.board[sq as int]) =~~= self.board);
                assert(after.history.drop_last() =~= self.history);
                assert(back =~~= self);
            },
            MoveView::Spread(sq, dir, sm) => {
                let origin = self.board[sq as int];
                let keep = origin.len() - sm.pieces_to_take;
                let base = origin.take(keep);
                let hand = origin.skip(keep);
                let board0 = self.board.update(sq as int, base);
                let cap_top = origin.last().role == Role::Cap;
                lemma_spread_setup(self, sq, dir, sm);
                lemma_drops_roundtrip(board0, self.size, sq as int, dir, hand, sm.drops, cap_top);
                let undone = spec_undo_drops(
                    after.board,
                    self.size,
                    sq as int,
                    dir,
                    sm.drops,
                    rev->Spread_3,
                );
                assert(undone.0 == board0 && undone.1 == hand);
                assert(board0[sq as int] == base);
                assert(base + hand =~= origin);
                assert(board0.update(sq as int, base + hand) =~~= self.board);
                assert(after.history.drop_last() =~= self.history);
                assert(back =~~= self);
            },
        }
    }
}

/// Drop counts are never negative.
pub proof fn lemma_sum_drops_nonneg(drops: Seq<u8>)
    ensures
        sum_drops(drops) >= 0,
    decreases drops.len(),
{
    if drops.len() > 0 {
        lemma_sum_drops_nonneg(drops.drop_first());
    }
}

/// Splitting a drop pattern at `i` splits its sum.
pub proof fn lemma_sum_drops_skip_step(drops: Seq<u8>, i: int)
    requires
        0 <= i < drops.len(),
    ensures
        sum_drops(drops.skip(i)) == drops[i] + sum_drops(drops.skip(i + 1)),
{
    assert(drops.skip(i).drop_first() =~= drops.skip(i + 1));
    assert(drops.skip(i)[0] == drops[i]);
}

/// A meaningful undo keeps the whole path on the board.
pub proof fn lemma_undo_ok_path(
    board: Seq<Seq<Piece>>,
    s: u8,
    sq: int,
    dir: Direction,
    drops: Seq<u8>,
    flattened: bool,
)
    requires
        valid_size(s as int),
        valid_square(sq, s as int),
        spec_undo_drops_ok(board, s, sq, dir, drops, flattened),
    ensures
        spec_path_ok(s, sq, dir, drops.len() as int),
    decreases drops.len(),
{
    if drops.len() > 0 {
        let next = spec_go_direction(sq, s as int, dir)->Some_0;
        crate::square::lemma_go_direction_valid(sq, s as int, dir);
        lemma_undo_ok_path(board, s, next, dir, drops.drop_first(), flattened);
        assert forall|k: nat| 1 <= k <= drops.len() implies (#[trigger] spec_jump_direction(
            sq,
            s as int,
            dir,
            k,
        )) is Some by {
            if k == 1 {
                assert(spec_jump_direction(next, s as int, dir, 0nat) is Some);
                assert(spec_jump_direction(sq, s as int, dir, 1nat) is Some);
            } else {
                assert(spec_jump_direction(next, s as int, dir, (k - 1) as nat) is Some);
                assert(spec_jump_direction(sq, s as int, dir, k) == spec_jump_direction(
                    next,
                    s as int,
                    dir,
                    (k - 1) as nat,
                ));
            }
        }
    }
}

/// Undoing drops does not change the number of squares.
pub proof fn lemma_undo_drops_len(
    board: Seq<Seq<Piece>>,
    s: u8,
    sq: int,
    dir: Direction,
    drops: Seq<u8>,
    flattened: bool,
)
    requires
        valid_size(s as int),
        valid_square(sq, s as int),
        board.len() == (s as int) * (s as int),
        spec_undo_drops_ok(board, s, sq, dir, drops, flattened),
    ensures
        spec_undo_drops(board, s, sq, dir, drops, flattened).0.len() == board.len(),
    decreases drops.len(),
{
    if drops.len() > 0 {
        let next = spec_go_direction(sq, s as int, dir)->Some_0;
        crate::square::lemma_go_direction_valid(sq, s as int, dir);
        lemma_undo_drops_len(board, s, next, dir, drops.drop_first(), flattened);
    }
}

/// Changing a square off the undo's path changes neither the picked-up
/// hand nor anything but that square of the resulting board, and keeps
/// the undo meaningful.
pub proof fn lemma_undo_drops_update_off_path(
    board: Seq<Seq<Piece>>,
    s: u8,
    sq: int,
    dir: Direction,
    drops: Seq<u8>,
    flattened: bool,
    q: int,
    x: Seq<Piece>,
)
    requires
        valid_size(s as int),
        valid_square(sq, s as int),
        0 <= q < board.len(),
        board.len() == (s as int) * (s as int),
        spec_undo_drops_ok(board, s, sq, dir, drops, flattened),
        !spec_on_path(s, sq, dir, drops.len() as int, q),
    ensures
        spec_undo_drops_ok(board.update(q, x), s, sq, dir, drops, flattened),
        spec_undo_drops(board.update(q, x), s, sq, dir, drops, flattened).0 == spec_undo_drops(
            board,
            s,
            sq,
            dir,
            drops,
            flattened,
        ).0.update(q, x),
        spec_undo_drops(board.update(q, x), s, sq, dir, drops, flattened).1 == spec_undo_drops(
            board,
            s,
            sq,
            dir,
            drops,
            flattened,
        ).1,
    decreases drops.len(),
{
    if drops.len() == 0 {
    } else {
        let next = spec_go_direction(sq, s as int, dir)->Some_0;
        crate::square::lemma_go_direction_valid(sq, s as int, dir);
        lemma_undo_ok_path(board, s, sq, dir, drops, flattened);
        lemma_path_shift(s, sq, dir, drops.len() as int);
        assert(spec_jump_direction(next, s as int, dir, 0nat) == Option::<int>::Some(next));
        assert(spec_jump_direction(sq, s as int, dir, 1nat) == Option::<int>::Some(next));
        assert(spec_on_path(s, sq, dir, drops.len() as int, next));
        assert(q != next);
        assert(!spec_on_path(s, next, dir, drops.len() - 1, q));
        lemma_undo_drops_update_off_path(board, s, next, dir, drops.drop_first(), flattened, q, x);
        let d = drops[0] as int;
        let target = board[next];
        assert(board.update(q, x)[next] == target);
        let st1 = target.take(target.len() - d);
        let st2 = if drops.len() == 1 && flattened {
            retop(st1, Role::Wall)
        } else {
            st1
        };
        let rest = spec_undo_drops(board, s, next, dir, drops.drop_first(), flattened);
        let rest_q = spec_undo_drops(board.update(q, x), s, next, dir, drops.drop_first(), flattened);
        assert(rest_q.0 == rest.0.update(q, x));
        lemma_undo_drops_len(board, s, next, dir, drops.drop_first(), flattened);
        assert(rest.0.len() == board.len());
        assert(rest.0.update(q, x).update(next, st2) =~~= rest.0.update(next, st2).update(q, x));
    }
}

/// One step of a legal spread: stepping to the next square keeps the
/// rest of the pattern legal, keeps the final board of the spread the
/// same, and carries the flattening decision along.
pub proof fn lemma_spread_step(
    board: Seq<Seq<Piece>>,
    s: u8,
    sq: int,
    dir: Direction,
    hand: Seq<Piece>,
    drops: Seq<u8>,
    cap_top: bool,
)
    requires
        valid_size(s as int),
        valid_square(sq, s as int),
        board.len() == (s as int) * (s as int),
        drops.len() >= 1,
        spec_drops_ok(board, s, sq, dir, hand.len() as int, cap_top, drops),
    ensures
        spec_go_direction(sq, s as int, dir) is Some,
        ({
            let next = spec_go_direction(sq, s as int, dir)->Some_0;
            let d = drops[0] as int;
            let target = board[next];
            let target2 = if spec_flatten_here(target, hand, drops) {
                retop(target, Role::Flat)
            } else {
                target
            };
            let board_new = board.update(next, target2 + hand.take(d));
            &&& valid_square(next, s as int)
            &&& 1 <= d <= hand.len()
            &&& spec_drops_ok(
                board_new,
                s,
                next,
                dir,
                hand.len() - d,
                cap_top,
                drops.drop_first(),
            )
            &&& spec_do_drops(board, s, sq, dir, hand, drops) == spec_do_drops(
                board_new,
                s,
                next,
                dir,
                hand.skip(d),
                drops.drop_first(),
            )
            &&& (drops.len() > 1 ==> spec_spread_flattens(board, s, sq, dir, hand, drops)
                == spec_spread_flattens(
                board_new,
                s,
                next,
                dir,
                hand.skip(d),
                drops.drop_first(),
            ))
            &&& (drops.len() == 1 ==> spec_spread_flattens(board, s, sq, dir, hand, drops)
                == spec_flatten_here(target, hand, drops))
        }),
{
    let next = spec_go_direction(sq, s as int, dir)->Some_0;
    crate::square::lemma_go_direction_valid(sq, s as int, dir);
    let d = drops[0] as int;
    let target = board[next];
    let here = spec_flatten_here(target, hand, drops);
    let target2 = if here {
        retop(target, Role::Flat)
    } else {
        target
    };
    let board_new = board.update(next, target2 + hand.take(d));
    lemma_drops_ok_path(board, s, sq, dir, hand.len() as int, cap_top, drops);
    lemma_path_shift(s, sq, dir, drops.len() as int);
    lemma_not_on_own_path(s, next, dir, drops.len() - 1);
    assert forall|q: int|
        spec_on_path(s, next, dir, drops.len() - 1, q) implies board[q] == board_new[q] by {
        let k = choose|k: nat|
            1 <= k <= drops.len() - 1 && #[trigger] spec_jump_direction(next, s as int, dir, k)
                == Option::<int>::Some(q);
        lemma_jump_strict(next, s as int, dir, k);
    }
    lemma_drops_ok_frame(board, board_new, s, next, dir, hand.len() - d, cap_top, drops.drop_first());
    if drops.len() > 1 {
        assert(!here);
    }
}

/// Every part of a legal drop pattern is positive.
pub proof fn lemma_drops_ok_positive(
    board: Seq<Seq<Piece>>,
    s: u8,
    sq: int,
    dir: Direction,
    hand_len: int,
    cap_top: bool,
    drops: Seq<u8>,
)
    requires
        spec_drops_ok(board, s, sq, dir, hand_len, cap_top, drops),
    ensures
        forall|j: int| 0 <= j < drops.len() ==> 1 <= #[trigger] drops[j],
    decreases drops.len(),
{
    if drops.len() > 0 {
        let next = spec_go_direction(sq, s as int, dir)->Some_0;
        lemma_drops_ok_positive(
            board,
            s,
            next,
            dir,
            hand_len - drops[0],
            cap_top,
            drops.drop_first(),
        );
        assert forall|j: int| 0 <= j < drops.len() implies 1 <= #[trigger] drops[j] by {
            if j >= 1 {
                assert(drops[j] == drops.drop_first()[j - 1]);
            }
        }
    }
}

/// A legal drop pattern visits at least as many pieces as squares.
pub proof fn lemma_drops_ok_len_bound(
    board: Seq<Seq<Piece>>,
    s: u8,
    sq: int,
    dir: Direction,
    hand_len: int,
    cap_top: bool,
    drops: Seq<u8>,
)
    requires
        spec_drops_ok(board, s, sq, dir, hand_len, cap_top, drops),
    ensures
        drops.len() <= hand_len,
    decreases drops.len(),
{
    if drops.len() > 0 {
        let next = spec_go_direction(sq, s as int, dir)->Some_0;
        lemma_drops_ok_len_bound(board, s, next, dir, hand_len - drops[0], cap_top, drops.drop_first());
    }
}

/// Whether a spread flattens a wall can be read off up front: the final
/// drop is a single piece, the hand ends in the capstone, and the final
/// square is topped by a wall.
pub proof fn lemma_spread_flattens_char(
    board: Seq<Seq<Piece>>,
    s: u8,
    sq: int,
    dir: Direction,
    hand: Seq<Piece>,
    drops: Seq<u8>,
    cap_top: bool,
)
    requires
        valid_size(s as int),
        valid_square(sq, s as int),
        board.len() == (s as int) * (s as int),
        drops.len() >= 1,
        spec_drops_ok(board, s, sq, dir, hand.len() as int, cap_top, drops),
    ensures
        spec_jump_direction(sq, s as int, dir, drops.len() as nat) is Some,
        spec_spread_flattens(board, s, sq, dir, hand, drops) == ({
            let lastpos = spec_jump_direction(sq, s as int, dir, drops.len() as nat)->Some_0;
            drops.last() == 1 && hand.last().role == Role::Cap && board[lastpos].len() > 0
                && board[lastpos].last().role == Role::Wall
        }),
    decreases drops.len(),
{
    let next = spec_go_direction(sq, s as int, dir)->Some_0;
    crate::square::lemma_go_direction_valid(sq, s as int, dir);
    assert(spec_jump_direction(next, s as int, dir, 0nat) == Option::<int>::Some(next));
    assert(spec_jump_direction(sq, s as int, dir, 1nat) == Option::<int>::Some(next));
    let d = drops[0] as int;
    if drops.len() == 1 {
        assert(spec_drops_ok(board, s, next, dir, hand.len() - d, cap_top, drops.drop_first()));
        assert(drops.drop_first().len() == 0);
        assert(hand.len() == d);
        assert(drops.last() == drops[0]);
        if d == 1 {
            assert(hand[0] == hand.last());
        }
    } else {
        lemma_spread_step(board, s, sq, dir, hand, drops, cap_top);
        let target = board[next];
        let board_a = board.update(next, target + hand.take(d));
        assert(!spec_flatten_here(target, hand, drops));
        lemma_spread_flattens_char(board_a, s, next, dir, hand.skip(d), drops.drop_first(), cap_top);
        let m = drops.len() - 1;
        assert(spec_jump_direction(sq, s as int, dir, drops.len() as nat) == spec_jump_direction(
            next,
            s as int,
            dir,
            m as nat,
        ));
        let lastpos = spec_jump_direction(next, s as int, dir, m as nat)->Some_0;
        lemma_jump_strict(next, s as int, dir, m as nat);
        assert(lastpos != next);
        assert(board_a[lastpos] == board[lastpos]);
        assert(drops.drop_first().last() == drops.last());
        // The hand still ends in the same piece.
        assert(1 <= drops.drop_first()[0] <= hand.len() - d);
        assert(d < hand.len());
        assert(hand.skip(d).last() == hand.last());
    }
}

/// Everything a spread needs to know up front, bundled: the hand, the
/// legality of the pattern on the truncated board, the length bounds,
/// the final square, the flattening decision, and what the move's undo
/// token and resulting board are.
pub proof fn lemma_spread_prologue(p: PosState, sq: u8, dir: Direction, sm: StackMovementView)
    requires
        p.wf(),
        p.spec_legal_move(MoveView::Spread(sq, dir, sm)),
    ensures
        ({
            let origin = p.board[sq as int];
            let keep = origin.len() - sm.pieces_to_take;
            let hand = origin.skip(keep);
            let board0 = p.board.update(sq as int, origin.take(keep));
            let fl = spec_spread_flattens(board0, p.size, sq as int, dir, hand, sm.drops);
            &&& hand.len() == sm.pieces_to_take as int
            &&& hand.last() == origin.last()
            &&& board0.len() == (p.size as int) * (p.size as int)
            &&& spec_drops_ok(
                board0,
                p.size,
                sq as int,
                dir,
                hand.len() as int,
                origin.last().role == Role::Cap,
                sm.drops,
            )
            &&& 1 <= sm.drops.len() <= sm.pieces_to_take <= 8
            &&& spec_jump_direction(sq as int, p.size as int, dir, sm.drops.len() as nat) is Some
            &&& valid_square(
                spec_jump_direction(sq as int, p.size as int, dir, sm.drops.len() as nat)->Some_0,
                p.size as int,
            )
            &&& fl == ({
                let lastpos = spec_jump_direction(
                    sq as int,
                    p.size as int,
                    dir,
                    sm.drops.len() as nat,
                )->Some_0;
                sm.drops.last() == 1 && hand.last().role == Role::Cap && board0[lastpos].len() > 0
                    && board0[lastpos].last().role == Role::Wall
            })
            &&& p.spec_rev_token(MoveView::Spread(sq, dir, sm)) == ReverseMoveView::Spread(
                sq,
                dir,
                sm,
                fl,
            )
            &&& p.spec_do_move(MoveView::Spread(sq, dir, sm)).board == spec_do_drops(
                board0,
                p.size,
                sq as int,
                dir,
                hand,
                sm.drops,
            )
        }),
{
    let origin = p.board[sq as int];
    let keep = origin.len() - sm.pieces_to_take;
    let hand = origin.skip(keep);
    let board0 = p.board.update(sq as int, origin.take(keep));
    let cap_top = origin.last().role == Role::Cap;
    lemma_spread_setup(p, sq, dir, sm);
    lemma_drops_ok_len_bound(board0, p.size, sq as int, dir, hand.len() as int, cap_top, sm.drops);
    lemma_spread_flattens_char(board0, p.size, sq as int, dir, hand, sm.drops, cap_top);
    lemma_jump_strict(
        sq as int,
        p.size as int,
        dir,
        sm.drops.len() as nat,
    );
}
} // verus!
