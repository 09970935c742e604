//! The board state machine: stacks on squares, reserves, side to move,
//! make/unmake of moves, and the game result.
//!
//! All contracts are stated over [`PosState`], the ghost value of a
//! [`Position`]: the board as a sequence of piece sequences (bottom to
//! top), the reserves, the side to move, the komi, the ply counter, the
//! move history and the Zobrist hash.

use crate::komi::Komi;
use crate::moves::{MoveView, ReverseMoveView};
use crate::piece::{Color, Piece, Role};
use crate::square::{
    go_direction, spec_go_direction, spec_jump_direction, valid_size, valid_square, Direction,
};
use crate::stack::Stack;
use vstd::prelude::*;

verus! {

/// An upper bound on the number of pieces in any game:
/// both players' stones and capstones at the largest board size.
pub const TOTAL_PIECES_MAX: u8 = 104;

/// An upper bound on the ply counter, far beyond any practical game.
pub const HALF_MOVES_MAX: u32 = 0x1000_0000;

/// The ghost value of a [`Position`].
#[verifier::ext_equal]
pub ghost struct PosState {
    pub size: u8,
    pub board: Seq<Seq<Piece>>,
    pub to_move: Color,
    pub white_stones_left: u8,
    pub white_caps_left: u8,
    pub black_stones_left: u8,
    pub black_caps_left: u8,
    pub komi: Komi,
    pub half_moves: u32,
    pub history: Seq<MoveView>,
    pub hash: u64,
}

/// The number of flat stones each side starts with on an `s * s` board.
pub open spec fn spec_starting_stones(s: int) -> int {
    if s == 3 {
        10
    } else if s == 4 {
        15
    } else if s == 5 {
        21
    } else if s == 6 {
        30
    } else if s == 7 {
        40
    } else {
        50
    }
}

/// The number of capstones each side starts with on an `s * s` board.
pub open spec fn spec_starting_capstones(s: int) -> int {
    if s <= 4 {
        0
    } else if s <= 6 {
        1
    } else {
        2
    }
}

/// The number of flat stones each side starts with.
pub fn starting_stones(s: u8) -> (r: u8)
    requires
        valid_size(s as int),
    ensures
        r == spec_starting_stones(s as int),
{
    match s {
        3 => 10,
        4 => 15,
        5 => 21,
        6 => 30,
        7 => 40,
        _ => 50,
    }
}

/// The number of capstones each side starts with.
pub fn starting_capstones(s: u8) -> (r: u8)
    requires
        valid_size(s as int),
    ensures
        r == spec_starting_capstones(s as int),
{
    if s <= 4 {
        0
    } else if s <= 6 {
        1
    } else {
        2
    }
}

/// Whether a piece has the given color, and is a capstone when `caps` is
/// set or a flat or wall when it is not.
pub open spec fn piece_matches(p: Piece, color: Color, caps: bool) -> bool {
    p.color == color && ((p.role == Role::Cap) <==> caps)
}

/// The number of matching pieces in one stack.
pub open spec fn count_pieces(stack: Seq<Piece>, color: Color, caps: bool) -> int
    decreases stack.len(),
{
    if stack.len() == 0 {
        0
    } else {
        count_pieces(stack.drop_last(), color, caps) + if piece_matches(stack.last(), color, caps) {
            1int
        } else {
            0int
        }
    }
}

/// The number of matching pieces on the first `n` squares of the board.
pub open spec fn count_board_below(board: Seq<Seq<Piece>>, color: Color, caps: bool, n: int) -> int
    decreases n,
{
    if n <= 0 {
        0
    } else {
        count_board_below(board, color, caps, n - 1) + count_pieces(board[n - 1], color, caps)
    }
}

/// The number of matching pieces on the whole board.
pub open spec fn count_board(board: Seq<Seq<Piece>>, color: Color, caps: bool) -> int {
    count_board_below(board, color, caps, board.len() as int)
}

/// Counts are never negative and never exceed the stack height.
pub proof fn lemma_count_pieces_bounds(stack: Seq<Piece>, color: Color, caps: bool)
    ensures
        0 <= count_pieces(stack, color, caps) <= stack.len(),
    decreases stack.len(),
{
    if stack.len() > 0 {
        lemma_count_pieces_bounds(stack.drop_last(), color, caps);
    }
}

/// Every piece of a stack falls in exactly one of the four count classes.
pub proof fn lemma_count_pieces_total(stack: Seq<Piece>)
    ensures
        count_pieces(stack, Color::White, false) + count_pieces(stack, Color::White, true)
            + count_pieces(stack, Color::Black, false) + count_pieces(stack, Color::Black, true)
            == stack.len(),
    decreases stack.len(),
{
    if stack.len() > 0 {
        lemma_count_pieces_total(stack.drop_last());
    }
}

/// Counting distributes over concatenation.
pub proof fn lemma_count_pieces_concat(a: Seq<Piece>, b: Seq<Piece>, color: Color, caps: bool)
    ensures
        count_pieces(a + b, color, caps) == count_pieces(a, color, caps) + count_pieces(
            b,
            color,
            caps,
        ),
    decreases b.len(),
{
    if b.len() == 0 {
        assert(a + b =~= a);
    } else {
        lemma_count_pieces_concat(a, b.drop_last(), color, caps);
        assert((a + b).drop_last() =~= a + b.drop_last());
        assert((a + b).last() == b.last());
    }
}

/// Replacing one piece by another of the same count class keeps the count.
pub proof fn lemma_count_pieces_update_same_class(
    stack: Seq<Piece>,
    i: int,
    p: Piece,
    color: Color,
    caps: bool,
)
    requires
        0 <= i < stack.len(),
        piece_matches(stack[i], color, caps) == piece_matches(p, color, caps),
    ensures
        count_pieces(stack.update(i, p), color, caps) == count_pieces(stack, color, caps),
    decreases stack.len(),
{
    if stack.len() > 0 {
        if i == stack.len() - 1 {
            assert(stack.update(i, p).drop_last() =~= stack.drop_last());
        } else {
            assert(stack.update(i, p).drop_last() =~= stack.drop_last().update(i, p));
            lemma_count_pieces_update_same_class(stack.drop_last(), i, p, color, caps);
        }
    }
}

/// The board count before square `n` does not depend on squares from `n` on.
proof fn lemma_count_board_below_frame(
    a: Seq<Seq<Piece>>,
    b: Seq<Seq<Piece>>,
    color: Color,
    caps: bool,
    n: int,
)
    requires
        forall|q: int| 0 <= q < n ==> a[q] =~= b[q],
    ensures
        count_board_below(a, color, caps, n) == count_board_below(b, color, caps, n),
    decreases n,
{
    if n > 0 {
        lemma_count_board_below_frame(a, b, color, caps, n - 1);
    }
}

/// Replacing the stack on one square changes the board count by the
/// difference of the stack counts.
pub proof fn lemma_count_board_update(
    board: Seq<Seq<Piece>>,
    i: int,
    st: Seq<Piece>,
    color: Color,
    caps: bool,
)
    requires
        0 <= i < board.len(),
    ensures
        count_board(board.update(i, st), color, caps) == count_board(board, color, caps)
            - count_pieces(board[i], color, caps) + count_pieces(st, color, caps),
{
    let updated = board.update(i, st);
    lemma_count_board_update_below(board, i, st, color, caps, board.len() as int);
}

proof fn lemma_count_board_update_below(
    board: Seq<Seq<Piece>>,
    i: int,
    st: Seq<Piece>,
    color: Color,
    caps: bool,
    n: int,
)
    requires
        0 <= i < board.len(),
        n <= board.len(),
    ensures
        count_board_below(board.update(i, st), color, caps, n) == count_board_below(
            board,
            color,
            caps,
            n,
        ) + if i < n {
            count_pieces(st, color, caps) - count_pieces(board[i], color, caps)
        } else {
            0int
        },
    decreases n,
{
    if n > 0 {
        lemma_count_board_update_below(board, i, st, color, caps, n - 1);
    }
}

/// Each single stack's count is at most the whole board's count.
pub proof fn lemma_count_board_member(board: Seq<Seq<Piece>>, i: int, color: Color, caps: bool)
    requires
        0 <= i < board.len(),
    ensures
        count_pieces(board[i], color, caps) <= count_board(board, color, caps),
{
    lemma_count_board_member_below(board, i, color, caps, board.len() as int);
}

proof fn lemma_count_board_member_below(
    board: Seq<Seq<Piece>>,
    i: int,
    color: Color,
    caps: bool,
    n: int,
)
    requires
        0 <= i < n,
        n <= board.len(),
    ensures
        count_pieces(board[i], color, caps) <= count_board_below(board, color, caps, n),
    decreases n,
{
    lemma_count_pieces_bounds(board[n - 1], color, caps);
    if i < n - 1 {
        lemma_count_board_member_below(board, i, color, caps, n - 1);
    } else {
        lemma_count_board_below_nonneg(board, color, caps, n - 1);
    }
}

pub proof fn lemma_count_board_below_nonneg(board: Seq<Seq<Piece>>, color: Color, caps: bool, n: int)
    ensures
        count_board_below(board, color, caps, n) >= 0,
    decreases n,
{
    if n > 0 {
        lemma_count_board_below_nonneg(board, color, caps, n - 1);
        lemma_count_pieces_bounds(board[n - 1], color, caps);
    }
}

/// All pieces below the top of a stack are flat.
pub open spec fn shape_ok(stack: Seq<Piece>) -> bool {
    forall|i: int| 0 <= i < stack.len() - 1 ==> (#[trigger] stack[i]).role == Role::Flat
}

/// A 64-bit mixing function in the style of common split-mix generators,
/// used to derive Zobrist keys from square, height and piece encodings.
pub open spec fn spec_mix(x: u64) -> u64 {
    let a = vstd::wrapping::u64_specs::wrapping_add(x, 0x9E3779B97F4A7C15);
    let b = vstd::wrapping::u64_specs::wrapping_mul(a ^ (a >> 30u64), 0xBF58476D1CE4E5B9);
    let c = vstd::wrapping::u64_specs::wrapping_mul(b ^ (b >> 27u64), 0x94D049BB133111EB);
    c ^ (c >> 31u64)
}

/// Mix a 64-bit value into a Zobrist key.
pub fn mix(x: u64) -> (r: u64)
    ensures
        r == spec_mix(x),
{
    let a = x.wrapping_add(0x9E3779B97F4A7C15);
    let b = (a ^ (a >> 30u64)).wrapping_mul(0xBF58476D1CE4E5B9);
    let c = (b ^ (b >> 27u64)).wrapping_mul(0x94D049BB133111EB);
    c ^ (c >> 31u64)
}

/// A small code for each of the six piece kinds.
pub open spec fn spec_piece_code(p: Piece) -> int {
    (match p.color {
        Color::White => 0int,
        Color::Black => 3int,
    }) + p.role.spec_disc()
}

/// The Zobrist key of one piece at one height of one square.
pub open spec fn spec_square_key(sq: int, height: int, p: Piece) -> u64 {
    spec_mix(((sq * 1024 + height * 8 + spec_piece_code(p) + 1) as u64))
}

/// The Zobrist contribution of one stack.
pub open spec fn spec_stack_hash(stack: Seq<Piece>, sq: int) -> u64
    decreases stack.len(),
{
    if stack.len() == 0 {
        0u64
    } else {
        spec_stack_hash(stack.drop_last(), sq) ^ spec_square_key(
            sq,
            stack.len() - 1,
            stack.last(),
        )
    }
}

/// The Zobrist contribution of the first `n` squares.
pub open spec fn spec_board_hash_below(board: Seq<Seq<Piece>>, n: int) -> u64
    decreases n,
{
    if n <= 0 {
        0u64
    } else {
        spec_board_hash_below(board, n - 1) ^ spec_stack_hash(board[n - 1], n - 1)
    }
}

/// The Zobrist hash of a board with a side to move.
pub open spec fn spec_zobrist(board: Seq<Seq<Piece>>, to_move: Color) -> u64 {
    spec_board_hash_below(board, board.len() as int) ^ (match to_move {
        Color::White => spec_mix(0xAAAA),
        Color::Black => spec_mix(0x5555),
    })
}

impl PosState {
    /// The number of squares of the board.
    pub open spec fn num_squares(self) -> int {
        (self.size as int) * (self.size as int)
    }

    /// The flat-stone reserve (flats and walls share it) of a color.
    pub open spec fn spec_stones_left(self, color: Color) -> int {
        match color {
            Color::White => self.white_stones_left as int,
            Color::Black => self.black_stones_left as int,
        }
    }

    /// The capstone reserve of a color.
    pub open spec fn spec_caps_left(self, color: Color) -> int {
        match color {
            Color::White => self.white_caps_left as int,
            Color::Black => self.black_caps_left as int,
        }
    }

    /// Reserve conservation for one color: what is left plus what stands
    /// on the board equals the starting reserve.
    pub open spec fn conservation(self, color: Color) -> bool {
        count_board(self.board, color, false) + self.spec_stones_left(color)
            == spec_starting_stones(self.size as int) && count_board(self.board, color, true)
            + self.spec_caps_left(color) == spec_starting_capstones(self.size as int)
    }

    /// The well-formedness invariant of a position: a supported size, one
    /// stack per square, only flats below stack tops, reserve
    /// conservation for both colors, a valid komi, the side to move in
    /// step with the ply counter, and a hash that matches the board.
    pub open spec fn wf(self) -> bool {
        &&& valid_size(self.size as int)
        &&& self.board.len() == self.num_squares()
        &&& forall|q: int| 0 <= q < self.board.len() ==> shape_ok(#[trigger] self.board[q])
        &&& self.conservation(Color::White)
        &&& self.conservation(Color::Black)
        &&& Komi::valid_half_komi(self.komi.spec_half_komi())
        &&& (self.to_move == Color::White <==> self.half_moves % 2 == 0)
        &&& (self.half_moves < 2 ==> self.spec_stones_left(Color::White)
            >= spec_starting_stones(self.size as int) - self.half_moves && self.spec_stones_left(
            Color::Black,
        ) >= spec_starting_stones(self.size as int) - self.half_moves)
        &&& self.hash == spec_zobrist(self.board, self.to_move)
    }

    /// Every stack is bounded by the total piece count of the game.
    pub proof fn lemma_stack_height_bound(self, q: int)
        requires
            self.wf(),
            0 <= q < self.board.len(),
        ensures
            self.board[q].len() <= TOTAL_PIECES_MAX,
    {
        lemma_count_pieces_total(self.board[q]);
        lemma_count_board_member(self.board, q, Color::White, false);
        lemma_count_board_member(self.board, q, Color::White, true);
        lemma_count_board_member(self.board, q, Color::Black, false);
        lemma_count_board_member(self.board, q, Color::Black, true);
        lemma_count_pieces_bounds(self.board[q], Color::White, false);
        lemma_count_pieces_bounds(self.board[q], Color::White, true);
        lemma_count_pieces_bounds(self.board[q], Color::Black, false);
        lemma_count_pieces_bounds(self.board[q], Color::Black, true);
    }
}

/// A Tak position: the board, the reserves, the side to move, the komi,
/// the ply counter, the move history and the Zobrist hash.
#[derive(Clone, Debug, PartialEq, Eq)]
pub struct Position {
    pub(crate) size: u8,
    pub(crate) board: Vec<Stack>,
    pub(crate) to_move: Color,
    pub(crate) white_stones_left: u8,
    pub(crate) white_caps_left: u8,
    pub(crate) black_stones_left: u8,
    pub(crate) black_caps_left: u8,
    pub(crate) komi: Komi,
    pub(crate) half_moves: u32,
    pub(crate) history: Vec<crate::moves::Move>,
    pub(crate) hash: u64,
}

impl View for Position {
    type V = PosState;

    closed spec fn view(&self) -> PosState {
        PosState {
            size: self.size,
            board: self.board@.map_values(|st: Stack| st@),
            to_move: self.to_move,
            white_stones_left: self.white_stones_left,
            white_caps_left: self.white_caps_left,
            black_stones_left: self.black_stones_left,
            black_caps_left: self.black_caps_left,
            komi: self.komi,
            half_moves: self.half_moves,
            history: self.history@.map_values(|m: crate::moves::Move| m@),
            hash: self.hash,
        }
    }
}

impl Position {
    /// The board size `s` of this `s * s` position.
    pub fn size(&self) -> (r: u8)
        ensures
            r == self@.size,
    {
        self.size
    }

    /// The player to move.
    pub fn side_to_move(&self) -> (r: Color)
        ensures
            r == self@.to_move,
    {
        self.to_move
    }

    /// The number of half-moves (plies) played so far.
    pub fn half_moves_played(&self) -> (r: u32)
        ensures
            r == self@.half_moves,
    {
        self.half_moves
    }

    /// The komi used for flat-count adjudication.
    pub fn komi(&self) -> (r: Komi)
        ensures
            r == self@.komi,
    {
        self.komi
    }

    /// The Zobrist hash of the position.
    pub fn zobrist_hash(&self) -> (r: u64)
        ensures
            r == self@.hash,
    {
        self.hash
    }

    /// The flat-stone reserve of a color.
    pub fn stones_left(&self, color: Color) -> (r: u8)
        ensures
            r == self@.spec_stones_left(color),
    {
        match color {
            Color::White => self.white_stones_left,
            Color::Black => self.black_stones_left,
        }
    }

    /// The capstone reserve of a color.
    pub fn caps_left(&self, color: Color) -> (r: u8)
        ensures
            r == self@.spec_caps_left(color),
    {
        match color {
            Color::White => self.white_caps_left,
            Color::Black => self.black_caps_left,
        }
    }

    /// The stack on a square.
    pub fn get_stack(&self, sq: u8) -> (r: &Stack)
        requires
            (sq as int) < self@.board.len(),
        ensures
            r@ == self@.board[sq as int],
    {
        &self.board[sq as usize]
    }

    /// The moves played so far, oldest first.
    pub fn moves(&self) -> (r: &Vec<crate::moves::Move>)
        ensures
            r@.map_values(|m: crate::moves::Move| m@) == self@.history,
    {
        &self.history
    }

    /// The number of squares of the board.
    pub fn num_squares(&self) -> (r: u8)
        requires
            valid_size(self@.size as int),
        ensures
            r as int == self@.num_squares(),
    {
        proof {
            assert((self@.size as int) * (self@.size as int) <= 64) by (nonlinear_arith)
                requires
                    self@.size <= 8,
            ;
        }
        self.size * self.size
    }

    /// Recompute the Zobrist hash of the current board and side to move.
    pub(crate) fn compute_hash(&self) -> (r: u64)
        requires
            self@.board.len() <= 64,
            forall|q: int| 0 <= q < self@.board.len() ==> (#[trigger] self@.board[q]).len() <= 120,
        ensures
            r == spec_zobrist(self@.board, self@.to_move),
    {
        let ghost gboard = self@.board;
        let mut acc: u64 = 0;
        let n = self.board.len();
        let mut q: usize = 0;
        while q < n
            invariant
                q <= n,
                n <= 64,
                n == self.board.len(),
                gboard == self@.board,
                gboard.len() == n,
                forall|q2: int|
                    0 <= q2 < gboard.len() ==> (#[trigger] gboard[q2]).len() <= 120,
                acc == spec_board_hash_below(gboard, q as int),
            decreases n - q,
        {
            let stack = &self.board[q];
            proof {
                assert(gboard[q as int] == self.board@[q as int]@);
            }
            let h = stack.len();
            let mut acc2: u64 = 0;
            let mut i: usize = 0;
            while i < h
                invariant
                    i <= h,
                    h <= 120,
                    q < 64,
                    h == stack@.len(),
                    stack@ == gboard[q as int],
                    q < gboard.len(),
                    acc2 == spec_stack_hash(gboard[q as int].take(i as int), q as int),
                decreases h - i,
            {
                let piece = stack.get(i).unwrap();
                let code: u64 = (match piece.color {
                    Color::White => 0u64,
                    Color::Black => 3u64,
                }) + (piece.role.disc() as u64);
                let key = mix((q as u64) * 1024 + (i as u64) * 8 + code + 1);
                proof {
                    assert(gboard[q as int].take(i + 1).drop_last() =~= gboard[q as int].take(
                        i as int,
                    ));
                    assert(gboard[q as int].take(i + 1).last() == gboard[q as int][i as int]);
                }
                acc2 = acc2 ^ key;
                i = i + 1;
            }
            proof {
                assert(gboard[q as int].take(h as int) =~= gboard[q as int]);
            }
            acc = acc ^ acc2;
            q = q + 1;
        }
        acc ^ (match self.to_move {
            Color::White => mix(0xAAAA),
            Color::Black => mix(0x5555),
        })
    }

    /// The starting position at a given board size, with komi zero.
    pub fn start_position(size: u8) -> (r: Position)
        requires
            valid_size(size as int),
        ensures
            r@.wf(),
            r@.size == size,
            r@.to_move == Color::White,
            r@.half_moves == 0,
            r@.komi.spec_half_komi() == 0,
            r@.history =~= Seq::<MoveView>::empty(),
            forall|q: int| 0 <= q < r@.board.len() ==> (#[trigger] r@.board[q]).len() == 0,
    {
        Position::start_position_with_komi(size, Komi::default())
    }

    /// The starting position at a given board size and komi.
    pub fn start_position_with_komi(size: u8, komi: Komi) -> (r: Position)
        requires
            valid_size(size as int),
            Komi::valid_half_komi(komi.spec_half_komi()),
        ensures
            r@.wf(),
            r@.size == size,
            r@.to_move == Color::White,
            r@.half_moves == 0,
            r@.komi == komi,
            r@.history =~= Seq::<MoveView>::empty(),
            forall|q: int| 0 <= q < r@.board.len() ==> (#[trigger] r@.board[q]).len() == 0,
            r@.white_stones_left == spec_starting_stones(size as int),
            r@.white_caps_left == spec_starting_capstones(size as int),
            r@.black_stones_left == spec_starting_stones(size as int),
            r@.black_caps_left == spec_starting_capstones(size as int),
    {
        proof {
            assert((size as int) * (size as int) <= 64) by (nonlinear_arith)
                requires
                    size <= 8,
            ;
        }
        let n: usize = (size as usize) * (size as usize);
        let mut board: Vec<Stack> = Vec::new();
        let mut q: usize = 0;
        while q < n
            invariant
                q <= n,
                board@.len() == q,
                forall|i: int| 0 <= i < q ==> (#[trigger] board@[i])@.len() == 0,
            decreases n - q,
        {
            board.push(Stack::new());
            q = q + 1;
        }
        let stones = starting_stones(size);
        let caps = starting_capstones(size);
        let mut position = Position {
            size,
            board,
            to_move: Color::White,
            white_stones_left: stones,
            white_caps_left: caps,
            black_stones_left: stones,
            black_caps_left: caps,
            komi,
            half_moves: 0,
            history: Vec::new(),
            hash: 0,
        };
        let h = position.compute_hash();
        position.hash = h;
        proof {
            let state = position@;
            assert forall|q2: int| 0 <= q2 < state.board.len() implies (#[trigger] state.board[
            q2]).len() == 0 by {}
            lemma_count_board_empty(state.board, Color::White, false, state.board.len() as int);
            lemma_count_board_empty(state.board, Color::White, true, state.board.len() as int);
            lemma_count_board_empty(state.board, Color::Black, false, state.board.len() as int);
            lemma_count_board_empty(state.board, Color::Black, true, state.board.len() as int);
        }
        position
    }
}

/// A board of empty stacks holds no pieces.
proof fn lemma_count_board_empty(board: Seq<Seq<Piece>>, color: Color, caps: bool, n: int)
    requires
        forall|q: int| 0 <= q < board.len() ==> (#[trigger] board[q]).len() == 0,
        n <= board.len(),
    ensures
        count_board_below(board, color, caps, n) == 0,
    decreases n,
{
    if n > 0 {
        lemma_count_board_empty(board, color, caps, n - 1);
    }
}


impl Position {
    /// Swap the stack on one square for another, returning the old one.
    fn swap_stack(&mut self, sq: u8, st: Stack) -> (old_st: Stack)
        requires
            (sq as int) < old(self)@.board.len(),
        ensures
            final(self)@.board == old(self)@.board.update(sq as int, st@),
            old_st@ == old(self)@.board[sq as int],
            final(self)@.size == old(self)@.size,
            final(self)@.to_move == old(self)@.to_move,
            final(self)@.white_stones_left == old(self)@.white_stones_left,
            final(self)@.white_caps_left == old(self)@.white_caps_left,
            final(self)@.black_stones_left == old(self)@.black_stones_left,
            final(self)@.black_caps_left == old(self)@.black_caps_left,
            final(self)@.komi == old(self)@.komi,
            final(self)@.half_moves == old(self)@.half_moves,
            final(self)@.history == old(self)@.history,
            final(self)@.hash == old(self)@.hash,
    {
        let old_st = self.board.remove(sq as usize);
        self.board.insert(sq as usize, st);
        proof {
            assert(self.board@ =~= old(self).board@.update(sq as int, st));
            assert(self@.board =~~= old(self)@.board.update(sq as int, st@));
        }
        old_st
    }

    /// Lift the top `count` pieces off the stack on `sq`, leaving the
    /// rest of the position untouched.
    fn carry_from_board(&mut self, sq: u8, count: usize) -> (hand: Vec<Piece>)
        requires
            (sq as int) < old(self)@.board.len(),
            count <= old(self)@.board[sq as int].len(),
        ensures
            final(self)@.board == old(self)@.board.update(
                sq as int,
                old(self)@.board[sq as int].take(old(self)@.board[sq as int].len() - count),
            ),
            hand@ == old(self)@.board[sq as int].skip(
                old(self)@.board[sq as int].len() - count,
            ),
            final(self)@.size == old(self)@.size,
            final(self)@.to_move == old(self)@.to_move,
            final(self)@.white_stones_left == old(self)@.white_stones_left,
            final(self)@.white_caps_left == old(self)@.white_caps_left,
            final(self)@.black_stones_left == old(self)@.black_stones_left,
            final(self)@.black_caps_left == old(self)@.black_caps_left,
            final(self)@.komi == old(self)@.komi,
            final(self)@.half_moves == old(self)@.half_moves,
            final(self)@.history == old(self)@.history,
            final(self)@.hash == old(self)@.hash,
    {
        let mut st = self.swap_stack(sq, Stack::new());
        let hand = st.carry(count);
        let replaced = self.swap_stack(sq, st);
        proof {
            assert(self@.board =~~= old(self)@.board.update(
                sq as int,
                old(self)@.board[sq as int].take(old(self)@.board[sq as int].len() - count),
            ));
            assert(hand@ =~= old(self)@.board[sq as int].skip(
                old(self)@.board[sq as int].len() - count,
            ));
        }
        hand
    }

    /// Apply a legal move and return its undo token.
    ///
    /// The new position is exactly [`PosState::spec_do_move`] of the old
    /// one: it is well-formed again, and the returned token undoes the
    /// move (see [`PosState::lemma_reverse_move_restores`]).
    pub fn do_move(&mut self, mv: crate::moves::Move) -> (rev: crate::moves::ReverseMove)
        requires
            old(self)@.wf(),
            old(self)@.spec_legal_move(mv@),
            old(self)@.half_moves < HALF_MOVES_MAX,
        ensures
            final(self)@ == old(self)@.spec_do_move(mv@),
            final(self)@.wf(),
            final(self)@.size == old(self)@.size,
            rev@ == old(self)@.spec_rev_token(mv@),
            final(self)@.spec_undoable(rev@),
    {
        proof {
            old(self)@.lemma_do_move_wf(mv@);
        }
        match mv {
            crate::moves::Move::Place(role, sq) => self.do_place(role, sq),
            crate::moves::Move::Spread(sq, dir, sm) => self.do_spread(sq, dir, sm),
        }
    }

    /// Place a fresh piece on an empty square.
    #[verifier::rlimit(60)]
    fn do_place(&mut self, role: Role, sq: u8) -> (rev: crate::moves::ReverseMove)
        requires
            old(self)@.wf(),
            old(self)@.spec_legal_move(MoveView::Place(role, sq)),
            old(self)@.half_moves < HALF_MOVES_MAX,
        ensures
            final(self)@ == old(self)@.spec_do_move(MoveView::Place(role, sq)),
            rev@ == old(self)@.spec_rev_token(MoveView::Place(role, sq)),
    {
        proof {
            assert((self@.size as int) * (self@.size as int) <= 64) by (nonlinear_arith)
                requires
                    self@.size <= 8,
            ;
            old(self)@.lemma_do_move_wf(MoveView::Place(role, sq));
        }
        let ghost pre = self@;
        let ghost after = pre.spec_do_move(MoveView::Place(role, sq));
        let color = if self.half_moves < 2 {
            self.to_move.other()
        } else {
            self.to_move
        };
        if role == Role::Cap {
            match color {
                Color::White => {
                    self.white_caps_left = self.white_caps_left - 1;
                },
                Color::Black => {
                    self.black_caps_left = self.black_caps_left - 1;
                },
            }
        } else {
            match color {
                Color::White => {
                    self.white_stones_left = self.white_stones_left - 1;
                },
                Color::Black => {
                    self.black_stones_left = self.black_stones_left - 1;
                },
            }
        }
        let mut st = Stack::new();
        st.push(Piece::new(color, role));
        let old_st = self.swap_stack(sq, st);
        self.to_move = self.to_move.other();
        self.half_moves = self.half_moves + 1;
        self.history.push(crate::moves::Move::Place(role, sq));
        proof {
            assert(pre.board[sq as int].push(Piece { color, role }) =~= st@);
            assert(self@.board =~~= after.board);
            assert(self@.history =~= pre.history.push(MoveView::Place(role, sq)));
            assert forall|q: int| 0 <= q < self@.board.len() implies (#[trigger] self@.board[
            q]).len() <= 120 by {
                pre.lemma_stack_height_bound(q);
            }
        }
        let h = self.compute_hash();
        self.hash = h;
        proof {
            assert(self@ =~~= after);
        }
        crate::moves::ReverseMove::Place(sq)
    }

    /// Spread a stack: lift the top pieces and drop them square by
    /// square, flattening a wall with the final lone capstone drop.
    fn do_spread(&mut self, sq: u8, dir: Direction, sm: crate::moves::StackMovement) -> (rev:
        crate::moves::ReverseMove)
        requires
            old(self)@.wf(),
            old(self)@.spec_legal_move(MoveView::Spread(sq, dir, sm@)),
            old(self)@.half_moves < HALF_MOVES_MAX,
        ensures
            final(self)@ == old(self)@.spec_do_move(MoveView::Spread(sq, dir, sm@)),
            rev@ == old(self)@.spec_rev_token(MoveView::Spread(sq, dir, sm@)),
    {
        let ghost pre = self@;
        let ghost mview = MoveView::Spread(sq, dir, sm@);
        let ghost after = pre.spec_do_move(mview);
        let sm_copy = sm.duplicate();
        let flattened = self.spread_board(sq, dir, &sm);
        self.to_move = self.to_move.other();
        self.half_moves = self.half_moves + 1;
        self.history.push(crate::moves::Move::Spread(sq, dir, sm));
        proof {
            assert(self@.history =~= pre.history.push(mview));
            assert((pre.size as int) * (pre.size as int) <= 64) by (nonlinear_arith)
                requires
                    pre.size <= 8,
            ;
        }
        let h = self.compute_hash();
        self.hash = h;
        proof {
            assert(self@ =~~= after);
        }
        crate::moves::ReverseMove::Spread(sq, dir, sm_copy, flattened)
    }

    /// The board transformation of a spread: lift the top pieces of the
    /// origin square and drop them along the direction. Reserves, side
    /// to move, ply counter, history and hash are untouched.
    #[verifier::rlimit(100)]
    fn spread_board(&mut self, sq: u8, dir: Direction, sm: &crate::moves::StackMovement) -> (
        flattened: bool)
        requires
            old(self)@.wf(),
            old(self)@.spec_legal_move(MoveView::Spread(sq, dir, sm@)),
        ensures
            final(self)@.board == old(self)@.spec_do_move(MoveView::Spread(sq, dir, sm@)).board,
            final(self)@.size == old(self)@.size,
            final(self)@.to_move == old(self)@.to_move,
            final(self)@.white_stones_left == old(self)@.white_stones_left,
            final(self)@.white_caps_left == old(self)@.white_caps_left,
            final(self)@.black_stones_left == old(self)@.black_stones_left,
            final(self)@.black_caps_left == old(self)@.black_caps_left,
            final(self)@.komi == old(self)@.komi,
            final(self)@.half_moves == old(self)@.half_moves,
            final(self)@.history == old(self)@.history,
            old(self)@.spec_rev_token(MoveView::Spread(sq, dir, sm@)) == ReverseMoveView::Spread(
                sq,
                dir,
                sm@,
                flattened,
            ),
            forall|q: int|
                0 <= q < final(self)@.board.len() ==> (#[trigger] final(self)@.board[q]).len()
                    <= 120,
            final(self)@.board.len() == old(self)@.board.len(),
    {
        let ghost pre = self@;
        let ghost origin = pre.board[sq as int];
        let ghost keep = origin.len() - sm@.pieces_to_take;
        let ghost cap_top = origin.last().role == Role::Cap;
        proof {
            crate::makemove::lemma_spread_prologue(pre, sq, dir, sm@);
            assert forall|q: int| 0 <= q < pre.board.len() implies (#[trigger] pre.board[q]).len()
                <= TOTAL_PIECES_MAX by {
                pre.lemma_stack_height_bound(q);
            }
        }
        let hand: Vec<Piece> = self.carry_from_board(sq, sm.pieces_to_take as usize);
        let ghost bstart = self@.board;
        let ghost hand0 = hand@;
        let ghost dseq = sm@.drops;
        let n = sm.drops.len();
        // Whether the final drop will flatten a wall is known up front.
        let end_sq = crate::square::jump_direction(sq, self.size, dir, n as u8).unwrap();
        proof {
            assert((end_sq as int) < self@.board.len());
        }
        let last_stack = self.get_stack(end_sq);
        let flattened = sm.drops[n - 1] == 1 && {
            let lone = hand[hand.len() - 1];
            lone.role == Role::Cap
        } && last_stack.len() > 0 && {
            let top = last_stack.get(last_stack.len() - 1).unwrap();
            top.role == Role::Wall
        };
        proof {
            assert(dseq[n - 1] == dseq.last());
            assert(hand0[hand0.len() - 1] == hand0.last());
            assert(flattened == crate::makemove::spec_spread_flattens(
                bstart,
                pre.size,
                sq as int,
                dir,
                hand0,
                dseq,
            ));
        }
        self.drop_walk(sq, dir, sm, hand, Ghost(cap_top));
        flattened
    }

    /// Walk the spread's path, dropping pieces of the hand on each
    /// square in turn.
    #[verifier::rlimit(100)]
    fn drop_walk(
        &mut self,
        sq: u8,
        dir: Direction,
        sm: &crate::moves::StackMovement,
        hand: Vec<Piece>,
        Ghost(cap_top): Ghost<bool>,
    )
        requires
            valid_size(old(self)@.size as int),
            valid_square(sq as int, old(self)@.size as int),
            old(self)@.board.len() == (old(self)@.size as int) * (old(self)@.size as int),
            sm@.drops.len() >= 1,
            crate::makemove::spec_drops_ok(
                old(self)@.board,
                old(self)@.size,
                sq as int,
                dir,
                hand@.len() as int,
                cap_top,
                sm@.drops,
            ),
            forall|q: int|
                0 <= q < old(self)@.board.len() ==> (#[trigger] old(self)@.board[q]).len()
                    + hand@.len() <= 120,
        ensures
            final(self)@.board == crate::makemove::spec_do_drops(
                old(self)@.board,
                old(self)@.size,
                sq as int,
                dir,
                hand@,
                sm@.drops,
            ),
            final(self)@.size == old(self)@.size,
            final(self)@.to_move == old(self)@.to_move,
            final(self)@.white_stones_left == old(self)@.white_stones_left,
            final(self)@.white_caps_left == old(self)@.white_caps_left,
            final(self)@.black_stones_left == old(self)@.black_stones_left,
            final(self)@.black_caps_left == old(self)@.black_caps_left,
            final(self)@.komi == old(self)@.komi,
            final(self)@.half_moves == old(self)@.half_moves,
            final(self)@.history == old(self)@.history,
            final(self)@.hash == old(self)@.hash,
            forall|q: int|
                0 <= q < final(self)@.board.len() ==> (#[trigger] final(self)@.board[q]).len()
                    <= 120,
            final(self)@.board.len() == old(self)@.board.len(),
    {
        let ghost pre = self@;
        let ghost dseq = sm@.drops;
        let ghost fboard = crate::makemove::spec_do_drops(
            pre.board,
            pre.size,
            sq as int,
            dir,
            hand@,
            dseq,
        );
        let mut hand = hand;
        let n = sm.drops.len();
        let mut cur: u8 = sq;
        let mut i: usize = 0;
        proof {
            assert(dseq.skip(0) =~= dseq);
        }
        while i < n
            invariant
                i <= n,
                n == dseq.len(),
                sm@.drops == dseq,
                valid_size(pre.size as int),
                valid_square(cur as int, pre.size as int),
                self@.size == pre.size,
                self@.board.len() == (pre.size as int) * (pre.size as int),
                self@.to_move == pre.to_move,
                self@.white_stones_left == pre.white_stones_left,
                self@.white_caps_left == pre.white_caps_left,
                self@.black_stones_left == pre.black_stones_left,
                self@.black_caps_left == pre.black_caps_left,
                self@.komi == pre.komi,
                self@.half_moves == pre.half_moves,
                self@.history == pre.history,
                self@.hash == pre.hash,
                crate::makemove::spec_drops_ok(
                    self@.board,
                    pre.size,
                    cur as int,
                    dir,
                    hand@.len() as int,
                    cap_top,
                    dseq.skip(i as int),
                ),
                fboard == crate::makemove::spec_do_drops(
                    self@.board,
                    pre.size,
                    cur as int,
                    dir,
                    hand@,
                    dseq.skip(i as int),
                ),
                forall|q: int|
                    0 <= q < self@.board.len() ==> (#[trigger] self@.board[q]).len() + hand@.len()
                        <= 120,
            decreases n - i,
        {
            let ghost board_old = self@.board;
            let ghost hand_old = hand@;
            let d = sm.drops[i];
            proof {
                crate::makemove::lemma_spread_step(
                    board_old,
                    pre.size,
                    cur as int,
                    dir,
                    hand_old,
                    dseq.skip(i as int),
                    cap_top,
                );
                assert(dseq.skip(i as int)[0] == dseq[i as int]);
                assert(1 <= d as int <= hand@.len());
            }
            let next = go_direction(cur, self.size, dir).unwrap();
            let mut target = self.swap_stack(next, Stack::new());
            let ghost tview = target@;
            let flatten_now = i + 1 == n && hand.len() == 1 && {
                let lone = hand[0];
                lone.role == Role::Cap && target.len() > 0 && {
                    let top = target.get(target.len() - 1).unwrap();
                    top.role == Role::Wall
                }
            };
            proof {
                assert(flatten_now == crate::makemove::spec_flatten_here(
                    tview,
                    hand_old,
                    dseq.skip(i as int),
                ));
            }
            if flatten_now {
                target.set_top_role(Role::Flat);
            }
            target.drop_pieces(&mut hand, d as usize);
            let replaced2 = self.swap_stack(next, target);
            proof {
                let ghost target2 = if crate::makemove::spec_flatten_here(
                    tview,
                    hand_old,
                    dseq.skip(i as int),
                ) {
                    crate::makemove::retop(tview, Role::Flat)
                } else {
                    tview
                };
                assert(self@.board[next as int] =~= target2 + hand_old.take(d as int));
                assert(self@.board =~~= board_old.update(
                    next as int,
                    target2 + hand_old.take(d as int),
                ));
                assert(hand@ =~= hand_old.skip(d as int));
                assert(dseq.skip(i as int).drop_first() =~= dseq.skip(i + 1));
            }
            cur = next;
            i = i + 1;
        }
        proof {
            assert(dseq.skip(n as int) =~= Seq::<u8>::empty());
            assert(hand@.len() == 0);
            assert(self@.board == fboard);
        }
    }
}


impl Position {
    /// Undo the most recent move using its token, restoring the previous
    /// position exactly (see [`PosState::lemma_reverse_move_restores`]).
    pub fn reverse_move(&mut self, rev: crate::moves::ReverseMove)
        requires
            old(self)@.wf(),
            old(self)@.spec_undoable(rev@),
        ensures
            final(self)@ == old(self)@.spec_undo(rev@),
    {
        match rev {
            crate::moves::ReverseMove::Place(sq) => self.undo_place(sq),
            crate::moves::ReverseMove::Spread(sq, dir, sm, flattened) => self.undo_spread(
                sq,
                dir,
                sm,
                flattened,
            ),
        }
    }

    /// Take a placed piece back off the board and return it to its
    /// reserve.
    #[verifier::rlimit(60)]
    fn undo_place(&mut self, sq: u8)
        requires
            old(self)@.wf(),
            old(self)@.spec_undoable(ReverseMoveView::Place(sq)),
        ensures
            final(self)@ == old(self)@.spec_undo(ReverseMoveView::Place(sq)),
    {
        proof {
            assert((self@.size as int) * (self@.size as int) <= 64) by (nonlinear_arith)
                requires
                    self@.size <= 8,
            ;
            lemma_count_board_below_nonneg(
                self@.board,
                Color::White,
                false,
                self@.board.len() as int,
            );
            lemma_count_board_below_nonneg(
                self@.board,
                Color::White,
                true,
                self@.board.len() as int,
            );
            lemma_count_board_below_nonneg(
                self@.board,
                Color::Black,
                false,
                self@.board.len() as int,
            );
            lemma_count_board_below_nonneg(
                self@.board,
                Color::Black,
                true,
                self@.board.len() as int,
            );
        }
        let ghost pre = self@;
        let ghost after = pre.spec_undo(ReverseMoveView::Place(sq));
        let mut st = self.swap_stack(sq, Stack::new());
        let piece = st.pop();
        let replaced = self.swap_stack(sq, st);
        if piece.role == Role::Cap {
            match piece.color {
                Color::White => {
                    self.white_caps_left = self.white_caps_left + 1;
                },
                Color::Black => {
                    self.black_caps_left = self.black_caps_left + 1;
                },
            }
        } else {
            match piece.color {
                Color::White => {
                    self.white_stones_left = self.white_stones_left + 1;
                },
                Color::Black => {
                    self.black_stones_left = self.black_stones_left + 1;
                },
            }
        }
        self.to_move = self.to_move.other();
        self.half_moves = self.half_moves - 1;
        let dropped = self.history.pop();
        proof {
            assert(self@.board =~~= after.board);
            assert(self@.history =~= pre.history.drop_last());
            assert forall|q: int| 0 <= q < self@.board.len() implies (#[trigger] self@.board[
            q]).len() <= 120 by {
                pre.lemma_stack_height_bound(q);
                assert(self@.board[q].len() <= pre.board[q].len());
            }
        }
        let h = self.compute_hash();
        self.hash = h;
        proof {
            assert(self@ =~~= after);
        }
    }

    /// Pick the spread's dropped pieces back up and put them back on the
    /// origin square, restoring a flattened wall on the way.
    #[verifier::rlimit(100)]
    fn undo_spread(
        &mut self,
        sq: u8,
        dir: Direction,
        sm: crate::moves::StackMovement,
        flattened: bool,
    )
        requires
            old(self)@.wf(),
            old(self)@.spec_undoable(ReverseMoveView::Spread(sq, dir, sm@, flattened)),
        ensures
            final(self)@ == old(self)@.spec_undo(ReverseMoveView::Spread(sq, dir, sm@, flattened)),
    {
        proof {
            assert((self@.size as int) * (self@.size as int) <= 64) by (nonlinear_arith)
                requires
                    self@.size <= 8,
            ;
        }
        let ghost pre = self@;
        let ghost rview = ReverseMoveView::Spread(sq, dir, sm@, flattened);
        let ghost after = pre.spec_undo(rview);
        let ghost dseq = sm@.drops;
        let ghost undone = crate::makemove::spec_undo_drops(
            pre.board,
            pre.size,
            sq as int,
            dir,
            dseq,
            flattened,
        );
        proof {
            assert forall|q: int| 0 <= q < pre.board.len() implies (#[trigger] pre.board[q]).len()
                <= TOTAL_PIECES_MAX by {
                pre.lemma_stack_height_bound(q);
            }
            crate::makemove::lemma_sum_drops_nonneg(dseq);
        }
        let n = sm.drops.len();
        let mut hand: Vec<Piece> = Vec::new();
        let mut cur: u8 = sq;
        let mut i: usize = 0;
        proof {
            assert(dseq.skip(0) =~= dseq);
            assert(hand@ + crate::makemove::spec_undo_drops(
                self@.board,
                pre.size,
                cur as int,
                dir,
                dseq.skip(0),
                flattened,
            ).1 =~= undone.1);
        }
        while i < n
            invariant
                i <= n,
                n == dseq.len(),
                sm@.drops == dseq,
                valid_size(pre.size as int),
                valid_square(cur as int, pre.size as int),
                self@.size == pre.size,
                self@.board.len() == (pre.size as int) * (pre.size as int),
                self@.to_move == pre.to_move,
                self@.white_stones_left == pre.white_stones_left,
                self@.white_caps_left == pre.white_caps_left,
                self@.black_stones_left == pre.black_stones_left,
                self@.black_caps_left == pre.black_caps_left,
                self@.komi == pre.komi,
                self@.half_moves == pre.half_moves,
                self@.history == pre.history,
                self@.hash == pre.hash,
                crate::makemove::spec_undo_drops_ok(
                    self@.board,
                    pre.size,
                    cur as int,
                    dir,
                    dseq.skip(i as int),
                    flattened,
                ),
                crate::makemove::spec_undo_drops(
                    self@.board,
                    pre.size,
                    cur as int,
                    dir,
                    dseq.skip(i as int),
                    flattened,
                ).0 == undone.0,
                hand@ + crate::makemove::spec_undo_drops(
                    self@.board,
                    pre.size,
                    cur as int,
                    dir,
                    dseq.skip(i as int),
                    flattened,
                ).1 == undone.1,
                hand@.len() + crate::makemove::sum_drops(dseq.skip(i as int))
                    == crate::makemove::sum_drops(dseq),
                crate::makemove::sum_drops(dseq) <= 8,
                forall|q: int|
                    0 <= q < self@.board.len() ==> (#[trigger] self@.board[q]).len()
                        <= TOTAL_PIECES_MAX,
            decreases n - i,
        {
            let ghost board_old = self@.board;
            let ghost hand_old = hand@;
            let d = sm.drops[i];
            proof {
                assert(dseq.skip(i as int)[0] == dseq[i as int]);
                crate::makemove::lemma_sum_drops_skip_step(dseq, i as int);
                crate::makemove::lemma_sum_drops_nonneg(dseq.skip(i + 1));
            }
            let next = go_direction(cur, self.size, dir).unwrap();
            let mut target = self.swap_stack(next, Stack::new());
            let ghost tview = target@;
            let mut chunk = target.carry(d as usize);
            if i + 1 == n && flattened {
                target.set_top_role(Role::Wall);
            }
            hand.append(&mut chunk);
            let replaced = self.swap_stack(next, target);
            proof {
                let ghost st1 = tview.take(tview.len() - d);
                let ghost st2 = if dseq.skip(i as int).len() == 1 && flattened {
                    crate::makemove::retop(st1, Role::Wall)
                } else {
                    st1
                };
                assert(target@ =~= st2);
                assert(self@.board =~~= board_old.update(next as int, st2));
                assert(chunk@ == Seq::<Piece>::empty());
                assert(hand@ =~= hand_old + tview.skip(tview.len() - d));
                assert(dseq.skip(i as int).drop_first() =~= dseq.skip(i + 1));
                crate::makemove::lemma_undo_ok_path(
                    board_old,
                    pre.size,
                    cur as int,
                    dir,
                    dseq.skip(i as int),
                    flattened,
                );
                crate::makemove::lemma_path_shift(
                    pre.size,
                    cur as int,
                    dir,
                    dseq.skip(i as int).len() as int,
                );
                crate::makemove::lemma_not_on_own_path(
                    pre.size,
                    next as int,
                    dir,
                    dseq.skip(i as int).len() - 1,
                );
                crate::makemove::lemma_undo_drops_update_off_path(
                    board_old,
                    pre.size,
                    next as int,
                    dir,
                    dseq.skip(i + 1),
                    flattened,
                    next as int,
                    st2,
                );
                let ghost rest = crate::makemove::spec_undo_drops(
                    board_old,
                    pre.size,
                    next as int,
                    dir,
                    dseq.skip(i + 1),
                    flattened,
                );
                assert(crate::makemove::spec_undo_drops(
                    self@.board,
                    pre.size,
                    next as int,
                    dir,
                    dseq.skip(i + 1),
                    flattened,
                ).0 == rest.0.update(next as int, st2));
                assert(hand@ + crate::makemove::spec_undo_drops(
                    self@.board,
                    pre.size,
                    next as int,
                    dir,
                    dseq.skip(i + 1),
                    flattened,
                ).1 =~= (hand_old + (tview.skip(tview.len() - d) + rest.1)));
            }
            cur = next;
            i = i + 1;
        }
        proof {
            assert(dseq.skip(n as int) =~= Seq::<u8>::empty());
            assert(self@.board == undone.0);
            assert(hand@ + Seq::<Piece>::empty() =~= hand@);
            assert(hand@ == undone.1);
            assert(hand@.len() <= 8);
        }
        let mut st = self.swap_stack(sq, Stack::new());
        let count = hand.len();
        st.drop_pieces(&mut hand, count);
        let replaced = self.swap_stack(sq, st);
        self.to_move = self.to_move.other();
        self.half_moves = self.half_moves - 1;
        let dropped = self.history.pop();
        proof {
            assert(undone.0[sq as int] + undone.1.take(count as int) =~= undone.0[sq as int]
                + undone.1);
            assert(self@.board =~~= after.board);
            assert(self@.history =~= pre.history.drop_last());
            assert forall|q: int| 0 <= q < self@.board.len() implies (#[trigger] self@.board[
            q]).len() <= 120 by {}
        }
        let h = self.compute_hash();
        self.hash = h;
        proof {
            assert(self@ =~~= after);
        }
    }
}

impl Position {
    /// An identical copy of the position.
    pub fn duplicate(&self) -> (r: Position)
        ensures
            r@ == self@,
    {
        let mut board: Vec<Stack> = Vec::new();
        let mut q: usize = 0;
        while q < self.board.len()
            invariant
                q <= self.board@.len(),
                board@.len() == q,
                forall|j: int| 0 <= j < q as int ==> (#[trigger] board@[j])@ == self.board@[j]@,
            decreases self.board@.len() - q,
        {
            board.push(self.board[q].duplicate());
            q = q + 1;
        }
        let mut history: Vec<crate::moves::Move> = Vec::new();
        let mut i: usize = 0;
        while i < self.history.len()
            invariant
                i <= self.history@.len(),
                history@.len() == i,
                forall|j: int| 0 <= j < i as int ==> (#[trigger] history@[j])@ == self.history@[j]@,
            decreases self.history@.len() - i,
        {
            history.push(self.history[i].duplicate());
            i = i + 1;
        }
        let r = Position {
            size: self.size,
            board,
            to_move: self.to_move,
            white_stones_left: self.white_stones_left,
            white_caps_left: self.white_caps_left,
            black_stones_left: self.black_stones_left,
            black_caps_left: self.black_caps_left,
            komi: self.komi,
            half_moves: self.half_moves,
            history,
            hash: self.hash,
        };
        proof {
            assert(r@.board =~~= self@.board);
            assert(r@.history =~= self@.history);
            assert(r@ =~~= self@);
        }
        r
    }

    /// Count the leaf nodes of the full game tree to the given depth by
    /// making and unmaking every legal move, saturating on overflow.
    pub fn perft(&mut self, depth: u8) -> (r: u64)
        requires
            old(self)@.wf(),
            old(self)@.half_moves + depth < HALF_MOVES_MAX,
        ensures
            final(self)@ == old(self)@,
            depth == 0 ==> r == 1,
            depth >= 1 && old(self)@.spec_game_result() is Some ==> r == 0,
        decreases depth,
    {
        if depth == 0 {
            return 1;
        }
        if self.game_result().is_some() {
            return 0;
        }
        let mut moves: Vec<crate::moves::Move> = Vec::new();
        self.generate_moves(&mut moves);
        let mut total: u64 = 0;
        let mut i: usize = 0;
        while i < moves.len()
            invariant
                i <= moves@.len(),
                self@.wf(),
                self@ == old(self)@,
                self@.half_moves + depth < HALF_MOVES_MAX,
                depth >= 1,
                forall|j: int|
                    0 <= j < moves@.len() ==> self@.spec_legal_move(#[trigger] moves@[j]@),
            decreases moves@.len() - i,
        {
            let mv = moves[i].duplicate();
            proof {
                self@.lemma_reverse_move_restores(mv@);
            }
            let ghost before = self@;
            let rev = self.do_move(mv);
            let sub = self.perft(depth - 1);
            self.reverse_move(rev);
            proof {
                assert(self@ == before);
            }
            total = total.saturating_add(sub);
            i = i + 1;
        }
        total
    }

    /// Count the leaf nodes of the game tree to the given depth, using
    /// the move count directly at the last level.
    pub fn bulk_perft(&mut self, depth: u8) -> (r: u64)
        requires
            old(self)@.wf(),
            old(self)@.half_moves + depth < HALF_MOVES_MAX,
        ensures
            final(self)@ == old(self)@,
            depth == 0 ==> r == 1,
            depth >= 1 && old(self)@.spec_game_result() is Some ==> r == 0,
        decreases depth,
    {
        if depth == 0 {
            return 1;
        }
        if self.game_result().is_some() {
            return 0;
        }
        let mut moves: Vec<crate::moves::Move> = Vec::new();
        self.generate_moves(&mut moves);
        if depth == 1 {
            return moves.len() as u64;
        }
        let mut total: u64 = 0;
        let mut i: usize = 0;
        while i < moves.len()
            invariant
                i <= moves@.len(),
                self@.wf(),
                self@ == old(self)@,
                self@.half_moves + depth < HALF_MOVES_MAX,
                depth >= 2,
                forall|j: int|
                    0 <= j < moves@.len() ==> self@.spec_legal_move(#[trigger] moves@[j]@),
            decreases moves@.len() - i,
        {
            let mv = moves[i].duplicate();
            proof {
                self@.lemma_reverse_move_restores(mv@);
            }
            let ghost before = self@;
            let rev = self.do_move(mv);
            let sub = self.bulk_perft(depth - 1);
            self.reverse_move(rev);
            proof {
                assert(self@ == before);
            }
            total = total.saturating_add(sub);
            i = i + 1;
        }
        total
    }

    /// The flat-count delta a move causes, from the mover's point of
    /// view: how many more flat tops the mover owns after the move.
    pub fn fcd_for_move(&self, mv: &crate::moves::Move) -> (r: i8)
        requires
            self@.wf(),
            self@.spec_legal_move(mv@),
            self@.half_moves < HALF_MOVES_MAX,
        ensures
            r as int == crate::road::count_flat_tops(
                self@.spec_do_move(mv@).board,
                self@.to_move,
                self@.num_squares(),
            ) - crate::road::count_flat_tops(self@.board, self@.to_move, self@.num_squares()),
    {
        let us = self.side_to_move();
        let before = self.count_flats_pub(us);
        let mut scratch = self.duplicate();
        proof {
            self@.lemma_do_move_wf(mv@);
        }
        let _ = scratch.do_move(mv.duplicate());
        let after = scratch.count_flats_pub(us);
        proof {
            crate::road::lemma_count_flat_tops_bound(self@.board, us, self@.num_squares());
            crate::road::lemma_count_flat_tops_bound(
                self@.spec_do_move(mv@).board,
                us,
                self@.num_squares(),
            );
        }
        (after as i8) - (before as i8)
    }
}
} // verus!
