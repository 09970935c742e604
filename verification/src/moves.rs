//! Moves and undo tokens.
//!
//! A move either places a fresh piece on an empty square or spreads an
//! existing stack: it lifts the top `take` pieces and drops at least one
//! piece on each of the following squares in one direction.

use crate::piece::Role;
use crate::square::Direction;
use vstd::prelude::*;

verus! {

/// The drop pattern of a spread: how many pieces are taken, and how many
/// are dropped on each successive square.
#[derive(Clone, Debug, PartialEq, Eq)]
pub struct StackMovement {
    /// How many pieces the spread lifts from the origin square.
    pub pieces_to_take: u8,
    /// The number of pieces dropped on each visited square, in order.
    /// Every entry is at least 1 and the entries sum to `pieces_to_take`.
    pub drops: Vec<u8>,
}

/// The ghost value of a [`StackMovement`].
#[verifier::ext_equal]
pub ghost struct StackMovementView {
    pub pieces_to_take: u8,
    pub drops: Seq<u8>,
}

impl View for StackMovement {
    type V = StackMovementView;

    open spec fn view(&self) -> StackMovementView {
        StackMovementView { pieces_to_take: self.pieces_to_take, drops: self.drops@ }
    }
}

impl StackMovement {
    /// The number of squares the spread drops pieces on.
    pub fn len(&self) -> (r: usize)
        ensures
            r == self@.drops.len(),
    {
        self.drops.len()
    }

    /// The number of pieces the spread lifts from the origin square.
    pub fn pieces_taken(&self) -> (r: u8)
        ensures
            r == self@.pieces_to_take,
    {
        self.pieces_to_take
    }
}

impl StackMovement {
    /// An identical copy of the drop pattern.
    pub fn duplicate(&self) -> (r: StackMovement)
        ensures
            r@ == self@,
    {
        let mut drops: Vec<u8> = Vec::new();
        let mut i: usize = 0;
        while i < self.drops.len()
            invariant
                i <= self.drops@.len(),
                drops@ =~= self.drops@.take(i as int),
            decreases self.drops@.len() - i,
        {
            drops.push(self.drops[i]);
            i = i + 1;
        }
        proof {
            assert(drops@ =~= self.drops@);
        }
        StackMovement { pieces_to_take: self.pieces_to_take, drops }
    }
}

/// A legal action: place a fresh piece, or spread a stack.
#[derive(Clone, Debug, PartialEq, Eq)]
pub enum Move {
    /// Put a new piece of the given role on an empty square.
    Place(Role, u8),
    /// Spread the stack on a square in a direction with a drop pattern.
    Spread(u8, Direction, StackMovement),
}

/// The ghost value of a [`Move`].
#[verifier::ext_equal]
pub ghost enum MoveView {
    Place(Role, u8),
    Spread(u8, Direction, StackMovementView),
}

impl View for Move {
    type V = MoveView;

    open spec fn view(&self) -> MoveView {
        match self {
            Move::Place(role, sq) => MoveView::Place(*role, *sq),
            Move::Spread(sq, dir, sm) => MoveView::Spread(*sq, *dir, sm@),
        }
    }
}

impl Move {
    /// An identical copy of the move.
    pub fn duplicate(&self) -> (r: Move)
        ensures
            r@ == self@,
    {
        match self {
            Move::Place(role, sq) => Move::Place(*role, *sq),
            Move::Spread(sq, dir, sm) => Move::Spread(*sq, *dir, sm.duplicate()),
        }
    }

    /// The square the move acts on: the placement square, or the origin
    /// of the spread.
    pub fn origin_square(&self) -> (r: u8)
        ensures
            r == self@.spec_origin_square(),
    {
        match self {
            Move::Place(_, sq) => *sq,
            Move::Spread(sq, _, _) => *sq,
        }
    }
}

impl MoveView {
    /// The square the move acts on.
    pub open spec fn spec_origin_square(self) -> u8 {
        match self {
            MoveView::Place(_, sq) => sq,
            MoveView::Spread(sq, _, _) => sq,
        }
    }
}

/// The undo token returned by a move, with everything `reverse_move`
/// needs: the move's shape, and whether a spread flattened a wall on its
/// final square.
#[derive(Clone, Debug, PartialEq, Eq)]
pub enum ReverseMove {
    /// Undo a placement on the given square.
    Place(u8),
    /// Undo a spread: origin, direction, drop pattern, and whether the
    /// final drop flattened a wall.
    Spread(u8, Direction, StackMovement, bool),
}

/// The ghost value of a [`ReverseMove`].
#[verifier::ext_equal]
pub ghost enum ReverseMoveView {
    Place(u8),
    Spread(u8, Direction, StackMovementView, bool),
}

impl View for ReverseMove {
    type V = ReverseMoveView;

    open spec fn view(&self) -> ReverseMoveView {
        match self {
            ReverseMove::Place(sq) => ReverseMoveView::Place(*sq),
            ReverseMove::Spread(sq, dir, sm, flattened) => ReverseMoveView::Spread(
                *sq,
                *dir,
                sm@,
                *flattened,
            ),
        }
    }
}

} // verus!
