//! A stack (tower) of pieces on one square.
//!
//! Pieces are kept bottom to top; the controlling player of a stack is the
//! color of its top piece. Only the top piece of a stack can be a wall or
//! a capstone; everything underneath is flat.

use crate::piece::{Piece, Role};
use vstd::prelude::*;

verus! {

/// A tower of pieces at one square, ordered bottom to top.
#[derive(Clone, Debug, PartialEq, Eq)]
pub struct Stack {
    pieces: Vec<Piece>,
}

impl Stack {
    /// The pieces of the stack, bottom to top, for specifications.
    pub closed spec fn view(self) -> Seq<Piece> {
        self.pieces@
    }

    /// An empty stack.
    pub fn new() -> (r: Stack)
        ensures
            r@ =~= Seq::<Piece>::empty(),
    {
        Stack { pieces: Vec::new() }
    }

    /// The height of the stack.
    pub fn len(&self) -> (r: usize)
        ensures
            r == self@.len(),
    {
        self.pieces.len()
    }

    /// Whether the stack holds no pieces.
    pub fn is_empty(&self) -> (r: bool)
        ensures
            r == (self@.len() == 0),
    {
        self.pieces.len() == 0
    }

    /// The top piece, or `None` for an empty stack.
    pub fn top_stone(&self) -> (r: Option<Piece>)
        ensures
            self@.len() == 0 ==> r is None,
            self@.len() > 0 ==> r == Option::Some(self@.last()),
    {
        if self.pieces.len() == 0 {
            None
        } else {
            Some(self.pieces[self.pieces.len() - 1])
        }
    }

    /// The piece at height `i` (0 is the bottom), or `None` above the top.
    pub fn get(&self, i: usize) -> (r: Option<Piece>)
        ensures
            i < self@.len() ==> r == Option::Some(self@[i as int]),
            i >= self@.len() ==> r is None,
    {
        if i < self.pieces.len() {
            Some(self.pieces[i])
        } else {
            None
        }
    }

    /// Put a piece on top of the stack.
    pub fn push(&mut self, piece: Piece)
        requires
            old(self)@.len() < 1000,
        ensures
            final(self)@ =~= old(self)@.push(piece),
    {
        self.pieces.push(piece);
    }

    /// Take the top piece off the stack.
    pub fn pop(&mut self) -> (r: Piece)
        requires
            old(self)@.len() > 0,
        ensures
            r == old(self)@.last(),
            final(self)@ =~= old(self)@.drop_last(),
    {
        let r = self.pieces.pop().unwrap();
        r
    }

    /// Replace the role of the top piece, keeping its color. Used when a
    /// capstone flattens a wall, and to undo that flattening.
    pub fn set_top_role(&mut self, role: Role)
        requires
            old(self)@.len() > 0,
        ensures
            final(self)@ =~= old(self)@.update(
                old(self)@.len() - 1,
                Piece { color: old(self)@.last().color, role },
            ),
    {
        let i = self.pieces.len() - 1;
        let color = self.pieces[i].color;
        self.pieces.set(i, Piece { color, role });
    }

    /// Lift the top `count` pieces off the stack, preserving their order.
    /// The result holds the carried pieces bottom to top.
    pub fn carry(&mut self, count: usize) -> (hand: Vec<Piece>)
        requires
            count <= old(self)@.len(),
        ensures
            final(self)@ =~= old(self)@.take(old(self)@.len() - count),
            hand@ =~= old(self)@.skip(old(self)@.len() - count),
    {
        let split = self.pieces.len() - count;
        let hand = self.pieces.split_off(split);
        hand
    }

    /// An identical copy of the stack.
    pub fn duplicate(&self) -> (r: Stack)
        ensures
            r@ == self@,
    {
        let mut pieces: Vec<Piece> = Vec::new();
        let mut i: usize = 0;
        while i < self.pieces.len()
            invariant
                i <= self.pieces@.len(),
                pieces@ =~= self.pieces@.take(i as int),
            decreases self.pieces@.len() - i,
        {
            pieces.push(self.pieces[i]);
            i = i + 1;
        }
        proof {
            assert(pieces@ =~= self.pieces@);
        }
        Stack { pieces }
    }

    /// Drop the bottom `count` pieces of `hand` onto the stack, preserving
    /// their order.
    pub fn drop_pieces(&mut self, hand: &mut Vec<Piece>, count: usize)
        requires
            count <= old(hand)@.len(),
            old(self)@.len() + count <= 1000,
        ensures
            final(self)@ =~= old(self)@ + old(hand)@.take(count as int),
            final(hand)@ =~= old(hand)@.skip(count as int),
    {
        let mut i: usize = 0;
        while i < count
            invariant
                i <= count,
                count <= old(hand)@.len(),
                old(self)@.len() + count <= 1000,
                self@ =~= old(self)@ + old(hand)@.take(i as int),
                hand@ =~= old(hand)@.skip(i as int),
            decreases count - i,
        {
            let piece = hand.remove(0);
            self.pieces.push(piece);
            i = i + 1;
            proof {
                assert(self@ =~= old(self)@ + old(hand)@.take(i as int));
                assert(hand@ =~= old(hand)@.skip(i as int));
            }
        }
    }
}

} // verus!
