//! Colors, roles and pieces.

use vstd::prelude::*;

verus! {

/// The two players.
#[derive(Clone, Copy, Debug, PartialEq, Eq, Structural)]
pub enum Color {
    White,
    Black,
}

impl Color {
    /// The other player.
    pub fn other(self) -> (r: Color)
        ensures
            r == self.spec_other(),
    {
        match self {
            Color::White => Color::Black,
            Color::Black => Color::White,
        }
    }

    /// The other player, for specifications.
    pub open spec fn spec_other(self) -> Color {
        match self {
            Color::White => Color::Black,
            Color::Black => Color::White,
        }
    }
}

/// The three roles a piece can have.
#[derive(Clone, Copy, Debug, PartialEq, Eq, Structural)]
pub enum Role {
    Flat,
    Wall,
    Cap,
}

impl Role {
    /// A small index for table lookups: flats, walls, caps in that order.
    pub fn disc(self) -> (r: usize)
        ensures
            r == self.spec_disc(),
            r < 3,
    {
        match self {
            Role::Flat => 0,
            Role::Wall => 1,
            Role::Cap => 2,
        }
    }

    /// The table index of a role, for specifications.
    pub open spec fn spec_disc(self) -> int {
        match self {
            Role::Flat => 0,
            Role::Wall => 1,
            Role::Cap => 2,
        }
    }
}

/// A piece: a color combined with a role.
#[derive(Clone, Copy, Debug, PartialEq, Eq, Structural)]
pub struct Piece {
    pub color: Color,
    pub role: Role,
}

impl Piece {
    /// Build a piece from its parts.
    pub fn new(color: Color, role: Role) -> (r: Piece)
        ensures
            r.color == color,
            r.role == role,
    {
        Piece { color, role }
    }

    /// Whether the piece counts toward a road: flats and caps do, walls do not.
    pub fn is_road_piece(self) -> (r: bool)
        ensures
            r == self.spec_is_road_piece(),
    {
        match self.role {
            Role::Flat | Role::Cap => true,
            Role::Wall => false,
        }
    }

    /// Whether the piece counts toward a road, for specifications.
    pub open spec fn spec_is_road_piece(self) -> bool {
        self.role != Role::Wall
    }
}

} // verus!
