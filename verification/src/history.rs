//! Reading the move history: the last placements and movements of each
//! player, and a heuristic about spreads that leave their own group
//! weakened. The policy evaluator scores moves with these.

use crate::moves::{Move, MoveView};
use crate::piece::{Color, Role};
use crate::position::{PosState, Position};
use crate::road::spec_road_stone;
use crate::square::{spec_go_direction, spec_jump_direction, valid_square, Direction};
use vstd::prelude::*;

verus! {

/// The origin and final square of a past spread.
#[derive(Clone, Copy, Debug, PartialEq, Eq, Structural)]
pub struct MovementSynopsis {
    pub origin: u8,
    pub destination: u8,
}

/// The placement `back` plies ago, if that ply was a placement.
pub open spec fn spec_placement_in_history(h: Seq<MoveView>, back: int) -> Option<(Role, u8)> {
    if h.len() < back {
        Option::None
    } else {
        match h[h.len() - back] {
            MoveView::Place(role, sq) => Option::Some((role, sq)),
            MoveView::Spread(_, _, _) => Option::None,
        }
    }
}

/// The movement `back` plies ago, if that ply was a spread whose whole
/// path stays on the board.
pub open spec fn spec_movement_in_history(p: PosState, back: int) -> Option<MovementSynopsis> {
    let h = p.history;
    if h.len() < back {
        Option::None
    } else {
        match h[h.len() - back] {
            MoveView::Place(_, _) => Option::None,
            MoveView::Spread(sq, dir, sm) => {
                if !valid_square(sq as int, p.size as int) || sm.drops.len() > 64 {
                    Option::None
                } else {
                    match spec_jump_direction(sq as int, p.size as int, dir, sm.drops.len()) {
                        Option::Some(dest) => Option::Some(
                            MovementSynopsis { origin: sq, destination: dest as u8 },
                        ),
                        Option::None => Option::None,
                    }
                }
            },
        }
    }
}

/// The placement the side to move made on its previous turn, if any.
pub fn our_last_placement(position: &Position) -> (r: Option<(Role, u8)>)
    ensures
        r == spec_placement_in_history(position@.history, 2),
{
    placement_in_history(position, 2)
}

/// The placement the opponent made on its last turn, if any.
pub fn their_last_placement(position: &Position) -> (r: Option<(Role, u8)>)
    ensures
        r == spec_placement_in_history(position@.history, 1),
{
    placement_in_history(position, 1)
}

fn placement_in_history(position: &Position, back: usize) -> (r: Option<(Role, u8)>)
    requires
        1 <= back <= 2,
    ensures
        r == spec_placement_in_history(position@.history, back as int),
{
    let history = position.moves();
    if history.len() < back {
        return None;
    }
    let mv = &history[history.len() - back];
    match mv {
        Move::Place(role, sq) => Some((*role, *sq)),
        Move::Spread(_, _, _) => None,
    }
}

/// The spread the side to move made on its previous turn, if any.
pub fn our_last_movement(position: &Position) -> (r: Option<MovementSynopsis>)
    requires
        position@.wf(),
    ensures
        r == spec_movement_in_history(position@, 2),
{
    get_movement_in_history(position, 2)
}

/// The spread the opponent made on its last turn, if any.
pub fn their_last_movement(position: &Position) -> (r: Option<MovementSynopsis>)
    requires
        position@.wf(),
    ensures
        r == spec_movement_in_history(position@, 1),
{
    get_movement_in_history(position, 1)
}

/// The spread made `i` plies ago, with its origin and final square.
pub fn get_movement_in_history(position: &Position, i: usize) -> (r: Option<MovementSynopsis>)
    requires
        position@.wf(),
        1 <= i,
    ensures
        r == spec_movement_in_history(position@, i as int),
{
    let history = position.moves();
    if history.len() < i {
        return None;
    }
    let mv = &history[history.len() - i];
    match mv {
        Move::Place(_, _) => None,
        Move::Spread(sq, dir, sm) => {
            if *sq >= position.num_squares() || sm.drops.len() > 64 {
                return None;
            }
            match crate::square::jump_direction(*sq, position.size(), *dir, sm.len() as u8) {
                Some(dest) => Some(MovementSynopsis { origin: *sq, destination: dest }),
                None => None,
            }
        },
    }
}

/// Whether the flank on side `orth` keeps the origin's group connected
/// once the stack spreads away: the flank holds a road stone linked
/// forward along the spread's line, and the square behind does not also
/// need the origin to stay joined.
pub open spec fn spec_flank_keeps_group(
    p: PosState,
    square: u8,
    direction: Direction,
    us: Color,
    orth: Direction,
) -> bool {
    let s = p.size as int;
    match spec_go_direction(square as int, s, orth) {
        Option::None => false,
        Option::Some(flank) => {
            let behind = spec_go_direction(square as int, s, direction.spec_reverse());
            let opposite_flank = spec_go_direction(square as int, s, orth.spec_reverse());
            &&& spec_road_stone(p.board, flank, us)
            &&& (match spec_go_direction(flank, s, direction) {
                Option::Some(fwd) => spec_road_stone(p.board, fwd, us),
                Option::None => false,
            })
            &&& (opposite_flank is None || behind is None || !spec_road_stone(
                p.board,
                opposite_flank->Some_0,
                us,
            ))
            &&& (match behind {
                Option::None => true,
                Option::Some(b) => !spec_road_stone(p.board, b, us) || (match spec_go_direction(
                    b,
                    s,
                    orth,
                ) {
                    Option::Some(bo) => spec_road_stone(p.board, bo, us),
                    Option::None => false,
                }),
            })
        },
    }
}

/// Whether a spread from `square` in `direction` damages the group of
/// `us` that the origin square belongs to: neither flank keeps the
/// group connected once the stack leaves.
pub fn spread_damages_our_group(position: &Position, square: u8, direction: Direction, us: Color)
    -> (r: bool)
    requires
        position@.wf(),
        valid_square(square as int, position@.size as int),
    ensures
        r == !(spec_flank_keeps_group(
            position@,
            square,
            direction,
            us,
            direction.spec_orthogonal_directions().0,
        ) || spec_flank_keeps_group(
            position@,
            square,
            direction,
            us,
            direction.spec_orthogonal_directions().1,
        )),
{
    let (o1, o2) = direction.orthogonal_directions();
    let a = position.spread_damage_side(square, direction, us, o1);
    let b = position.spread_damage_side(square, direction, us, o2);
    !(a || b)
}

impl Position {
    /// Whether the top of `sq` is a road stone of `us`.
    fn road_stone_at(&self, sq: u8, us: Color) -> (r: bool)
        requires
            self@.wf(),
            valid_square(sq as int, self@.size as int),
        ensures
            r == spec_road_stone(self@.board, sq as int, us),
    {
        proof {
            assert((self@.size as int) * (self@.size as int) <= 64) by (nonlinear_arith)
                requires
                    self@.size <= 8,
            ;
        }
        let stack = self.get_stack(sq);
        let stack_len = stack.len();
        if stack_len == 0 {
            return false;
        }
        let top = stack.get(stack_len - 1).unwrap();
        top.color == us && top.role != Role::Wall
    }

    /// One flank of the damage check: see [`spec_flank_keeps_group`].
    fn spread_damage_side(&self, square: u8, direction: Direction, us: Color, orth: Direction)
        -> (r: bool)
        requires
            self@.wf(),
            valid_square(square as int, self@.size as int),
        ensures
            r == spec_flank_keeps_group(self@, square, direction, us, orth),
    {
        let s = self.size();
        let flank = match crate::square::go_direction(square, s, orth) {
            Some(f) => f,
            None => {
                return false;
            },
        };
        if !self.road_stone_at(flank, us) {
            return false;
        }
        let fwd_ok = match crate::square::go_direction(flank, s, direction) {
            Some(fwd) => self.road_stone_at(fwd, us),
            None => false,
        };
        if !fwd_ok {
            return false;
        }
        let behind = crate::square::go_direction(square, s, direction.reverse());
        let opposite_flank = crate::square::go_direction(square, s, orth.reverse());
        let third = match (opposite_flank, behind) {
            (Some(of), Some(_)) => !self.road_stone_at(of, us),
            _ => true,
        };
        if !third {
            return false;
        }
        match behind {
            None => true,
            Some(b) => {
                if !self.road_stone_at(b, us) {
                    true
                } else {
                    match crate::square::go_direction(b, s, orth) {
                        Some(bo) => self.road_stone_at(bo, us),
                        None => false,
                    }
                }
            },
        }
    }
}

} // verus!
