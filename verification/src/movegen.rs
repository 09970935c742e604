//! Legal move generation, and perft counting over it.
//!
//! Spread patterns are produced by enumerating drop compositions and
//! keeping those that a verified legality check accepts, so every move
//! handed out is proved legal.

use crate::makemove::{spec_drops_ok, sum_drops};
use crate::moves::{Move, MoveView, StackMovement, StackMovementView};
use crate::piece::Role;
use crate::position::{PosState, Position, HALF_MOVES_MAX};
use crate::square::{go_direction, valid_size, valid_square, Direction};
use vstd::prelude::*;

verus! {

/// The sum of a drop pattern.
fn sum_of_drops(drops: &Vec<u8>) -> (r: u64)
    requires
        drops@.len() <= 16,
    ensures
        r == sum_drops(drops@),
{
    let mut total: u64 = 0;
    let mut i: usize = 0;
    proof {
        assert(drops@.skip(0) =~= drops@);
        crate::makemove::lemma_sum_drops_nonneg(drops@);
    }
    while i < drops.len()
        invariant
            i <= drops@.len(),
            drops@.len() <= 16,
            total <= 255 * i,
            sum_drops(drops@) == total + sum_drops(drops@.skip(i as int)),
        decreases drops@.len() - i,
    {
        proof {
            crate::makemove::lemma_sum_drops_skip_step(drops@, i as int);
        }
        total = total + (drops[i] as u64);
        i = i + 1;
    }
    proof {
        assert(drops@.skip(drops@.len() as int) =~= Seq::<u8>::empty());
    }
    total
}

impl Position {
    /// Whether a move is legal here. This is the executable mirror of
    /// [`PosState::spec_legal_move`].
    pub fn is_legal_move(&self, mv: &Move) -> (r: bool)
        requires
            self@.wf(),
        ensures
            r == self@.spec_legal_move(mv@),
    {
        match mv {
            Move::Place(role, sq) => {
                let n = self.num_squares();
                if *sq >= n {
                    return false;
                }
                if self.get_stack(*sq).len() != 0 {
                    return false;
                }
                if self.half_moves_played() < 2 && *role != Role::Flat {
                    return false;
                }
                let color = if self.half_moves_played() < 2 {
                    self.side_to_move().other()
                } else {
                    self.side_to_move()
                };
                match role {
                    Role::Flat | Role::Wall => self.stones_left(color) > 0,
                    Role::Cap => self.caps_left(color) > 0,
                }
            },
            Move::Spread(sq, dir, sm) => {
                let n = self.num_squares();
                if self.half_moves_played() < 2 {
                    return false;
                }
                if *sq >= n {
                    return false;
                }
                let origin = self.get_stack(*sq);
                let origin_len = origin.len();
                if origin_len == 0 {
                    return false;
                }
                let top = origin.get(origin_len - 1).unwrap();
                if top.color != self.side_to_move() {
                    return false;
                }
                let take = sm.pieces_to_take;
                if take < 1 || take > self.size() || (take as usize) > origin_len {
                    return false;
                }
                if sm.drops.len() < 1 || sm.drops.len() > 16 {
                    proof {
                        if crate::makemove::spec_drops_ok(
                            self@.board,
                            self@.size,
                            *sq as int,
                            *dir,
                            take as int,
                            top.role == Role::Cap,
                            sm@.drops,
                        ) {
                            crate::makemove::lemma_drops_ok_len_bound(
                                self@.board,
                                self@.size,
                                *sq as int,
                                *dir,
                                take as int,
                                top.role == Role::Cap,
                                sm@.drops,
                            );
                        }
                    }
                    return false;
                }
                if sum_of_drops(&sm.drops) != take as u64 {
                    return false;
                }
                proof {
                    assert(sm@.drops.skip(0) =~= sm@.drops);
                }
                self.check_drops(*sq, *dir, take, top.role == Role::Cap, &sm.drops, 0)
            },
        }
    }

    /// The executable mirror of [`spec_drops_ok`] from position `i` of
    /// the drop pattern onward.
    fn check_drops(&self, sq: u8, dir: Direction, remaining: u8, cap_top: bool, drops: &Vec<u8>, i:
        usize) -> (r: bool)
        requires
            self@.wf(),
            valid_square(sq as int, self@.size as int),
            i <= drops@.len(),
        ensures
            r == spec_drops_ok(
                self@.board,
                self@.size,
                sq as int,
                dir,
                remaining as int,
                cap_top,
                drops@.skip(i as int),
            ),
        decreases drops@.len() - i,
    {
        if i == drops.len() {
            proof {
                assert(drops@.skip(i as int) =~= Seq::<u8>::empty());
            }
            return remaining == 0;
        }
        proof {
            assert(drops@.skip(i as int)[0] == drops@[i as int]);
            assert(drops@.skip(i as int).drop_first() =~= drops@.skip(i + 1));
        }
        let d = drops[i];
        if d < 1 || d > remaining {
            return false;
        }
        match go_direction(sq, self.size(), dir) {
            None => false,
            Some(next) => {
                let target = self.get_stack(next);
                let target_len = target.len();
                let ok_target = if target_len == 0 {
                    true
                } else {
                    let top = target.get(target_len - 1).unwrap();
                    match top.role {
                        Role::Flat => true,
                        Role::Cap => false,
                        Role::Wall => i + 1 == drops.len() && remaining == 1 && cap_top,
                    }
                };
                if !ok_target {
                    return false;
                }
                self.check_drops(next, dir, remaining - d, cap_top, drops, i + 1)
            },
        }
    }

    /// Append every legal move in this position to `moves`.
    ///
    /// Every move handed out is legal; every legal move is handed out;
    /// and whenever the side to move still has a piece in reserve and
    /// the board an empty square, at least one move is produced.
    #[verifier::rlimit(100)]
    pub fn generate_moves(&self, moves: &mut Vec<Move>)
        requires
            self@.wf(),
        ensures
            final(moves)@.len() >= old(moves)@.len(),
            forall|j: int|
                0 <= j < old(moves)@.len() ==> final(moves)@[j] == old(moves)@[j],
            forall|j: int|
                old(moves)@.len() <= j < final(moves)@.len() ==> self@.spec_legal_move(
                    #[trigger] final(moves)@[j]@,
                ),
            forall|m: MoveView|
                #[trigger] self@.spec_legal_move(m) ==> exists|j: int|
                    0 <= j < final(moves)@.len() && (#[trigger] final(moves)@[j])@ == m,
            (exists|q: int|
                valid_square(q, self@.size as int) && (#[trigger] self@.board[q]).len() == 0) && (
            if self@.half_moves < 2 {
                self@.spec_stones_left(self@.placing_color()) > 0
            } else {
                self@.spec_stones_left(self@.placing_color()) + self@.spec_caps_left(
                    self@.placing_color(),
                ) > 0
            }) ==> final(moves)@.len() > old(moves)@.len(),
    {
        let ghost pre = moves@;
        let n = self.num_squares();
        let color = if self.half_moves_played() < 2 {
            self.side_to_move().other()
        } else {
            self.side_to_move()
        };
        let mut sq: u8 = 0;
        while sq < n
            invariant
                sq <= n,
                self@.wf(),
                n as int == self@.num_squares(),
                valid_size(self@.size as int),
                moves@.len() >= pre.len(),
                forall|j: int| 0 <= j < pre.len() ==> moves@[j] == pre[j],
                forall|j: int|
                    pre.len() <= j < moves@.len() ==> self@.spec_legal_move(
                        #[trigger] moves@[j]@,
                    ),
                color == self@.placing_color(),
                (exists|q: int|
                    0 <= q < sq as int && (#[trigger] self@.board[q]).len() == 0) && (if self@.half_moves
                    < 2 {
                    self@.spec_stones_left(color) > 0
                } else {
                    self@.spec_stones_left(color) + self@.spec_caps_left(color) > 0
                }) ==> moves@.len() > pre.len(),
                forall|m: MoveView|
                    #[trigger] self@.spec_legal_move(m) && spec_move_origin(m) < sq as int
                        ==> exists|j: int|
                        0 <= j < moves@.len() && (#[trigger] moves@[j])@ == m,
            decreases n - sq,
        {
            proof {
                assert((sq as int) < (self@.size as int) * (self@.size as int));
            }
            let ghost moves_at_entry = moves@;
            let stack = self.get_stack(sq);
            if stack.len() == 0 {
                // Placements.
                if self.half_moves_played() < 2 {
                    if self.stones_left(color) > 0 {
                        let mv = Move::Place(Role::Flat, sq);
                        proof {
                            assert(self@.spec_legal_move(mv@));
                        }
                        moves.push(mv);
                        proof {
                            assert(moves@[moves@.len() - 1]@ == MoveView::Place(Role::Flat, sq));
                        }
                    }
                } else {
                    if self.stones_left(color) > 0 {
                        let mv = Move::Place(Role::Flat, sq);
                        proof {
                            assert(self@.spec_legal_move(mv@));
                        }
                        moves.push(mv);
                        let mv2 = Move::Place(Role::Wall, sq);
                        proof {
                            assert(moves@[moves@.len() - 1]@ == MoveView::Place(Role::Flat, sq));
                            assert(self@.spec_legal_move(mv2@));
                        }
                        moves.push(mv2);
                    }
                    if self.caps_left(color) > 0 {
                        let mv = Move::Place(Role::Cap, sq);
                        proof {
                            assert(self@.spec_legal_move(mv@));
                        }
                        moves.push(mv);
                    }
                    proof {
                        let l = moves@.len() as int;
                        if self@.spec_stones_left(color) > 0 {
                            if self@.spec_caps_left(color) > 0 {
                                assert(moves@[l - 3]@ == MoveView::Place(Role::Flat, sq));
                                assert(moves@[l - 2]@ == MoveView::Place(Role::Wall, sq));
                                assert(moves@[l - 1]@ == MoveView::Place(Role::Cap, sq));
                            } else {
                                assert(moves@[l - 2]@ == MoveView::Place(Role::Flat, sq));
                                assert(moves@[l - 1]@ == MoveView::Place(Role::Wall, sq));
                            }
                        } else if self@.spec_caps_left(color) > 0 {
                            assert(moves@[l - 1]@ == MoveView::Place(Role::Cap, sq));
                        }
                    }
                }
            } else if self.half_moves_played() >= 2 {
                let top = stack.get(stack.len() - 1).unwrap();
                if top.color == self.side_to_move() {
                    self.generate_spreads_from(sq, moves);
                }
            }
            proof {
                assert forall|m: MoveView|
                    #[trigger] self@.spec_legal_move(m) && spec_move_origin(m) < sq as int
                        + 1 implies exists|j: int|
                    0 <= j < moves@.len() && (#[trigger] moves@[j])@ == m by {
                    if spec_move_origin(m) < sq as int {
                        let j = choose|j: int|
                            0 <= j < moves_at_entry.len() && (#[trigger] moves_at_entry[j])@ == m;
                        assert(moves@[j] == moves_at_entry[j]);
                    } else {
                        match m {
                            MoveView::Place(role, q) => {
                                assert(q == sq);
                                assert(self@.board[sq as int].len() == 0);
                                if self@.half_moves < 2 {
                                    assert(role == Role::Flat);
                                    assert(self@.spec_stones_left(color) > 0);
                                    assert(m == MoveView::Place(Role::Flat, sq));
                                } else {
                                    match role {
                                        Role::Flat => {
                                            assert(self@.spec_stones_left(color) > 0);
                                            assert(m == MoveView::Place(Role::Flat, sq));
                                        },
                                        Role::Wall => {
                                            assert(self@.spec_stones_left(color) > 0);
                                            assert(m == MoveView::Place(Role::Wall, sq));
                                        },
                                        Role::Cap => {
                                            assert(self@.spec_caps_left(color) > 0);
                                            assert(m == MoveView::Place(Role::Cap, sq));
                                        },
                                    }
                                }
                            },
                            MoveView::Spread(q, dirv, smv) => {
                                assert(q == sq);
                                assert(self@.board[sq as int].len() > 0);
                                assert(self@.half_moves >= 2);
                                assert(self@.board[sq as int].last().color == self@.to_move);
                                assert(m == MoveView::Spread(sq, dirv, smv));
                                assert(self@.spec_legal_move(MoveView::Spread(sq, dirv, smv)));
                            },
                        }
                    }
                }
            }
            sq = sq + 1;
        }
        proof {
            assert forall|m: MoveView| #[trigger] self@.spec_legal_move(m) implies exists|j: int|
                0 <= j < moves@.len() && (#[trigger] moves@[j])@ == m by {
                assert(spec_move_origin(m) < n as int);
            }
        }
    }

    /// Append every legal spread from `sq` to `moves`: each one pushed
    /// is legal, and every legal spread from `sq` is pushed.
    #[verifier::rlimit(100)]
    fn generate_spreads_from(&self, sq: u8, moves: &mut Vec<Move>)
        requires
            self@.wf(),
            valid_square(sq as int, self@.size as int),
        ensures
            final(moves)@.len() >= old(moves)@.len(),
            forall|j: int|
                0 <= j < old(moves)@.len() ==> final(moves)@[j] == old(moves)@[j],
            forall|j: int|
                old(moves)@.len() <= j < final(moves)@.len() ==> self@.spec_legal_move(
                    #[trigger] final(moves)@[j]@,
                ),
            forall|dirv: Direction, smv: StackMovementView|
                #[trigger] self@.spec_legal_move(MoveView::Spread(sq, dirv, smv)) ==> exists|
                    j: int,
                |
                    0 <= j < final(moves)@.len() && (#[trigger] final(moves)@[j])@
                        == MoveView::Spread(sq, dirv, smv),
    {
        let ghost pre = moves@;
        let stack_len = self.get_stack(sq).len();
        let max_take = if (self.size() as usize) < stack_len {
            self.size() as usize
        } else {
            stack_len
        };
        let mut take: usize = 1;
        while take <= max_take
            invariant
                1 <= take,
                take <= max_take + 1,
                max_take <= 8,
                max_take <= stack_len,
                max_take <= self@.size,
                stack_len == self@.board[sq as int].len(),
                max_take == if (self@.size as int) < stack_len as int {
                    self@.size as int
                } else {
                    stack_len as int
                },
                self@.wf(),
                valid_square(sq as int, self@.size as int),
                moves@.len() >= pre.len(),
                forall|j: int| 0 <= j < pre.len() ==> moves@[j] == pre[j],
                forall|j: int|
                    pre.len() <= j < moves@.len() ==> self@.spec_legal_move(
                        #[trigger] moves@[j]@,
                    ),
                forall|dirv: Direction, smv: StackMovementView|
                    #[trigger] self@.spec_legal_move(MoveView::Spread(sq, dirv, smv)) && (
                    smv.pieces_to_take as int) < take as int ==> exists|j: int|
                        0 <= j < moves@.len() && (#[trigger] moves@[j])@ == MoveView::Spread(
                            sq,
                            dirv,
                            smv,
                        ),
            decreases (max_take + 1) - take,
        {
            let mut patterns: Vec<Vec<u8>> = Vec::new();
            compositions(take as u8, &mut Vec::new(), &mut patterns);
            proof {
                assert forall|tail: Seq<u8>| #[trigger] is_composition(tail, take as int) implies exists|
                    q: int,
                |
                    0 <= q < patterns@.len() && (#[trigger] patterns@[q])@ == tail by {
                    let q = choose|q: int|
                        0 <= q < patterns@.len() && (#[trigger] patterns@[q])@ == Seq::<
                            u8,
                        >::empty() + tail;
                    assert(Seq::<u8>::empty() + tail =~= tail);
                }
            }
            let dirs: [Direction; 4] = [
                Direction::North,
                Direction::West,
                Direction::East,
                Direction::South,
            ];
            let mut di: usize = 0;
            while di < 4
                invariant
                    self@.wf(),
                    valid_square(sq as int, self@.size as int),
                    di <= 4,
                    moves@.len() >= pre.len(),
                    forall|j: int| 0 <= j < pre.len() ==> moves@[j] == pre[j],
                    forall|j: int|
                        pre.len() <= j < moves@.len() ==> self@.spec_legal_move(
                            #[trigger] moves@[j]@,
                        ),
                    1 <= take <= 8,
                    dirs@ =~= seq![
                        Direction::North,
                        Direction::West,
                        Direction::East,
                        Direction::South,
                    ],
                    forall|tail: Seq<u8>|
                        #[trigger] is_composition(tail, take as int) ==> exists|q: int|
                            0 <= q < patterns@.len() && (#[trigger] patterns@[q])@ == tail,
                    forall|dirv: Direction, smv: StackMovementView|
                        #[trigger] self@.spec_legal_move(MoveView::Spread(sq, dirv, smv)) && ((
                        smv.pieces_to_take as int) < take as int || ((smv.pieces_to_take as int)
                            == take as int && dir_slot(dirv) < di as int)) ==> exists|j: int|
                            0 <= j < moves@.len() && (#[trigger] moves@[j])@ == MoveView::Spread(
                                sq,
                                dirv,
                                smv,
                            ),
                decreases 4 - di,
            {
                let dir = dirs[di];
                let mut pi: usize = 0;
                while pi < patterns.len()
                    invariant
                        self@.wf(),
                        valid_square(sq as int, self@.size as int),
                        pi <= patterns@.len(),
                        moves@.len() >= pre.len(),
                        forall|j: int| 0 <= j < pre.len() ==> moves@[j] == pre[j],
                        forall|j: int|
                            pre.len() <= j < moves@.len() ==> self@.spec_legal_move(
                                #[trigger] moves@[j]@,
                            ),
                        1 <= take <= 8,
                        dir == dirs@[di as int],
                        di < 4,
                        dirs@ =~= seq![
                            Direction::North,
                            Direction::West,
                            Direction::East,
                            Direction::South,
                        ],
                        forall|tail: Seq<u8>|
                            #[trigger] is_composition(tail, take as int) ==> exists|q: int|
                                0 <= q < patterns@.len() && (#[trigger] patterns@[q])@ == tail,
                        forall|dirv: Direction, smv: StackMovementView|
                            #[trigger] self@.spec_legal_move(MoveView::Spread(sq, dirv, smv)) && ((
                            smv.pieces_to_take as int) < take as int || ((smv.pieces_to_take as int)
                                == take as int && dir_slot(dirv) < di as int)) ==> exists|j: int|
                                0 <= j < moves@.len() && (#[trigger] moves@[j])@
                                    == MoveView::Spread(sq, dirv, smv),
                        forall|smv: StackMovementView|
                            #[trigger] self@.spec_legal_move(MoveView::Spread(sq, dir, smv)) && (
                            smv.pieces_to_take as int) == take as int && (exists|q: int|
                                0 <= q < pi as int && (#[trigger] patterns@[q])@ == smv.drops)
                                ==> exists|j: int|
                                0 <= j < moves@.len() && (#[trigger] moves@[j])@
                                    == MoveView::Spread(sq, dir, smv),
                    decreases patterns.len() - pi,
                {
                    let pat = &patterns[pi];
                    self.try_spread_pattern(sq, dir, take as u8, pat, moves);
                    proof {
                        assert forall|smv: StackMovementView|
                            #[trigger] self@.spec_legal_move(MoveView::Spread(sq, dir, smv)) && (
                            smv.pieces_to_take as int) == take as int && (exists|q: int|
                                0 <= q < pi + 1 && (#[trigger] patterns@[q])@ == smv.drops) implies exists|
                            j: int,
                        |
                            0 <= j < moves@.len() && (#[trigger] moves@[j])@ == MoveView::Spread(
                                sq,
                                dir,
                                smv,
                            ) by {
                            let q = choose|q: int|
                                0 <= q < pi + 1 && (#[trigger] patterns@[q])@ == smv.drops;
                            if q == pi as int {
                                assert(smv =~= StackMovementView {
                                    pieces_to_take: take as u8,
                                    drops: patterns@[pi as int]@,
                                });
                            }
                        }
                    }
                    pi = pi + 1;
                }
                proof {
                    assert forall|dirv: Direction, smv: StackMovementView|
                        #[trigger] self@.spec_legal_move(MoveView::Spread(sq, dirv, smv)) && ((
                        smv.pieces_to_take as int) < take as int || ((smv.pieces_to_take as int)
                            == take as int && dir_slot(dirv) < di as int + 1)) implies exists|
                        j: int,
                    |
                        0 <= j < moves@.len() && (#[trigger] moves@[j])@ == MoveView::Spread(
                            sq,
                            dirv,
                            smv,
                        ) by {
                        if (smv.pieces_to_take as int) == take as int && dir_slot(dirv)
                            == di as int {
                            assert(dirv == dir);
                            crate::makemove::lemma_drops_ok_positive(
                                self@.board,
                                self@.size,
                                sq as int,
                                dirv,
                                smv.pieces_to_take as int,
                                self@.board[sq as int].last().role == Role::Cap,
                                smv.drops,
                            );
                            assert(is_composition(smv.drops, take as int));
                        }
                    }
                }
                di = di + 1;
            }
            take = take + 1;
        }
        proof {
            assert forall|dirv: Direction, smv: StackMovementView|
                #[trigger] self@.spec_legal_move(MoveView::Spread(sq, dirv, smv)) implies exists|
                j: int,
            |
                0 <= j < moves@.len() && (#[trigger] moves@[j])@ == MoveView::Spread(
                    sq,
                    dirv,
                    smv,
                ) by {
                assert((smv.pieces_to_take as int) <= max_take as int);
            }
        }
    }
}

impl Position {
    /// Try one spread candidate: push it when it is legal. The pushed
    /// move, when the candidate is legal, is exactly the candidate.
    fn try_spread_pattern(&self, sq: u8, dir: Direction, take: u8, pat: &Vec<u8>, moves: &mut Vec<
        Move,
    >)
        requires
            self@.wf(),
            valid_square(sq as int, self@.size as int),
        ensures
            final(moves)@.len() >= old(moves)@.len(),
            forall|j: int|
                0 <= j < old(moves)@.len() ==> final(moves)@[j] == old(moves)@[j],
            forall|j: int|
                old(moves)@.len() <= j < final(moves)@.len() ==> self@.spec_legal_move(
                    #[trigger] final(moves)@[j]@,
                ),
            self@.spec_legal_move(
                MoveView::Spread(
                    sq,
                    dir,
                    StackMovementView { pieces_to_take: take, drops: pat@ },
                ),
            ) ==> exists|j: int|
                0 <= j < final(moves)@.len() && (#[trigger] final(moves)@[j])@ == MoveView::Spread(
                    sq,
                    dir,
                    StackMovementView { pieces_to_take: take, drops: pat@ },
                ),
    {
        let mut drops: Vec<u8> = Vec::new();
        let mut k: usize = 0;
        while k < pat.len()
            invariant
                k <= pat@.len(),
                drops@ =~= pat@.take(k as int),
            decreases pat@.len() - k,
        {
            drops.push(pat[k]);
            k = k + 1;
        }
        proof {
            assert(drops@ =~= pat@);
        }
        let sm = StackMovement { pieces_to_take: take, drops };
        let ghost smv0 = sm@;
        let mv = Move::Spread(sq, dir, sm);
        let ghost mvv = mv@;
        let ghost len_before = moves@.len();
        if self.is_legal_move(&mv) {
            moves.push(mv);
        }
        proof {
            assert(smv0 =~= StackMovementView { pieces_to_take: take, drops: pat@ });
            assert(mvv == MoveView::Spread(sq, dir, smv0));
            if self@.spec_legal_move(mvv) {
                assert(moves@[len_before as int]@ == mvv);
            }
        }
    }
}

/// The origin square of a move: where a placement lands, or where a
/// spread starts.
pub open spec fn spec_move_origin(m: MoveView) -> int {
    match m {
        MoveView::Place(_, q) => q as int,
        MoveView::Spread(q, _, _) => q as int,
    }
}

/// The index of a direction in the order spreads are generated.
pub open spec fn dir_slot(d: Direction) -> int {
    match d {
        Direction::North => 0,
        Direction::West => 1,
        Direction::East => 2,
        Direction::South => 3,
    }
}

/// A drop pattern shape: at least one part, every part positive, the
/// parts summing to `total`.
pub open spec fn is_composition(tail: Seq<u8>, total: int) -> bool {
    tail.len() >= 1 && (forall|j: int| 0 <= j < tail.len() ==> 1 <= #[trigger] tail[j])
        && sum_drops(tail) == total
}

/// A sequence of positive parts sums to at least its length.
proof fn lemma_pos_sum_ge_len(tail: Seq<u8>)
    requires
        forall|j: int| 0 <= j < tail.len() ==> 1 <= #[trigger] tail[j],
    ensures
        sum_drops(tail) >= tail.len(),
    decreases tail.len(),
{
    if tail.len() > 0 {
        assert forall|j: int| 0 <= j < tail.drop_first().len() implies 1 <= #[trigger] tail.drop_first()[j] by {
            assert(tail.drop_first()[j] == tail[j + 1]);
        }
        lemma_pos_sum_ge_len(tail.drop_first());
    }
}

/// Append every composition of `remaining` into positive parts, prefixed
/// by `prefix`, to `out`: every composition appears, and nothing already
/// in `out` is touched.
fn compositions(remaining: u8, prefix: &mut Vec<u8>, out: &mut Vec<Vec<u8>>)
    requires
        remaining >= 1,
        remaining <= 8,
        old(prefix)@.len() + remaining <= 9,
    ensures
        final(prefix)@ == old(prefix)@,
        final(out)@.len() >= old(out)@.len(),
        forall|k: int| 0 <= k < old(out)@.len() ==> final(out)@[k] == old(out)@[k],
        forall|tail: Seq<u8>|
            #[trigger] is_composition(tail, remaining as int) ==> exists|k: int|
                0 <= k < final(out)@.len() && (#[trigger] final(out)@[k])@ == old(prefix)@ + tail,
    decreases remaining,
{
    let ghost pre_out = out@;
    let mut d: u8 = 1;
    while d <= remaining
        invariant
            1 <= d,
            d <= remaining + 1,
            1 <= remaining <= 8,
            prefix@ == old(prefix)@,
            prefix@.len() + remaining <= 9,
            out@.len() >= pre_out.len(),
            forall|k: int| 0 <= k < pre_out.len() ==> out@[k] == pre_out[k],
            forall|tail: Seq<u8>|
                #[trigger] is_composition(tail, remaining as int) && tail[0] < d ==> exists|k: int|
                    0 <= k < out@.len() && (#[trigger] out@[k])@ == old(prefix)@ + tail,
        decreases (remaining + 1) - d,
    {
        let ghost out_before = out@;
        prefix.push(d);
        let ghost pref_d = prefix@;
        if d == remaining {
            let mut pattern: Vec<u8> = Vec::new();
            let mut k: usize = 0;
            while k < prefix.len()
                invariant
                    k <= prefix@.len(),
                    prefix@ == pref_d,
                    pattern@ =~= prefix@.take(k as int),
                decreases prefix@.len() - k,
            {
                pattern.push(prefix[k]);
                k = k + 1;
            }
            proof {
                assert(pattern@ =~= pref_d);
            }
            out.push(pattern);
            proof {
                assert forall|tail: Seq<u8>|
                    #[trigger] is_composition(tail, remaining as int) && tail[0] == d implies exists|
                    k: int,
                |
                    0 <= k < out@.len() && (#[trigger] out@[k])@ == old(prefix)@ + tail by {
                    if tail.len() >= 2 {
                        lemma_pos_sum_ge_len(tail.drop_first());
                        assert(sum_drops(tail) == sum_drops(tail.drop_first()) + tail[0]);
                        assert(false);
                    }
                    assert(tail =~= seq![d]);
                    assert(old(prefix)@ + tail =~= pref_d);
                    assert(out@[out@.len() - 1]@ == pref_d);
                }
            }
        } else {
            let ghost out_mid = out@;
            compositions(remaining - d, prefix, out);
            proof {
                assert forall|tail: Seq<u8>|
                    #[trigger] is_composition(tail, remaining as int) && tail[0] == d implies exists|
                    k: int,
                |
                    0 <= k < out@.len() && (#[trigger] out@[k])@ == old(prefix)@ + tail by {
                    let rest = tail.drop_first();
                    assert(sum_drops(tail) == sum_drops(rest) + tail[0]);
                    assert(sum_drops(rest) == remaining - d);
                    if rest.len() == 0 {
                        assert(false);
                    }
                    assert forall|j: int| 0 <= j < rest.len() implies 1 <= #[trigger] rest[j] by {
                        assert(rest[j] == tail[j + 1]);
                    }
                    assert(is_composition(rest, (remaining - d) as int));
                    let k = choose|k: int|
                        0 <= k < out@.len() && (#[trigger] out@[k])@ == pref_d + rest;
                    assert(pref_d + rest =~= old(prefix)@ + tail);
                }
            }
        }
        let popped = prefix.pop();
        proof {
            assert(prefix@ =~= old(prefix)@);
            assert forall|tail: Seq<u8>|
                #[trigger] is_composition(tail, remaining as int) && tail[0] < d + 1 implies exists|
                k: int,
            |
                0 <= k < out@.len() && (#[trigger] out@[k])@ == old(prefix)@ + tail by {
                if tail[0] < d {
                    let k = choose|k: int|
                        0 <= k < out_before.len() && (#[trigger] out_before[k])@ == old(prefix)@
                            + tail;
                    assert(out@[k] == out_before[k]);
                }
            }
        }
        d = d + 1;
    }
    proof {
        assert forall|tail: Seq<u8>| #[trigger] is_composition(tail, remaining as int) implies exists|
            k: int,
        |
            0 <= k < out@.len() && (#[trigger] out@[k])@ == old(prefix)@ + tail by {
            crate::makemove::lemma_sum_drops_nonneg(tail.drop_first());
            assert(sum_drops(tail) == sum_drops(tail.drop_first()) + tail[0]);
            assert(tail[0] <= remaining);
        }
    }
}

} // verus!
