//! Squares, directions and the eight-fold board symmetry.
//!
//! A square on an `s * s` board is an index in `[0, s * s)`, row-major:
//! square `i` has rank `i / s` (rows, top to bottom) and file `i % s`
//! (columns, left to right). Board sizes from 3 to 8 are supported.

use vstd::prelude::*;

verus! {

/// The smallest supported board size.
pub const MIN_SIZE: u8 = 3;
/// The largest supported board size.
pub const MAX_SIZE: u8 = 8;

/// Whether `s` is a supported board size.
pub open spec fn valid_size(s: int) -> bool {
    MIN_SIZE <= s <= MAX_SIZE
}

/// Whether `sq` is a square of an `s * s` board.
pub open spec fn valid_square(sq: int, s: int) -> bool {
    0 <= sq < s * s
}

/// One of the four orthogonal directions on the board.
#[derive(Clone, Copy, Debug, PartialEq, Eq, Structural)]
pub enum Direction {
    North,
    West,
    East,
    South,
}

impl Direction {
    /// The opposite direction.
    pub fn reverse(self) -> (r: Direction)
        ensures
            r == self.spec_reverse(),
    {
        match self {
            Direction::North => Direction::South,
            Direction::West => Direction::East,
            Direction::East => Direction::West,
            Direction::South => Direction::North,
        }
    }

    /// The opposite direction, for specifications.
    pub open spec fn spec_reverse(self) -> Direction {
        match self {
            Direction::North => Direction::South,
            Direction::West => Direction::East,
            Direction::East => Direction::West,
            Direction::South => Direction::North,
        }
    }

    /// The two directions orthogonal to this one.
    pub fn orthogonal_directions(self) -> (r: (Direction, Direction))
        ensures
            r == self.spec_orthogonal_directions(),
    {
        match self {
            Direction::North | Direction::South => (Direction::West, Direction::East),
            Direction::West | Direction::East => (Direction::North, Direction::South),
        }
    }

    /// The two directions orthogonal to this one, for specifications.
    pub open spec fn spec_orthogonal_directions(self) -> (Direction, Direction) {
        match self {
            Direction::North | Direction::South => (Direction::West, Direction::East),
            Direction::West | Direction::East => (Direction::North, Direction::South),
        }
    }
}

/// The rank (row) of a square.
pub open spec fn spec_rank(sq: int, s: int) -> int {
    sq / s
}

/// The file (column) of a square.
pub open spec fn spec_file(sq: int, s: int) -> int {
    sq % s
}

/// The neighbouring square one step in `dir`, or `None` at the board edge.
pub open spec fn spec_go_direction(sq: int, s: int, dir: Direction) -> Option<int> {
    match dir {
        Direction::North => if spec_rank(sq, s) == 0 {
            Option::None
        } else {
            Option::Some(sq - s)
        },
        Direction::West => if spec_file(sq, s) == 0 {
            Option::None
        } else {
            Option::Some(sq - 1)
        },
        Direction::East => if spec_file(sq, s) == s - 1 {
            Option::None
        } else {
            Option::Some(sq + 1)
        },
        Direction::South => if spec_rank(sq, s) == s - 1 {
            Option::None
        } else {
            Option::Some(sq + s)
        },
    }
}

/// A step stays on the board.
pub proof fn lemma_go_direction_valid(sq: int, s: int, dir: Direction)
    requires
        valid_size(s),
        valid_square(sq, s),
        spec_go_direction(sq, s, dir) is Some,
    ensures
        valid_square(spec_go_direction(sq, s, dir)->Some_0, s),
        spec_go_direction(sq, s, dir)->Some_0 != sq,
{
    let r = spec_rank(sq, s);
    let f = spec_file(sq, s);
    assert(sq == r * s + f) by (nonlinear_arith)
        requires s > 0 && r == sq / s && f == sq % s;
    assert(0 <= r < s && 0 <= f < s) by (nonlinear_arith)
        requires s > 0 && 0 <= sq < s * s && r == sq / s && f == sq % s;
    match dir {
        Direction::North => {
            assert(r >= 1 ==> s <= sq) by (nonlinear_arith)
                requires s > 0 && r == sq / s;
        },
        Direction::South => {
            assert(r <= s - 2 ==> sq + s < s * s) by (nonlinear_arith)
                requires s > 0 && sq == r * s + f && f < s;
        },
        Direction::West => {},
        Direction::East => {
            assert(f <= s - 2 ==> sq + 1 < s * s) by (nonlinear_arith)
                requires s > 0 && sq == r * s + f && r < s;
        },
    }
}

/// The rank (row) of a square, counted from the top.
pub fn square_rank(sq: u8, s: u8) -> (r: u8)
    requires
        valid_size(s as int),
        valid_square(sq as int, s as int),
    ensures
        r == spec_rank(sq as int, s as int),
        0 <= r < s,
{
    proof {
        assert((sq as int) / (s as int) < (s as int)) by (nonlinear_arith)
            requires s > 0 && (sq as int) < (s as int) * (s as int);
    }
    sq / s
}

/// The file (column) of a square.
pub fn square_file(sq: u8, s: u8) -> (r: u8)
    requires
        valid_size(s as int),
        valid_square(sq as int, s as int),
    ensures
        r == spec_file(sq as int, s as int),
        0 <= r < s,
{
    sq % s
}

/// The neighbouring square one step in `dir`, or `None` at the board edge.
pub fn go_direction(sq: u8, s: u8, dir: Direction) -> (r: Option<u8>)
    requires
        valid_size(s as int),
        valid_square(sq as int, s as int),
    ensures
        r is Some <==> spec_go_direction(sq as int, s as int, dir) is Some,
        r is Some ==> r->Some_0 as int == spec_go_direction(sq as int, s as int, dir)->Some_0
            && valid_square(r->Some_0 as int, s as int),
{
    proof {
        assert((s as int) * (s as int) <= 64) by (nonlinear_arith)
            requires s <= 8;
        if spec_go_direction(sq as int, s as int, dir) is Some {
            lemma_go_direction_valid(sq as int, s as int, dir);
        }
    }
    let rank = square_rank(sq, s);
    let file = square_file(sq, s);
    match dir {
        Direction::North => if rank == 0 {
            None
        } else {
            Some(sq - s)
        },
        Direction::West => if file == 0 {
            None
        } else {
            Some(sq - 1)
        },
        Direction::East => if file == s - 1 {
            None
        } else {
            Some(sq + 1)
        },
        Direction::South => if rank == s - 1 {
            None
        } else {
            Some(sq + s)
        },
    }
}

/// `n` composed single steps in `dir`, or `None` if any step leaves the board.
pub open spec fn spec_jump_direction(sq: int, s: int, dir: Direction, n: nat) -> Option<int>
    decreases n,
{
    if n == 0 {
        Option::Some(sq)
    } else {
        match spec_go_direction(sq, s, dir) {
            Option::Some(next) => spec_jump_direction(next, s, dir, (n - 1) as nat),
            Option::None => Option::None,
        }
    }
}

/// A jump stays on the board.
pub proof fn lemma_jump_direction_valid(sq: int, s: int, dir: Direction, n: nat)
    requires
        valid_size(s),
        valid_square(sq, s),
        spec_jump_direction(sq, s, dir, n) is Some,
    ensures
        valid_square(spec_jump_direction(sq, s, dir, n)->Some_0, s),
    decreases n,
{
    if n > 0 {
        lemma_go_direction_valid(sq, s, dir);
        lemma_jump_direction_valid(
            spec_go_direction(sq, s, dir)->Some_0,
            s,
            dir,
            (n - 1) as nat,
        );
    }
}

/// `n` composed single steps in `dir`, or `None` if any step leaves the board.
pub fn jump_direction(sq: u8, s: u8, dir: Direction, n: u8) -> (r: Option<u8>)
    requires
        valid_size(s as int),
        valid_square(sq as int, s as int),
    ensures
        r is Some <==> spec_jump_direction(sq as int, s as int, dir, n as nat) is Some,
        r is Some ==> r->Some_0 as int == spec_jump_direction(
            sq as int,
            s as int,
            dir,
            n as nat,
        )->Some_0,
{
    let mut current: u8 = sq;
    let mut remaining: u8 = n;
    while remaining > 0
        invariant
            valid_size(s as int),
            valid_square(current as int, s as int),
            remaining <= n,
            spec_jump_direction(sq as int, s as int, dir, n as nat) == spec_jump_direction(
                current as int,
                s as int,
                dir,
                remaining as nat,
            ),
        decreases remaining,
    {
        match go_direction(current, s, dir) {
            Some(next) => {
                current = next;
                remaining = remaining - 1;
            },
            None => {
                return None;
            },
        }
    }
    Some(current)
}

/// The canonical index of a square under the board's eight-fold symmetry.
///
/// Squares that a rotation or reflection of the board can map onto each
/// other share one index. Indices enumerate the orbits `(a, b)` with
/// `a <= b` of folded coordinates, row by row.
pub open spec fn spec_square_symmetry(sq: int, s: int) -> int {
    let r = spec_fold_line(spec_rank(sq, s), s);
    let f = spec_fold_line(spec_file(sq, s), s);
    let a = if r <= f { r } else { f };
    let b = if r <= f { f } else { r };
    let h = (s + 1) / 2;
    a * h - a * (a - 1) / 2 + (b - a)
}

/// A line index folded onto the nearer board edge.
pub open spec fn spec_fold_line(i: int, s: int) -> int {
    if i < s - 1 - i {
        i
    } else {
        s - 1 - i
    }
}

/// The canonical index of a square under the board's eight-fold symmetry.
pub fn lookup_square_symmetries(sq: u8, s: u8) -> (r: usize)
    requires
        valid_size(s as int),
        valid_square(sq as int, s as int),
    ensures
        r == spec_square_symmetry(sq as int, s as int),
        r < 10,
{
    let rank = square_rank(sq, s);
    let file = square_file(sq, s);
    let fr = if rank < s - 1 - rank {
        rank
    } else {
        s - 1 - rank
    };
    let ff = if file < s - 1 - file {
        file
    } else {
        s - 1 - file
    };
    let a = if fr <= ff {
        fr
    } else {
        ff
    };
    let b = if fr <= ff {
        ff
    } else {
        fr
    };
    let h = (s + 1) / 2;
    let au: usize = a as usize;
    let bu: usize = b as usize;
    let hu: usize = h as usize;
    proof {
        assert(2 * (a as int) <= s as int - 1);
        assert(2 * (b as int) <= s as int - 1);
        assert(au < hu && bu < hu && hu <= 4);
        assert(au <= au * au && au * au <= 16 && au * hu <= 16 && (au * au - au) / 2 <= au * hu
            && au * hu - (au * au - au) / 2 + (bu - au) < 10) by (nonlinear_arith)
            requires
                au <= bu,
                bu < hu,
                hu <= 4,
        ;
        assert((au as int) * (au as int - 1) / 2 == (au * au - au) as int / 2) by (nonlinear_arith)
            requires
                au >= 0,
        ;
    }
    au * hu - (au * au - au) / 2 + (bu - au)
}

/// The canonical index of a line (rank or file) under the board symmetry.
pub fn line_symmetry(i: u8, s: u8) -> (r: usize)
    requires
        valid_size(s as int),
        i < s,
    ensures
        r == spec_fold_line(i as int, s as int),
        r < 4,
{
    if i < s - 1 - i {
        i as usize
    } else {
        (s - 1 - i) as usize
    }
}

} // verus!
