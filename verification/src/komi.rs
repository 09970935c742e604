//! Komi and flat-count adjudication.
//!
//! Komi is a half-integer bonus added to Black's flat count when a game is
//! decided on flats. It is stored in half-komi units, so a komi of `2.0`
//! is stored as `4`.

use vstd::prelude::*;

verus! {

/// The result of a finished game, from White's point of view.
#[derive(Clone, Copy, Debug, PartialEq, Eq, Structural)]
pub enum GameResult {
    WhiteWin,
    BlackWin,
    Draw,
}

/// A komi value in half-komi units, restricted to `[-4.5, +4.5]`.
#[derive(Clone, Copy, Debug, PartialEq, Eq, Structural)]
pub struct Komi {
    half_komi: i8,
}

impl Komi {
    /// Whether a half-komi value is within the supported range.
    pub open spec fn valid_half_komi(half_komi: int) -> bool {
        -9 <= half_komi <= 9
    }

    /// Construct a komi from half-komi units, rejecting values outside
    /// `[-4.5, +4.5]`.
    pub fn from_half_komi(half_komi: i8) -> (r: Option<Komi>)
        ensures
            r is Some <==> Self::valid_half_komi(half_komi as int),
            r is Some ==> r->Some_0.spec_half_komi() == half_komi,
    {
        if -9 <= half_komi && half_komi <= 9 {
            Some(Komi { half_komi })
        } else {
            None
        }
    }

    /// The half-komi units, as seen by specifications.
    pub closed spec fn spec_half_komi(self) -> int {
        self.half_komi as int
    }

    /// The stored half-komi units.
    pub fn half_komi(self) -> (r: i8)
        ensures
            r == self.spec_half_komi(),
    {
        self.half_komi
    }

    /// The flat-count winner with this komi: twice White's flats against
    /// twice Black's flats plus the half-komi bonus.
    pub open spec fn spec_flatcount_result(self, white_flats: int, black_flats: int) -> GameResult {
        if 2 * white_flats > 2 * black_flats + self.spec_half_komi() {
            GameResult::WhiteWin
        } else if 2 * white_flats < 2 * black_flats + self.spec_half_komi() {
            GameResult::BlackWin
        } else {
            GameResult::Draw
        }
    }

    /// Adjudicate a game that ends on flats: komi is added to Black's
    /// flat count, so it breaks exact ties in Black's favour.
    pub fn game_result_with_flatcounts(self, white_flats: i8, black_flats: i8) -> (r: GameResult)
        ensures
            r == self.spec_flatcount_result(white_flats as int, black_flats as int),
    {
        let white_score: i32 = 2 * (white_flats as i32);
        let black_score: i32 = 2 * (black_flats as i32) + (self.half_komi as i32);
        if white_score > black_score {
            GameResult::WhiteWin
        } else if white_score < black_score {
            GameResult::BlackWin
        } else {
            GameResult::Draw
        }
    }
}

impl Default for Komi {
    /// The default komi is zero.
    fn default() -> (r: Komi)
        ensures
            r.spec_half_komi() == 0,
    {
        Komi { half_komi: 0 }
    }
}

} // verus!
