//! A Monte Carlo Tree Search engine for the board game Tak.
//!
//! The crate is organised in three layers:
//!
//! * the position core: squares, stacks, move generation, make/unmake
//!   and win detection ([`position`] and its helpers),
//! * the evaluation core: integer feature extractors and a linear model
//!   for both static values and move policies,
//! * the search core: a PUCT-style tree search over an arena of nodes.
//!
//! All probabilities and evaluation scores are fixed-point integers:
//! a probability of `1.0` is represented as `1_000_000` (see [`search`]).

pub mod eval;
pub mod history;
pub mod komi;
pub mod makemove;
pub mod movegen;
pub mod moves;
pub mod piece;
pub mod position;
pub mod road;
pub mod search;
pub mod square;
pub mod stack;
