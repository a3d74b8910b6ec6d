//! A rule engine for Xiangqi (Chinese chess): board representation,
//! per-piece legal-move generation, and turn progression.
//!
//! The board is a dense 9x10 grid of optional (color, piece) occupants.
//! Each piece kind has a pure move generator returning `Go` (move to an
//! empty cell) and `Take` (capture an opposing piece) actions, and the
//! turn engine mediates queries, resolution of a chosen destination into
//! an action, and commits that flip the mover and advance the turn count.

pub mod pos;
pub mod pieces;
pub mod chess;
