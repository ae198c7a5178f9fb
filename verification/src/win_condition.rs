//! What it takes to win a level.

use vstd::prelude::*;
use crate::pos::Pos;

verus! {

/// The conditions of a level.
#[derive(Debug, Clone)]
pub struct WinCondition {
    pub general: GeneralWinConditions,
    pub rocks: RockWinConditions,
}

/// What the loose rocks have to achieve.
#[derive(Debug, Clone)]
pub enum RockWinConditions {
    /// A rock has to lie on each of these cells.
    Pos(Vec<Pos>),
    /// Rocks have to leave the board through these cells. Not supported by
    /// the evaluator.
    Exit(Vec<Pos>),
}

/// Conditions that do not depend on where the rocks lie.
#[derive(Debug, Clone, Copy, Default)]
pub struct GeneralWinConditions {
    /// The number of tilts after which the round is lost, if there is a
    /// limit.
    pub max_moves: Option<u32>,
}

} // verus!
