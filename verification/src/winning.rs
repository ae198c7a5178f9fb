//! The evaluator: whether a settled board ends the round.

use vstd::prelude::*;
use crate::pos::Pos;
use crate::round::{LostReason, RoundResult, RoundStats};
use crate::state::MapState;
use crate::win_condition::{GeneralWinConditions, RockWinConditions, WinCondition};

verus! {

/// Whether a rock lies on every target cell.
pub open spec fn targets_met(targets: Seq<Pos>, rocks: Set<Pos>) -> bool {
    forall|i: int| 0 <= i < targets.len() ==> rocks.contains(#[trigger] targets[i])
}

/// Whether the moves allowed by `general` are used up after `moves` tilts.
pub open spec fn moves_used_up(general: GeneralWinConditions, moves: u32) -> bool {
    match general.max_moves {
        Some(max_moves) => moves >= max_moves,
        None => false,
    }
}

/// The outcome of a round whose rocks have to reach `targets`: won as soon
/// as every target is covered, else lost once the moves are used up, else
/// still open.
pub open spec fn outcome(
    general: GeneralWinConditions,
    targets: Seq<Pos>,
    rocks: Set<Pos>,
    moves: u32,
) -> Option<RoundResult> {
    if targets_met(targets, rocks) {
        Some(RoundResult::Won)
    } else if moves_used_up(general, moves) {
        Some(RoundResult::Lost(LostReason::RoundsExceeded))
    } else {
        None
    }
}

/// The evaluator was asked about a condition that it does not support.
#[derive(Debug, Clone, Copy, PartialEq, Eq, Structural, Hash)]
pub enum WinError {
    /// Rocks that have to leave the board through an exit.
    ExitUnsupported,
}

/// Whether a rock of `state` lies on every cell of `targets`.
pub fn all_targets_met(targets: &Vec<Pos>, state: &MapState) -> (r: bool)
    ensures
        r == targets_met(targets@, state@),
{
    let mut i: usize = 0;
    while i < targets.len()
        invariant
            i <= targets@.len(),
            forall|k: int| 0 <= k < i ==> state@.contains(#[trigger] targets@[k]),
        decreases targets@.len() - i,
    {
        if !state.contains(&targets[i]) {
            return false;
        }
        i = i + 1;
    }
    true
}

/// Judges a settled board whose rocks have to reach target cells.
pub fn check_result(win: &WinCondition, state: &MapState, round_stats: &RoundStats) -> (r: Option<
    RoundResult,
>)
    requires
        win.rocks is Pos,
    ensures
        r == outcome(win.general, win.rocks->Pos_0@, state@, round_stats.moves),
{
    let won = match &win.rocks {
        RockWinConditions::Pos(targets) => all_targets_met(targets, state),
        RockWinConditions::Exit(_) => false,
    };
    if won {
        return Some(RoundResult::Won);
    }
    if let Some(max_moves) = win.general.max_moves {
        if round_stats.moves >= max_moves {
            return Some(RoundResult::Lost(LostReason::RoundsExceeded));
        }
    }
    None
}

/// Judges a settled board. Refuses a condition on exits instead of guessing
/// what it might mean.
pub fn evaluate_win(win: &WinCondition, state: &MapState, round_stats: &RoundStats) -> (r: Result<
    Option<RoundResult>,
    WinError,
>)
    ensures
        r == (match win.rocks {
            RockWinConditions::Pos(targets) => Ok::<Option<RoundResult>, WinError>(
                outcome(win.general, targets@, state@, round_stats.moves),
            ),
            RockWinConditions::Exit(_) => Err(WinError::ExitUnsupported),
        }),
{
    match &win.rocks {
        RockWinConditions::Pos(_) => Ok(check_result(win, state, round_stats)),
        RockWinConditions::Exit(_) => Err(WinError::ExitUnsupported),
    }
}

} // verus!
