//! What is counted during a round, and how a round can end.

use vstd::prelude::*;

verus! {

/// The tally of one attempt at a level.
#[derive(Debug, Clone, Copy, PartialEq, Eq, Structural, Hash)]
pub struct RoundStats {
    /// The number of tilts made so far.
    pub moves: u32,
}

impl RoundStats {
    /// The tally of a level that was just loaded.
    pub fn new() -> (r: Self)
        ensures
            r.moves == 0,
    {
        RoundStats { moves: 0 }
    }

    /// Counts one more tilt, however many rocks it moves.
    pub fn record_move(&mut self)
        requires
            old(self).moves < u32::MAX,
        ensures
            final(self).moves == old(self).moves + 1,
    {
        self.moves = self.moves + 1;
    }

    /// Starts the count again, as on loading a level.
    pub fn reset(&mut self)
        ensures
            final(self).moves == 0,
    {
        self.moves = 0;
    }
}

impl Default for RoundStats {
    fn default() -> (r: Self)
        ensures
            r.moves == 0,
    {
        RoundStats { moves: 0 }
    }
}

/// Why a round was lost.
#[derive(Debug, Clone, Copy, PartialEq, Eq, Structural, Hash)]
pub enum LostReason {
    /// The moves allowed for the level are used up.
    RoundsExceeded,
}

/// How a round ended.
#[derive(Debug, Clone, Copy, PartialEq, Eq, Structural, Hash)]
pub enum RoundResult {
    Won,
    Lost(LostReason),
}

} // verus!
