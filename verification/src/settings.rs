//! What the player can configure.

use vstd::prelude::*;
use core::time::Duration;

verus! {

/// The settings of the game.
#[derive(Debug, Clone, Copy, PartialEq, Eq, Structural, Hash)]
pub struct Settings {
    /// The pause between two passes of a tilt, in milliseconds.
    pub move_delay_ms: Option<u64>,
}

/// The duration that lasts `millis` milliseconds.
pub uninterp spec fn duration_of_millis(millis: u64) -> Duration;

/// Turns a number of milliseconds into a duration.
///
/// Calls `Duration::from_millis`, whose result depends on its argument only.
#[verifier::external_body]
fn duration_from_millis(millis: u64) -> (r: Duration)
    ensures
        r == duration_of_millis(millis),
{
    Duration::from_millis(millis)
}

impl Settings {
    /// The pause between two passes of a tilt, if one is configured.
    pub fn move_delay(&self) -> (r: Option<Duration>)
        ensures
            r == (match self.move_delay_ms {
                Some(millis) => Some(duration_of_millis(millis)),
                None => None::<Duration>,
            }),
    {
        match self.move_delay_ms {
            Some(millis) => Some(duration_from_millis(millis)),
            None => None,
        }
    }
}

impl Default for Settings {
    fn default() -> (r: Self)
        ensures
            r.move_delay_ms is None,
    {
        Settings { move_delay_ms: None }
    }
}

} // verus!
