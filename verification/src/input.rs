//! What a key press asks for, and what the session does next.

use vstd::prelude::*;
use crate::direction::Horizontal;
use crate::round::RoundResult;

verus! {

/// A key press, as far as the game tells keys apart.
#[derive(Debug, Clone, Copy, PartialEq, Eq, Structural, Hash)]
pub enum Key {
    Char(char),
    ArrowUp,
    ArrowDown,
    ArrowLeft,
    ArrowRight,
    Escape,
    /// Any other key.
    Other,
}

/// What the player asks for with a key press.
#[derive(Debug, Clone, Copy, PartialEq, Eq, Structural, Hash)]
pub enum Request {
    /// Tilt the board.
    Tilt(Horizontal),
    /// Show the help text.
    Help,
    /// Start the level again.
    Restart,
    /// Open the command line.
    Command,
    /// Leave the game.
    Quit,
    /// Nothing: the key has no meaning.
    Ignore,
}

/// What the session has to do once the player's request is dealt with.
#[derive(Debug, Clone, PartialEq, Eq)]
pub enum Action {
    LoadLevel(String),
    Result(RoundResult),
    RestartLevel,
    Quit,
}

/// The meaning of each key: the arrows and `w`, `a`, `s`, `d` tilt, `?` and
/// `h` ask for help, `r` restarts, `:` opens the command line, and escape
/// quits.
pub open spec fn meaning(key: Key) -> Request {
    match key {
        Key::ArrowUp => Request::Tilt(Horizontal::Top),
        Key::ArrowLeft => Request::Tilt(Horizontal::Left),
        Key::ArrowDown => Request::Tilt(Horizontal::Bottom),
        Key::ArrowRight => Request::Tilt(Horizontal::Right),
        Key::Escape => Request::Quit,
        Key::Other => Request::Ignore,
        Key::Char(c) => if c == 'w' {
            Request::Tilt(Horizontal::Top)
        } else if c == 'a' {
            Request::Tilt(Horizontal::Left)
        } else if c == 's' {
            Request::Tilt(Horizontal::Bottom)
        } else if c == 'd' {
            Request::Tilt(Horizontal::Right)
        } else if c == '?' || c == 'h' {
            Request::Help
        } else if c == 'r' {
            Request::Restart
        } else if c == ':' {
            Request::Command
        } else {
            Request::Ignore
        },
    }
}

/// Reads a key press.
pub fn handle_input(input: &Key) -> (r: Request)
    ensures
        r == meaning(*input),
{
    match input {
        Key::ArrowUp => Request::Tilt(Horizontal::Top),
        Key::ArrowLeft => Request::Tilt(Horizontal::Left),
        Key::ArrowDown => Request::Tilt(Horizontal::Bottom),
        Key::ArrowRight => Request::Tilt(Horizontal::Right),
        Key::Escape => Request::Quit,
        Key::Other => Request::Ignore,
        Key::Char(c) => {
            let c: char = *c;
            if c == 'w' {
                Request::Tilt(Horizontal::Top)
            } else if c == 'a' {
                Request::Tilt(Horizontal::Left)
            } else if c == 's' {
                Request::Tilt(Horizontal::Bottom)
            } else if c == 'd' {
                Request::Tilt(Horizontal::Right)
            } else if c == '?' || c == 'h' {
                Request::Help
            } else if c == 'r' {
                Request::Restart
            } else if c == ':' {
                Request::Command
            } else {
                Request::Ignore
            }
        },
    }
}

} // verus!
