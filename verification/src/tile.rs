//! What a single cell of the board can hold.

use vstd::prelude::*;
use crate::direction::Diagonal;

verus! {

/// The kind of thing found in a cell.
///
/// `RoundRock` marks a loose rock in level data only: loading a level moves
/// those into the rock set and leaves `Empty` behind.
#[derive(Debug, Clone, Copy, PartialEq, Eq, Structural, Hash)]
pub enum RockKind {
    /// Free floor.
    Empty,
    /// A loose, rolling rock.
    RoundRock,
    /// A wall: nothing passes.
    SquareRock,
    /// A reflector: passable from its slanted side, turning the rock.
    SingleReflect(Diagonal),
}

impl RockKind {
    /// The kind that a level glyph stands for, if it stands for any.
    pub open spec fn of_glyph(c: char) -> Option<RockKind> {
        if c == '.' {
            Some(RockKind::Empty)
        } else if c == 'o' || c == 'O' {
            Some(RockKind::RoundRock)
        } else if c == '#' {
            Some(RockKind::SquareRock)
        } else if c == '◢' {
            Some(RockKind::SingleReflect(Diagonal::TopLeft))
        } else if c == '◣' {
            Some(RockKind::SingleReflect(Diagonal::TopRight))
        } else if c == '◥' {
            Some(RockKind::SingleReflect(Diagonal::BottomLeft))
        } else if c == '◤' {
            Some(RockKind::SingleReflect(Diagonal::BottomRight))
        } else {
            None
        }
    }

    /// The glyph that shows this kind on screen.
    pub open spec fn glyph(self) -> char {
        match self {
            RockKind::Empty => '•',
            RockKind::RoundRock => '○',
            RockKind::SquareRock => '▨',
            RockKind::SingleReflect(Diagonal::TopLeft) => '◢',
            RockKind::SingleReflect(Diagonal::TopRight) => '◣',
            RockKind::SingleReflect(Diagonal::BottomLeft) => '◥',
            RockKind::SingleReflect(Diagonal::BottomRight) => '◤',
        }
    }

    /// Reads a level glyph: `.` is free floor, `o` or `O` a loose rock, `#` a
    /// wall, and the four corner triangles are the reflectors.
    pub fn from_char(c: char) -> (r: Option<RockKind>)
        ensures
            r == RockKind::of_glyph(c),
    {
        if c == '.' {
            Some(RockKind::Empty)
        } else if c == 'o' || c == 'O' {
            Some(RockKind::RoundRock)
        } else if c == '#' {
            Some(RockKind::SquareRock)
        } else if c == '◢' {
            Some(RockKind::SingleReflect(Diagonal::TopLeft))
        } else if c == '◣' {
            Some(RockKind::SingleReflect(Diagonal::TopRight))
        } else if c == '◥' {
            Some(RockKind::SingleReflect(Diagonal::BottomLeft))
        } else if c == '◤' {
            Some(RockKind::SingleReflect(Diagonal::BottomRight))
        } else {
            None
        }
    }

    /// The glyph that shows this kind on screen.
    pub fn to_char(self) -> (r: char)
        ensures
            r == self.glyph(),
    {
        match self {
            RockKind::Empty => '•',
            RockKind::RoundRock => '○',
            RockKind::SquareRock => '▨',
            RockKind::SingleReflect(Diagonal::TopLeft) => '◢',
            RockKind::SingleReflect(Diagonal::TopRight) => '◣',
            RockKind::SingleReflect(Diagonal::BottomLeft) => '◥',
            RockKind::SingleReflect(Diagonal::BottomRight) => '◤',
        }
    }
}

impl Default for RockKind {
    fn default() -> (r: Self)
        ensures
            r == RockKind::Empty,
    {
        RockKind::Empty
    }
}

/// A rock of some kind.
#[derive(Debug, Clone, Copy, PartialEq, Eq, Structural, Hash)]
pub struct Rock {
    pub kind: RockKind,
}

impl Rock {
    /// The glyph that shows this rock on screen.
    pub fn to_char(&self) -> (r: char)
        ensures
            r == self.kind.glyph(),
    {
        self.kind.to_char()
    }
}

/// The terrain of one cell.
#[derive(Debug, Clone, Copy, PartialEq, Eq, Structural, Hash)]
pub struct Tile {
    pub rock: RockKind,
}

impl Tile {
    /// Reads the tile that a level glyph stands for.
    pub fn from_char(c: char) -> (r: Option<Tile>)
        ensures
            r == match RockKind::of_glyph(c) {
                Some(rock) => Some(Tile { rock }),
                None => None,
            },
    {
        match RockKind::from_char(c) {
            Some(rock) => Some(Tile { rock }),
            None => None,
        }
    }

    /// The glyph that shows this tile on screen.
    pub fn to_char(&self) -> (r: char)
        ensures
            r == self.rock.glyph(),
    {
        self.rock.to_char()
    }

    /// Whether nothing can ever enter this cell.
    pub open spec fn is_wall(self) -> bool {
        self.rock == RockKind::SquareRock
    }

    /// Whether this cell turns the rocks that enter it.
    pub open spec fn is_reflector(self) -> bool {
        self.rock is SingleReflect
    }
}

impl Default for Tile {
    fn default() -> (r: Self)
        ensures
            r == (Tile { rock: RockKind::Empty }),
    {
        Tile { rock: RockKind::Empty }
    }
}

impl From<RockKind> for Tile {
    fn from(value: RockKind) -> (r: Tile) {
        Tile { rock: value }
    }
}

impl vstd::std_specs::convert::FromSpecImpl<RockKind> for Tile {
    open spec fn obeys_from_spec() -> bool {
        true
    }

    open spec fn from_spec(value: RockKind) -> Tile {
        Tile { rock: value }
    }
}

} // verus!
