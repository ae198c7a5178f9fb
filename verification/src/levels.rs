//! The levels of the game and the order in which they are played.

use vstd::prelude::*;

verus! {

/// A level, named after its number.
#[derive(Debug, Clone, Copy, PartialEq, Eq, Structural, Hash)]
pub enum Level {
    Lv1,
    Lv2,
    Lv3,
    Lv5,
    Lv6,
    Lv10,
    Lv60,
    Lv99,
}

impl Level {
    /// The number that the level is named after.
    pub open spec fn spec_number(self) -> u32 {
        match self {
            Level::Lv1 => 1,
            Level::Lv2 => 2,
            Level::Lv3 => 3,
            Level::Lv5 => 5,
            Level::Lv6 => 6,
            Level::Lv10 => 10,
            Level::Lv60 => 60,
            Level::Lv99 => 99,
        }
    }

    /// The level that is played after this one; the last level is followed
    /// by itself.
    pub open spec fn successor(self) -> Level {
        match self {
            Level::Lv1 => Level::Lv2,
            Level::Lv2 => Level::Lv3,
            Level::Lv3 => Level::Lv5,
            Level::Lv5 => Level::Lv6,
            Level::Lv6 => Level::Lv10,
            Level::Lv10 => Level::Lv60,
            Level::Lv60 => Level::Lv99,
            Level::Lv99 => Level::Lv99,
        }
    }

    /// The number that the level is named after.
    #[must_use]
    pub fn number(self) -> (r: u32)
        ensures
            r == self.spec_number(),
    {
        match self {
            Level::Lv1 => 1,
            Level::Lv2 => 2,
            Level::Lv3 => 3,
            Level::Lv5 => 5,
            Level::Lv6 => 6,
            Level::Lv10 => 10,
            Level::Lv60 => 60,
            Level::Lv99 => 99,
        }
    }

    /// The level named after `number`, if there is one.
    #[must_use]
    pub fn from_number(number: u32) -> (r: Option<Level>)
        ensures
            r is Some <==> exists|l: Level| l.spec_number() == number,
            r is Some ==> r->Some_0.spec_number() == number,
    {
        let found = if number == 1 {
            Some(Level::Lv1)
        } else if number == 2 {
            Some(Level::Lv2)
        } else if number == 3 {
            Some(Level::Lv3)
        } else if number == 5 {
            Some(Level::Lv5)
        } else if number == 6 {
            Some(Level::Lv6)
        } else if number == 10 {
            Some(Level::Lv10)
        } else if number == 60 {
            Some(Level::Lv60)
        } else if number == 99 {
            Some(Level::Lv99)
        } else {
            None
        };
        proof {
            if let Some(l) = found {
                assert(l.spec_number() == number);
            }
        }
        found
    }

    /// The level that is played after this one; the last level is followed
    /// by itself.
    #[must_use]
    pub fn get_next_level(self) -> (r: Level)
        ensures
            r == self.successor(),
            self != Level::Lv99 ==> r.spec_number() > self.spec_number(),
    {
        match self {
            Level::Lv1 => Level::Lv2,
            Level::Lv2 => Level::Lv3,
            Level::Lv3 => Level::Lv5,
            Level::Lv5 => Level::Lv6,
            Level::Lv6 => Level::Lv10,
            Level::Lv10 => Level::Lv60,
            Level::Lv60 => Level::Lv99,
            Level::Lv99 => Level::Lv99,
        }
    }

    /// All the levels, in the order in which they are played.
    #[must_use]
    pub fn all() -> (r: Vec<Level>)
        ensures
            r@ == seq![
                Level::Lv1,
                Level::Lv2,
                Level::Lv3,
                Level::Lv5,
                Level::Lv6,
                Level::Lv10,
                Level::Lv60,
                Level::Lv99,
            ],
    {
        let mut r: Vec<Level> = Vec::new();
        r.push(Level::Lv1);
        r.push(Level::Lv2);
        r.push(Level::Lv3);
        r.push(Level::Lv5);
        r.push(Level::Lv6);
        r.push(Level::Lv10);
        r.push(Level::Lv60);
        r.push(Level::Lv99);
        assert(r@ =~= seq![
            Level::Lv1,
            Level::Lv2,
            Level::Lv3,
            Level::Lv5,
            Level::Lv6,
            Level::Lv10,
            Level::Lv60,
            Level::Lv99,
        ]);
        r
    }
}

/// The progress that is kept between sessions.
#[derive(Debug, Clone, Copy, PartialEq, Eq, Structural, Hash)]
pub struct Save {
    /// The level to start with next time.
    pub next_level: Level,
}

impl Default for Save {
    fn default() -> (r: Self)
        ensures
            r.next_level == Level::Lv1,
    {
        Save { next_level: Level::Lv1 }
    }
}

} // verus!
