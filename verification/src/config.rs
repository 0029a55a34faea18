//! How a maze is generated: the loopy mode and its deletion chance.

use vstd::prelude::*;

verus! {

/// A probability written as a ratio of two whole numbers.
#[derive(Clone, Copy, Debug, PartialEq, Eq)]
pub struct Chance {
    numerator: u32,
    denominator: u32,
}

impl Chance {
    /// A chance lies between zero and one.
    #[verifier::type_invariant]
    spec fn in_unit_interval(self) -> bool {
        0 < self.denominator && self.numerator <= self.denominator
    }

    /// The chance as the pair of its numerator and its denominator.
    pub closed spec fn view(&self) -> (int, int) {
        (self.numerator as int, self.denominator as int)
    }

    /// The chance of `numerator` in `denominator`, where that is a
    /// probability: the denominator is not zero and not smaller than the
    /// numerator.
    pub fn new(numerator: u32, denominator: u32) -> (chance: Option<Chance>)
        ensures
            0 < denominator && numerator <= denominator ==> chance.is_some()
                && chance.unwrap()@ == (numerator as int, denominator as int),
            !(0 < denominator && numerator <= denominator) ==> chance.is_none(),
    {
        if 0 < denominator && numerator <= denominator {
            Some(Chance { numerator, denominator })
        } else {
            None
        }
    }

    /// The chance that never comes true.
    pub fn never() -> (chance: Chance)
        ensures
            chance@ == (0int, 1int),
    {
        Chance { numerator: 0, denominator: 1 }
    }

    /// The chance that always comes true.
    pub fn always() -> (chance: Chance)
        ensures
            chance@ == (1int, 1int),
    {
        Chance { numerator: 1, denominator: 1 }
    }

    /// The number of cases in which the chance comes true.
    pub fn numerator(&self) -> (numerator: u32)
        ensures
            numerator == self@.0,
            numerator <= self@.1,
    {
        proof {
            use_type_invariant(self);
        }
        self.numerator
    }

    /// The number of cases in all.
    pub fn denominator(&self) -> (denominator: u32)
        ensures
            denominator == self@.1,
            0 < denominator,
    {
        proof {
            use_type_invariant(self);
        }
        self.denominator
    }
}

/// How a maze is generated.
#[derive(Clone, Copy, Debug, PartialEq, Eq)]
pub struct MazeConfig {
    /// Whether interior walls are deleted at random after carving, which
    /// gives the maze loops.
    pub loopy: bool,
    /// The chance of each interior wall to be deleted in a loopy maze.
    pub deletion_chance: Chance,
}

impl MazeConfig {
    /// A perfect maze: nothing is deleted after carving.
    pub fn perfect() -> (config: MazeConfig)
        ensures
            !config.loopy,
            config.deletion_chance@ == (3int, 10int),
    {
        MazeConfig { loopy: false, deletion_chance: Chance { numerator: 3, denominator: 10 } }
    }

    /// A maze with loops: each interior wall that carving left is deleted
    /// with a chance of three in ten.
    pub fn loopy() -> (config: MazeConfig)
        ensures
            config.loopy,
            config.deletion_chance@ == (3int, 10int),
    {
        MazeConfig { loopy: true, deletion_chance: Chance { numerator: 3, denominator: 10 } }
    }
}

} // verus!
