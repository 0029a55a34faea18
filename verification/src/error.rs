//! Why a maze operation was rejected.

use vstd::prelude::*;

verus! {

/// Why a maze operation was rejected.
#[derive(Clone, Copy, Debug, PartialEq, Eq, Structural)]
pub enum MazeError {
    /// The width or the height is zero, or the doubled grid would not fit in memory.
    InvalidDimensions,
    /// A move would leave the range of coordinates that a position can hold.
    PositionOutOfRange,
    /// A script holds fewer entries than the operation consumes.
    ScriptTooShort,
    /// A direction order of a script does not hold each direction exactly once.
    InvalidOrder,
}

} // verus!
