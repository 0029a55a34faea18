//! Carving as a state machine: a depth-first search with an explicit
//! stack, steered by a script of direction orders.

use vstd::prelude::*;
use crate::grid::{start, Grid};
use crate::position::{Coord, Direction};

verus! {

/// Whether `order` holds each of the four directions, and so each exactly once.
pub open spec fn is_direction_order(order: Seq<Direction>) -> bool {
    &&& order.len() == 4
    &&& order.contains(Direction::Up)
    &&& order.contains(Direction::Left)
    &&& order.contains(Direction::Right)
    &&& order.contains(Direction::Down)
}

/// Whether `script` can steer the carving of `width` by `height` cells:
/// one direction order for each cell, in the order in which the cells are
/// discovered.
pub open spec fn is_script(script: Seq<Seq<Direction>>, width: int, height: int) -> bool {
    &&& script.len() >= width * height
    &&& forall|k: int| 0 <= k < width * height ==> is_direction_order(#[trigger] script[k])
}

/// A cell that the search has entered and not yet left.
pub struct Visit {
    /// Where the cell lies on the grid.
    pub cell: Coord,
    /// Which order of the script the cell probes its neighbours in.
    pub order: int,
    /// How many directions of that order have been probed.
    pub tried: int,
}

/// A state of the carving: a depth-first search with an explicit stack.
#[verifier::ext_equal]
pub struct Carving {
    pub grid: Grid,
    /// The cells on the way from the start to the current cell, which is last.
    pub stack: Seq<Visit>,
    /// How many orders of the script have been handed out, one to each
    /// discovered cell.
    pub drawn: int,
}

impl Carving {
    /// Carving begins on the blank grid, in the start cell, with the first order.
    pub open spec fn begin(width: int, height: int) -> Carving {
        Carving {
            grid: Grid::blank(width, height),
            stack: seq![Visit { cell: start(), order: 0, tried: 0 }],
            drawn: 1,
        }
    }

    /// Carving is over when the search has retreated from the start cell.
    pub open spec fn halted(self) -> bool {
        self.stack.len() == 0
    }

    /// One step of the search. The current cell probes the next direction
    /// of its order: a neighbour that lies on the grid with all four wall
    /// slots standing is joined through the wall slot in between and
    /// becomes the current cell, with the next order of the script. Any
    /// other neighbour is passed over. A cell that has probed all four
    /// directions is left.
    pub open spec fn step(self, script: Seq<Seq<Direction>>) -> Carving {
        if self.halted() {
            self
        } else {
            let top = self.stack.last();
            if top.tried >= 4 {
                Carving { stack: self.stack.drop_last(), ..self }
            } else {
                let direction = script[top.order][top.tried];
                let target = top.cell.step(direction, 2);
                let probed = self.stack.drop_last().push(Visit { tried: top.tried + 1, ..top });
                if self.grid.is_cell(target) && self.grid.sealed(target) {
                    Carving {
                        grid: self.grid.opened(top.cell.step(direction, 1)),
                        stack: probed.push(Visit { cell: target, order: self.drawn, tried: 0 }),
                        drawn: self.drawn + 1,
                    }
                } else {
                    Carving { stack: probed, ..self }
                }
            }
        }
    }

    /// The state after at most `fuel` steps, or where the search halts
    /// before that.
    pub open spec fn run(self, script: Seq<Seq<Direction>>, fuel: nat) -> Carving
        decreases fuel,
    {
        if fuel == 0 || self.halted() {
            self
        } else {
            self.step(script).run(script, (fuel - 1) as nat)
        }
    }
}

/// The maze that `script` carves into `width` by `height` cells.
///
/// Every cell costs the search five steps, four probes and one retreat,
/// so five steps for each cell are enough for it to halt.
pub open spec fn carved_grid(width: int, height: int, script: Seq<Seq<Direction>>) -> Grid {
    Carving::begin(width, height).run(script, (5 * (width * height)) as nat).grid
}

} // verus!
