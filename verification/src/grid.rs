//! The mathematical model of a maze on its doubled grid.

use vstd::prelude::*;
use crate::count::count_area;
use crate::position::{Coord, Direction};

verus! {

/// The value of a grid position that is wall.
pub const WALL: u8 = 1;

/// The value of a grid position that is open.
pub const PASSAGE: u8 = 0;

/// The cell in which carving starts.
pub open spec fn start() -> Coord {
    Coord { row: 1, col: 1 }
}

/// The grid position of the cell in row `i`, column `j` of the maze.
pub open spec fn cell_at(i: int, j: int) -> Coord {
    Coord { row: 2 * i + 1, col: 2 * j + 1 }
}

/// Whether two coordinates lie two steps apart along one axis.
pub open spec fn adjacent(a: Coord, b: Coord) -> bool {
    ||| a.row == b.row && (a.col == b.col + 2 || b.col == a.col + 2)
    ||| a.col == b.col && (a.row == b.row + 2 || b.row == a.row + 2)
}

/// The coordinate halfway between two adjacent ones.
pub open spec fn between(a: Coord, b: Coord) -> Coord {
    Coord { row: (a.row + b.row) / 2, col: (a.col + b.col) / 2 }
}

/// The mathematical model of a maze: `width` by `height` cells on a grid
/// of `2 * height + 1` rows of `2 * width + 1` values each.
#[verifier::ext_equal]
pub struct Grid {
    pub width: int,
    pub height: int,
    pub rows: Seq<Seq<u8>>,
}

impl Grid {
    /// The number of rows of the grid.
    pub open spec fn row_count(self) -> int {
        2 * self.height + 1
    }

    /// The number of columns of the grid.
    pub open spec fn col_count(self) -> int {
        2 * self.width + 1
    }

    /// Whether `p` lies on the grid.
    pub open spec fn contains(self, p: Coord) -> bool {
        0 <= p.row < self.row_count() && 0 <= p.col < self.col_count()
    }

    /// The value at `p`.
    pub open spec fn at(self, p: Coord) -> u8 {
        self.rows[p.row][p.col]
    }

    /// Cells are the positions with two odd coordinates.
    pub open spec fn is_cell(self, p: Coord) -> bool {
        self.contains(p) && p.row % 2 == 1 && p.col % 2 == 1
    }

    /// Posts are the positions with two even coordinates, where wall slots meet.
    pub open spec fn is_post(self, p: Coord) -> bool {
        self.contains(p) && p.row % 2 == 0 && p.col % 2 == 0
    }

    /// A horizontal wall slot has an even row and an odd column.
    pub open spec fn is_horizontal_slot(self, p: Coord) -> bool {
        self.contains(p) && p.row % 2 == 0 && p.col % 2 == 1
    }

    /// A vertical wall slot has an odd row and an even column.
    pub open spec fn is_vertical_slot(self, p: Coord) -> bool {
        self.contains(p) && p.row % 2 == 1 && p.col % 2 == 0
    }

    /// Wall slots are the positions with one odd and one even coordinate.
    pub open spec fn is_slot(self, p: Coord) -> bool {
        self.is_horizontal_slot(p) || self.is_vertical_slot(p)
    }

    /// Whether `p` lies in the first or last row or column.
    pub open spec fn on_border(self, p: Coord) -> bool {
        self.contains(p) && (p.row == 0 || p.row == self.row_count() - 1 || p.col == 0 || p.col
            == self.col_count() - 1)
    }

    /// The wall slots between two cells: those off the border.
    pub open spec fn is_interior_slot(self, p: Coord) -> bool {
        self.is_slot(p) && !self.on_border(p)
    }

    /// At least one cell each way, and rows of the right number and length.
    pub open spec fn shaped(self) -> bool {
        &&& self.width >= 1
        &&& self.height >= 1
        &&& self.rows.len() == self.row_count()
        &&& forall|r: int|
            0 <= r < self.row_count() ==> (#[trigger] self.rows[r]).len() == self.col_count()
    }

    /// Every value is `WALL` or `PASSAGE`.
    pub open spec fn binary(self) -> bool {
        forall|p: Coord| self.contains(p) ==> #[trigger] self.at(p) == WALL || self.at(p) == PASSAGE
    }

    /// Every position of the outer border is wall.
    pub open spec fn border_closed(self) -> bool {
        forall|p: Coord| self.on_border(p) ==> #[trigger] self.at(p) == WALL
    }

    /// Every post is wall.
    pub open spec fn posts_closed(self) -> bool {
        forall|p: Coord| self.is_post(p) ==> #[trigger] self.at(p) == WALL
    }

    /// Every cell is open.
    pub open spec fn cells_open(self) -> bool {
        forall|p: Coord| self.is_cell(p) ==> #[trigger] self.at(p) == PASSAGE
    }

    /// What holds of every maze, carved or not, with or without loops.
    pub open spec fn wf(self) -> bool {
        &&& self.shaped()
        &&& self.binary()
        &&& self.border_closed()
        &&& self.posts_closed()
        &&& self.cells_open()
    }

    /// The grid before carving: every cell open, everything else wall.
    pub open spec fn blank(width: int, height: int) -> Grid {
        Grid {
            width,
            height,
            rows: Seq::new(
                (2 * height + 1) as nat,
                |r: int|
                    Seq::new(
                        (2 * width + 1) as nat,
                        |c: int|
                            if r % 2 == 1 && c % 2 == 1 {
                                PASSAGE
                            } else {
                                WALL
                            },
                    ),
            ),
        }
    }

    /// This grid with the position `p` opened.
    pub open spec fn opened(self, p: Coord) -> Grid {
        Grid { rows: self.rows.update(p.row, self.rows[p.row].update(p.col, PASSAGE)), ..self }
    }

    /// Whether all four wall slots around the cell `c` stand.
    pub open spec fn sealed(self, c: Coord) -> bool {
        &&& self.at(c.step(Direction::Up, 1)) == WALL
        &&& self.at(c.step(Direction::Down, 1)) == WALL
        &&& self.at(c.step(Direction::Left, 1)) == WALL
        &&& self.at(c.step(Direction::Right, 1)) == WALL
    }

    /// Whether carving has reached the cell `c`: it is the start, or one
    /// of its wall slots is open.
    pub open spec fn visited(self, c: Coord) -> bool {
        c == start() || !self.sealed(c)
    }

    /// A cell that carving has not reached: any but the start with all
    /// four wall slots standing.
    pub open spec fn untouched(self, c: Coord) -> bool {
        self.is_cell(c) && c != start() && self.sealed(c)
    }

    /// Whether the cells `a` and `b` are neighbours with an open wall slot
    /// between them.
    pub open spec fn linked(self, a: Coord, b: Coord) -> bool {
        &&& self.is_cell(a)
        &&& self.is_cell(b)
        &&& adjacent(a, b)
        &&& self.at(between(a, b)) == PASSAGE
    }

    /// Whether the interior wall slot at row `r`, column `c` is open.
    pub open spec fn open_slot(self) -> spec_fn(int, int) -> bool {
        |r: int, c: int|
            self.is_interior_slot(Coord { row: r, col: c }) && self.at(Coord { row: r, col: c })
                == PASSAGE
    }

    /// The number of open interior wall slots: the edges of the cell graph.
    pub open spec fn open_passages(self) -> nat {
        count_area(self.open_slot(), self.row_count(), self.col_count())
    }

    /// Whether the cell in row `i`, column `j` of the maze is untouched.
    pub open spec fn untouched_cell(self) -> spec_fn(int, int) -> bool {
        |i: int, j: int| self.untouched(cell_at(i, j))
    }

    /// The number of cells that carving has not reached.
    pub open spec fn untouched_cells(self) -> nat {
        count_area(self.untouched_cell(), self.height, self.width)
    }
}

} // verus!
