//! From the grid to the placements of its standing walls.

use vstd::prelude::*;
use crate::count::{count_area, count_row, lemma_count_area_split};
use crate::grid::{Grid, WALL};
use crate::maze::{lemma_area_exceeds, valid_dimensions, Maze};
use crate::position::Coord;

verus! {

/// Which way a wall runs.
#[derive(Clone, Copy, Debug, PartialEq, Eq, Structural)]
pub enum Toward {
    Horizontal,
    Vertical,
}

/// Where a standing wall is placed.
///
/// The centre of the wall is given in half wall lengths from the centre of
/// the maze, so that placements of a maze lie around the origin whatever
/// its size: `x` grows with the column, `y` with the row.
#[derive(Clone, Copy, Debug, PartialEq, Eq, Structural)]
pub struct WallPlacement {
    pub x: i64,
    pub y: i64,
    pub toward: Toward,
}

impl Grid {
    /// Whether `p` is a wall slot that runs `toward`.
    pub open spec fn is_slot_toward(self, p: Coord, toward: Toward) -> bool {
        match toward {
            Toward::Horizontal => self.is_horizontal_slot(p),
            Toward::Vertical => self.is_vertical_slot(p),
        }
    }

    /// Whether a wall that runs `toward` stands at `p`.
    pub open spec fn stands(self, p: Coord, toward: Toward) -> bool {
        self.is_slot_toward(p, toward) && self.at(p) == WALL
    }

    /// The placement of the wall in the slot `p`: its offset from the
    /// middle of the grid, which is the post or cell at row `height`,
    /// column `width`.
    pub open spec fn placement(self, p: Coord, toward: Toward) -> WallPlacement {
        WallPlacement { x: (p.col - self.width) as i64, y: (p.row - self.height) as i64, toward }
    }

    /// The slot of a placement.
    pub open spec fn slot_of(self, wall: WallPlacement) -> Coord {
        Coord { row: wall.y + self.height, col: wall.x + self.width }
    }

    /// The walls that run `toward` in the first `cols` columns of `row`.
    pub open spec fn row_walls(self, toward: Toward, row: int, cols: int) -> Seq<WallPlacement>
        decreases cols,
    {
        if cols <= 0 {
            Seq::empty()
        } else {
            let before = self.row_walls(toward, row, cols - 1);
            let p = Coord { row, col: cols - 1 };
            if self.stands(p, toward) {
                before.push(self.placement(p, toward))
            } else {
                before
            }
        }
    }

    /// The walls that run `toward` in the first `rows` rows, row by row.
    pub open spec fn walls_toward(self, toward: Toward, rows: int) -> Seq<WallPlacement>
        decreases rows,
    {
        if rows <= 0 {
            Seq::empty()
        } else {
            self.walls_toward(toward, rows - 1) + self.row_walls(
                toward,
                rows - 1,
                self.col_count(),
            )
        }
    }

    /// The placements of all standing walls: the horizontal ones row by
    /// row, then the vertical ones row by row.
    pub open spec fn walls(self) -> Seq<WallPlacement> {
        self.walls_toward(Toward::Horizontal, self.row_count()) + self.walls_toward(
            Toward::Vertical,
            self.row_count(),
        )
    }

    /// Whether a wall stands in the wall slot at row `r`, column `c`.
    pub open spec fn standing_slot(self) -> spec_fn(int, int) -> bool {
        |r: int, c: int|
            self.is_slot(Coord { row: r, col: c }) && self.at(Coord { row: r, col: c }) == WALL
    }

    /// The number of wall slots in which a wall stands, the border included.
    pub open spec fn standing_walls(self) -> nat {
        count_area(self.standing_slot(), self.row_count(), self.col_count())
    }
}

impl Grid {
    /// Whether a wall that runs `toward` stands at row `r`, column `c`.
    pub open spec fn standing_toward(self, toward: Toward) -> spec_fn(int, int) -> bool {
        |r: int, c: int| self.stands(Coord { row: r, col: c }, toward)
    }

    /// Whether `wall` is the placement of a wall that stands in a slot of
    /// this grid and runs as the slot does.
    pub open spec fn places(self, wall: WallPlacement) -> bool {
        &&& self.stands(self.slot_of(wall), wall.toward)
        &&& wall == self.placement(self.slot_of(wall), wall.toward)
    }

    /// The position that lies opposite `p` through the middle of the grid.
    pub open spec fn mirrored(self, p: Coord) -> Coord {
        Coord { row: 2 * self.height - p.row, col: 2 * self.width - p.col }
    }
}

/// A placement knows its slot.
pub proof fn lemma_slot_of_placement(g: Grid, p: Coord, toward: Toward)
    requires
        valid_dimensions(g.width, g.height),
        g.contains(p),
    ensures
        g.slot_of(g.placement(p, toward)) == p,
        -g.width <= g.placement(p, toward).x <= g.width,
        -g.height <= g.placement(p, toward).y <= g.height,
{
    lemma_area_exceeds(g.width, g.height);
}

/// The walls of a row are as many as the slots of the row in which a wall
/// stands, and each is the placement of such a slot.
pub proof fn lemma_row_walls(g: Grid, toward: Toward, row: int, cols: int)
    requires
        valid_dimensions(g.width, g.height),
        0 <= row < g.row_count(),
        0 <= cols <= g.col_count(),
    ensures
        g.row_walls(toward, row, cols).len() == count_row(g.standing_toward(toward), row, cols),
        forall|i: int|
            0 <= i < g.row_walls(toward, row, cols).len() ==> g.places(
                g.row_walls(toward, row, cols)[i],
            ) && (#[trigger] g.row_walls(toward, row, cols)[i]).toward == toward,
    decreases cols,
{
    if cols > 0 {
        lemma_row_walls(g, toward, row, cols - 1);
        let p = Coord { row, col: cols - 1 };
        lemma_slot_of_placement(g, p, toward);
    }
}

/// The walls of the first rows are as many as the slots of those rows in
/// which a wall stands, and each is the placement of such a slot.
pub proof fn lemma_walls_toward(g: Grid, toward: Toward, rows: int)
    requires
        valid_dimensions(g.width, g.height),
        0 <= rows <= g.row_count(),
    ensures
        g.walls_toward(toward, rows).len() == count_area(
            g.standing_toward(toward),
            rows,
            g.col_count(),
        ),
        forall|i: int|
            0 <= i < g.walls_toward(toward, rows).len() ==> g.places(
                g.walls_toward(toward, rows)[i],
            ) && (#[trigger] g.walls_toward(toward, rows)[i]).toward == toward,
    decreases rows,
{
    if rows > 0 {
        lemma_walls_toward(g, toward, rows - 1);
        lemma_row_walls(g, toward, rows - 1, g.col_count());
    }
}

/// There is one placement for each wall slot in which a wall stands, and
/// each placement runs as its slot does: horizontally where the row is
/// even and the column odd, vertically where the row is odd and the
/// column even.
pub proof fn lemma_walls_match_slots(g: Grid)
    requires
        valid_dimensions(g.width, g.height),
    ensures
        g.walls().len() == g.standing_walls(),
        forall|i: int| 0 <= i < g.walls().len() ==> g.places(#[trigger] g.walls()[i]),
{
    lemma_walls_toward(g, Toward::Horizontal, g.row_count());
    lemma_walls_toward(g, Toward::Vertical, g.row_count());
    lemma_count_area_split(
        g.standing_slot(),
        g.standing_toward(Toward::Horizontal),
        g.standing_toward(Toward::Vertical),
        g.row_count(),
        g.col_count(),
    );
}

/// The walls of a row hold the placement of each wall that stands in it.
proof fn lemma_row_walls_hold(g: Grid, toward: Toward, p: Coord, cols: int)
    requires
        g.stands(p, toward),
        p.col < cols,
    ensures
        g.row_walls(toward, p.row, cols).contains(g.placement(p, toward)),
    decreases cols,
{
    let walls = g.row_walls(toward, p.row, cols);
    if p.col == cols - 1 {
        assert(walls[walls.len() - 1] == g.placement(p, toward));
    } else {
        lemma_row_walls_hold(g, toward, p, cols - 1);
        let before = g.row_walls(toward, p.row, cols - 1);
        let i = choose|i: int| 0 <= i < before.len() && before[i] == g.placement(p, toward);
        assert(walls[i] == g.placement(p, toward));
    }
}

/// The walls of the first rows hold the placement of each wall that
/// stands in them.
proof fn lemma_walls_toward_hold(g: Grid, toward: Toward, p: Coord, rows: int)
    requires
        g.stands(p, toward),
        p.row < rows,
    ensures
        g.walls_toward(toward, rows).contains(g.placement(p, toward)),
    decreases rows,
{
    let walls = g.walls_toward(toward, rows);
    let above = g.walls_toward(toward, rows - 1);
    let row = g.row_walls(toward, rows - 1, g.col_count());
    if p.row == rows - 1 {
        lemma_row_walls_hold(g, toward, p, g.col_count());
        let i = choose|i: int| 0 <= i < row.len() && row[i] == g.placement(p, toward);
        assert(walls[above.len() + i] == g.placement(p, toward));
    } else {
        lemma_walls_toward_hold(g, toward, p, rows - 1);
        let i = choose|i: int| 0 <= i < above.len() && above[i] == g.placement(p, toward);
        assert(walls[i] == g.placement(p, toward));
    }
}

/// Every wall that stands is placed.
pub proof fn lemma_standing_walls_are_placed(g: Grid, p: Coord, toward: Toward)
    requires
        g.stands(p, toward),
    ensures
        g.walls().contains(g.placement(p, toward)),
{
    let horizontal = g.walls_toward(Toward::Horizontal, g.row_count());
    let vertical = g.walls_toward(Toward::Vertical, g.row_count());
    lemma_walls_toward_hold(g, toward, p, g.row_count());
    match toward {
        Toward::Horizontal => {
            let i = choose|i: int|
                0 <= i < horizontal.len() && horizontal[i] == g.placement(p, toward);
            assert(g.walls()[i] == g.placement(p, toward));
        },
        Toward::Vertical => {
            let i = choose|i: int| 0 <= i < vertical.len() && vertical[i] == g.placement(p, toward);
            assert(g.walls()[horizontal.len() + i] == g.placement(p, toward));
        },
    }
}

/// Wall slots lie in pairs opposite each other through the middle of the
/// grid, and the placements of such a pair are opposite through the origin.
pub proof fn lemma_placements_mirror(g: Grid, p: Coord, toward: Toward)
    requires
        valid_dimensions(g.width, g.height),
        g.is_slot_toward(p, toward),
    ensures
        g.is_slot_toward(g.mirrored(p), toward),
        g.placement(g.mirrored(p), toward).x == -g.placement(p, toward).x,
        g.placement(g.mirrored(p), toward).y == -g.placement(p, toward).y,
        g.on_border(p) <==> g.on_border(g.mirrored(p)),
{
    lemma_slot_of_placement(g, p, toward);
    lemma_slot_of_placement(g, g.mirrored(p), toward);
}

/// The distance of `index` from `middle`, signed.
fn offset(index: usize, middle: usize) -> (distance: i64)
    requires
        index <= 2 * middle,
        2 * middle + 1 <= usize::MAX,
    ensures
        distance == index - middle,
{
    if index >= middle {
        (index - middle) as i64
    } else {
        -((middle - index) as i64)
    }
}

impl Maze {
    /// Adds to `walls` the placements of the walls that run `toward`.
    fn collect_walls(&self, toward: Toward, walls: &mut Vec<WallPlacement>)
        requires
            self.wf(),
        ensures
            final(walls)@ == old(walls)@ + self@.walls_toward(toward, self@.row_count()),
    {
        let ghost g = self@;
        let ghost before = walls@;
        let rows = self.rows();
        let cols = self.cols();
        let width = self.width();
        let height = self.height();
        let mut r: usize = 0;
        while r < rows
            invariant
                self.wf(),
                g == self@,
                rows == g.row_count(),
                cols == g.col_count(),
                width == g.width,
                height == g.height,
                r <= rows,
                walls@ == before + g.walls_toward(toward, r as int),
            decreases rows - r,
        {
            let ghost above = walls@;
            let mut c: usize = 0;
            while c < cols
                invariant
                    self.wf(),
                    g == self@,
                    rows == g.row_count(),
                    cols == g.col_count(),
                    width == g.width,
                    height == g.height,
                    r < rows,
                    c <= cols,
                    walls@ == above + g.row_walls(toward, r as int, c as int),
                decreases cols - c,
            {
                let in_slot = match toward {
                    Toward::Horizontal => r % 2 == 0 && c % 2 == 1,
                    Toward::Vertical => r % 2 == 1 && c % 2 == 0,
                };
                if in_slot && self.value(r, c) == WALL {
                    walls.push(WallPlacement { x: offset(c, width), y: offset(r, height), toward });
                }
                c += 1;
            }
            assert(walls@ == before + g.walls_toward(toward, r + 1)) by {
                assert(walls@ =~= before + (g.walls_toward(toward, r as int) + g.row_walls(
                    toward,
                    r as int,
                    cols as int,
                )));
            }
            r += 1;
        }
    }

    /// The placements of all standing walls, the border included.
    ///
    /// Cells, posts and open wall slots place nothing.
    pub fn walls(&self) -> (walls: Vec<WallPlacement>)
        requires
            self.wf(),
        ensures
            walls@ == self@.walls(),
            walls.len() == self@.standing_walls(),
            forall|i: int| 0 <= i < walls.len() ==> self@.places(#[trigger] walls[i]),
            forall|p: Coord, toward: Toward|
                self@.stands(p, toward) ==> walls@.contains(#[trigger] self@.placement(p, toward)),
    {
        let mut walls: Vec<WallPlacement> = Vec::new();
        self.collect_walls(Toward::Horizontal, &mut walls);
        self.collect_walls(Toward::Vertical, &mut walls);
        proof {
            lemma_walls_match_slots(self@);
            assert forall|p: Coord, toward: Toward| self@.stands(p, toward) implies walls@.contains(
                #[trigger] self@.placement(p, toward),
            ) by {
                lemma_standing_walls_are_placed(self@, p, toward);
            }
        }
        walls
    }
}

} // verus!
