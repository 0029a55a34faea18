//! The maze itself, and carving it by a script.

use vstd::prelude::*;
use crate::carve::{carved_grid, is_direction_order, is_script, Carving, Visit};
use crate::error::MazeError;
use crate::grid::{Grid, PASSAGE, WALL};
use crate::lineage::Lineage;
use crate::opening::{lemma_opened, lemma_sides};
use crate::position::{Coord, Direction, Position};
use crate::search::{lemma_advance, lemma_begin, lemma_step};
use crate::theorems::lemma_halted_is_perfect;

verus! {

/// Whether a maze of `width` by `height` cells can be built: at least one
/// cell each way, and a grid whose size is a `usize`.
pub open spec fn valid_dimensions(width: int, height: int) -> bool {
    &&& width >= 1
    &&& height >= 1
    &&& (2 * width + 1) * (2 * height + 1) <= usize::MAX
}

/// The grid that `data` holds for a maze of `width` by `height` cells.
pub open spec fn grid_of(width: usize, height: usize, data: Seq<Vec<u8>>) -> Grid {
    Grid {
        width: width as int,
        height: height as int,
        rows: Seq::new(data.len(), |r: int| data[r]@),
    }
}

/// The direction orders of a script, each as a sequence.
pub open spec fn script_of(orders: Seq<[Direction; 4]>) -> Seq<Seq<Direction>> {
    Seq::new(orders.len(), |k: int| orders[k]@)
}

/// A maze on its doubled grid.
#[derive(Debug)]
pub struct Maze {
    width: usize,
    height: usize,
    data: Vec<Vec<u8>>,
}

impl View for Maze {
    type V = Grid;

    closed spec fn view(&self) -> Grid {
        grid_of(self.width, self.height, self.data@)
    }
}

/// Whether a maze of `width` by `height` cells can be built.
pub(crate) fn dimensions_fit(width: usize, height: usize) -> (fit: bool)
    ensures
        fit == valid_dimensions(width as int, height as int),
{
    if width == 0 || height == 0 {
        return false;
    }
    proof {
        lemma_area_exceeds(width as int, height as int);
    }
    if width > (usize::MAX - 1) / 2 || height > (usize::MAX - 1) / 2 {
        return false;
    }
    let rows = 2 * height + 1;
    let cols = 2 * width + 1;
    assert((2 * width + 1) * (2 * height + 1) == rows * cols) by (nonlinear_arith)
        requires
            rows == 2 * height + 1,
            cols == 2 * width + 1,
    ;
    rows.checked_mul(cols).is_some()
}

/// A grid is at least as large as each of its sides.
pub proof fn lemma_area_exceeds(width: int, height: int)
    requires
        width >= 1,
        height >= 1,
    ensures
        (2 * width + 1) * (2 * height + 1) >= 2 * width + 1,
        (2 * width + 1) * (2 * height + 1) >= 2 * height + 1,
        (2 * width + 1) * (2 * height + 1) >= width * height,
{
    assert((2 * width + 1) * (2 * height + 1) >= 2 * width + 1) by (nonlinear_arith)
        requires
            width >= 1,
            height >= 1,
    ;
    assert((2 * width + 1) * (2 * height + 1) >= 2 * height + 1) by (nonlinear_arith)
        requires
            width >= 1,
            height >= 1,
    ;
    assert((2 * width + 1) * (2 * height + 1) >= width * height) by (nonlinear_arith)
        requires
            width >= 1,
            height >= 1,
    ;
}

/// The rows of the blank grid: every cell open, everything else wall.
fn blank_rows(width: usize, height: usize) -> (data: Vec<Vec<u8>>)
    requires
        valid_dimensions(width as int, height as int),
    ensures
        grid_of(width, height, data@) == Grid::blank(width as int, height as int),
{
    proof {
        lemma_area_exceeds(width as int, height as int);
    }
    let rows = 2 * height + 1;
    let cols = 2 * width + 1;
    let ghost blank = Grid::blank(width as int, height as int);
    let mut data: Vec<Vec<u8>> = Vec::new();
    let mut r: usize = 0;
    while r < rows
        invariant
            r <= rows,
            rows == 2 * height + 1,
            cols == 2 * width + 1,
            blank == Grid::blank(width as int, height as int),
            data.len() == r,
            forall|i: int| 0 <= i < r ==> (#[trigger] data[i])@ == blank.rows[i],
        decreases rows - r,
    {
        let mut row: Vec<u8> = Vec::new();
        let mut c: usize = 0;
        while c < cols
            invariant
                c <= cols,
                r < rows,
                rows == 2 * height + 1,
                cols == 2 * width + 1,
                blank == Grid::blank(width as int, height as int),
                row.len() == c,
                forall|j: int| 0 <= j < c ==> #[trigger] row[j] == blank.rows[r as int][j],
            decreases cols - c,
        {
            if r % 2 == 1 && c % 2 == 1 {
                row.push(PASSAGE);
            } else {
                row.push(WALL);
            }
            c += 1;
        }
        data.push(row);
        r += 1;
    }
    data
}

/// How the rows that `data` holds relate to the grid.
proof fn lemma_rows(width: usize, height: usize, data: Vec<Vec<u8>>)
    requires
        grid_of(width, height, data@).shaped(),
    ensures
        data.len() == 2 * height + 1,
        2 * height + 1 <= usize::MAX,
        2 * width + 1 <= usize::MAX,
        forall|r: int| 0 <= r < data.len() ==> (#[trigger] data[r]).len() == 2 * width + 1,
        forall|p: Coord|
            grid_of(width, height, data@).contains(p) ==> #[trigger] grid_of(
                width,
                height,
                data@,
            ).at(p) == data[p.row][p.col],
{
    let g = grid_of(width, height, data@);
    assert(data.len() == g.rows.len());
    assert(data[0].len() == 2 * width + 1) by {
        assert(g.rows[0].len() == g.col_count());
    }
    assert forall|r: int| 0 <= r < data.len() implies (#[trigger] data[r]).len() == 2 * width
        + 1 by {
        assert(g.rows[r].len() == g.col_count());
    }
}

/// A cell on the stack of the search.
#[derive(Clone, Copy)]
struct Probe {
    at: Position,
    order: usize,
    tried: usize,
}

impl View for Probe {
    type V = Visit;

    closed spec fn view(&self) -> Visit {
        Visit { cell: self.at@, order: self.order as int, tried: self.tried as int }
    }
}

/// The stack of the search, each probe as a visit.
spec fn visits_of(stack: Seq<Probe>) -> Seq<Visit> {
    Seq::new(stack.len(), |i: int| stack[i]@)
}

/// Whether all four wall slots around a cell stand.
fn is_sealed(data: &Vec<Vec<u8>>, width: usize, height: usize, at: Position) -> (sealed: bool)
    requires
        grid_of(width, height, data@).shaped(),
        grid_of(width, height, data@).is_cell(at@),
    ensures
        sealed == grid_of(width, height, data@).sealed(at@),
{
    proof {
        lemma_rows(width, height, *data);
        lemma_sides(grid_of(width, height, data@), at@);
    }
    data[at.y + 1][at.x] == WALL && data[at.y - 1][at.x] == WALL && data[at.y][at.x + 1] == WALL
        && data[at.y][at.x - 1] == WALL
}

/// The cell two steps from `from` in `direction`, where it lies on the
/// grid and carving has not reached it.
fn untouched_neighbour(
    data: &Vec<Vec<u8>>,
    width: usize,
    height: usize,
    from: Position,
    direction: Direction,
) -> (found: Option<Position>)
    requires
        grid_of(width, height, data@).shaped(),
        grid_of(width, height, data@).is_cell(from@),
    ensures
        ({
            let g = grid_of(width, height, data@);
            let target = from@.step(direction, 2);
            if g.is_cell(target) && g.sealed(target) {
                found.is_some() && found.unwrap()@ == target
            } else {
                found.is_none()
            }
        }),
{
    proof {
        lemma_rows(width, height, *data);
    }
    match from.update(&direction, 2) {
        Ok(target) => {
            if target.y < data.len() && target.x < data[0].len() && is_sealed(
                data,
                width,
                height,
                target,
            ) {
                Some(target)
            } else {
                None
            }
        },
        Err(_) => None,
    }
}

/// Opens the wall slot one step from the cell `from` in `direction`.
fn open_towards(
    data: &mut Vec<Vec<u8>>,
    width: usize,
    height: usize,
    from: Position,
    direction: Direction,
)
    requires
        grid_of(width, height, old(data)@).shaped(),
        grid_of(width, height, old(data)@).is_cell(from@),
        grid_of(width, height, old(data)@).is_cell(from@.step(direction, 2)),
    ensures
        grid_of(width, height, final(data)@) == grid_of(width, height, old(data)@).opened(
            from@.step(direction, 1),
        ),
{
    proof {
        lemma_rows(width, height, *data);
    }
    // The wall slot lies between two cells of the grid, so the move is never refused.
    if let Ok(wall) = from.update(&direction, 1) {
        data[wall.y][wall.x] = PASSAGE;
    }
}

/// Carves the blank grid by a script, with a stack in place of recursion.
fn carve_rows(width: usize, height: usize, orders: &[[Direction; 4]]) -> (data: Vec<Vec<u8>>)
    requires
        valid_dimensions(width as int, height as int),
        is_script(script_of(orders@), width as int, height as int),
    ensures
        grid_of(width, height, data@) == carved_grid(
            width as int,
            height as int,
            script_of(orders@),
        ),
        grid_of(width, height, data@).is_perfect(),
{
    let ghost script = script_of(orders@);
    let ghost begin = Carving::begin(width as int, height as int);
    let ghost fuel = (5 * (width * height)) as nat;
    let ghost mut state = begin;
    let ghost mut lineage = Lineage::root();
    let mut data = blank_rows(width, height);
    let mut stack: Vec<Probe> = Vec::new();
    stack.push(Probe { at: Position { x: 1, y: 1 }, order: 0, tried: 0 });
    let mut drawn: usize = 1;
    proof {
        lemma_begin(width as int, height as int, script);
        lemma_area_exceeds(width as int, height as int);
    }
    while stack.len() > 0
        invariant
            valid_dimensions(width as int, height as int),
            script == script_of(orders@),
            begin == Carving::begin(width as int, height as int),
            fuel == (5 * (width * height)) as nat,
            state.inv(lineage, script),
            state.grid == grid_of(width, height, data@),
            state.stack == visits_of(stack@),
            state.drawn == drawn,
            state.budget() >= 0,
            state.run(script, state.budget() as nat) == begin.run(script, fuel),
        decreases state.budget(),
    {
        let last = stack.len() - 1;
        let top = stack[last];
        let ghost next = state.step(script);
        proof {
            lemma_area_exceeds(width as int, height as int);
        }
        if top.tried >= 4 {
            stack.pop();
        } else {
            let direction = orders[top.order][top.tried];
            stack[last] = Probe { tried: top.tried + 1, ..top };
            match untouched_neighbour(&data, width, height, top.at, direction) {
                Some(target) => {
                    proof {
                        lemma_advance(state, lineage, script);
                    }
                    open_towards(&mut data, width, height, top.at, direction);
                    stack.push(Probe { at: target, order: drawn, tried: 0 });
                    drawn += 1;
                },
                None => {},
            }
        }
        proof {
            lineage = lemma_step(state, lineage, script);
            state = next;
        }
    }
    proof {
        lemma_halted_is_perfect(state, lineage, script);
    }
    data
}

/// Whether `order` holds each of the four directions.
pub fn is_order(order: &[Direction; 4]) -> (valid: bool)
    ensures
        valid == is_direction_order(order@),
{
    let mut up = false;
    let mut left = false;
    let mut right = false;
    let mut down = false;
    let mut i: usize = 0;
    while i < 4
        invariant
            i <= 4,
            up == exists|j: int| 0 <= j < i && order[j] == Direction::Up,
            left == exists|j: int| 0 <= j < i && order[j] == Direction::Left,
            right == exists|j: int| 0 <= j < i && order[j] == Direction::Right,
            down == exists|j: int| 0 <= j < i && order[j] == Direction::Down,
        decreases 4 - i,
    {
        match order[i] {
            Direction::Up => {
                up = true;
            },
            Direction::Left => {
                left = true;
            },
            Direction::Right => {
                right = true;
            },
            Direction::Down => {
                down = true;
            },
        }
        i += 1;
    }
    up && left && right && down
}

/// What carving by `script` comes to: the carved grid, or why there is none.
pub open spec fn carving_outcome(width: int, height: int, script: Seq<Seq<Direction>>) -> Result<
    Grid,
    MazeError,
> {
    if !valid_dimensions(width, height) {
        Err(MazeError::InvalidDimensions)
    } else if script.len() < width * height {
        Err(MazeError::ScriptTooShort)
    } else if !is_script(script, width, height) {
        Err(MazeError::InvalidOrder)
    } else {
        Ok(carved_grid(width, height, script))
    }
}

impl Maze {
    /// What holds of every maze that this library hands out.
    pub open spec fn wf(&self) -> bool {
        self@.wf() && valid_dimensions(self@.width, self@.height)
    }

    /// Carves a maze of `width` by `height` cells by a script: the cell
    /// discovered as number `k` probes its neighbours in the order
    /// `orders[k]`. Orders beyond one for each cell are not read.
    pub fn carve_with(width: usize, height: usize, orders: &[[Direction; 4]]) -> (carved: Result<
        Maze,
        MazeError,
    >)
        ensures
            match carved {
                Ok(maze) => {
                    &&& carving_outcome(width as int, height as int, script_of(orders@)) == Ok::<
                        Grid,
                        MazeError,
                    >(maze@)
                    &&& maze.wf()
                    &&& maze@.width == width
                    &&& maze@.height == height
                    &&& maze@.is_perfect()
                },
                Err(error) => carving_outcome(width as int, height as int, script_of(orders@))
                    == Err::<Grid, MazeError>(error),
            },
    {
        if !dimensions_fit(width, height) {
            return Err(MazeError::InvalidDimensions);
        }
        proof {
            lemma_area_exceeds(width as int, height as int);
        }
        let cells = width * height;
        if orders.len() < cells {
            return Err(MazeError::ScriptTooShort);
        }
        let ghost script = script_of(orders@);
        let mut k: usize = 0;
        while k < cells
            invariant
                k <= cells,
                valid_dimensions(width as int, height as int),
                cells == width * height,
                cells <= orders.len(),
                script == script_of(orders@),
                forall|i: int| 0 <= i < k ==> is_direction_order(#[trigger] script[i]),
            decreases cells - k,
        {
            if !is_order(&orders[k]) {
                assert(!is_direction_order(script[k as int]));
                return Err(MazeError::InvalidOrder);
            }
            k += 1;
        }
        let data = carve_rows(width, height, orders);
        Ok(Maze { width, height, data })
    }

    /// The number of cells in a row of the maze.
    pub fn width(&self) -> (width: usize)
        ensures
            width == self@.width,
    {
        self.width
    }

    /// The number of cells in a column of the maze.
    pub fn height(&self) -> (height: usize)
        ensures
            height == self@.height,
    {
        self.height
    }

    /// The number of rows of the grid.
    pub fn rows(&self) -> (rows: usize)
        requires
            self.wf(),
        ensures
            rows == self@.row_count(),
    {
        proof {
            lemma_rows(self.width, self.height, self.data);
        }
        self.data.len()
    }

    /// The number of columns of the grid.
    pub fn cols(&self) -> (cols: usize)
        requires
            self.wf(),
        ensures
            cols == self@.col_count(),
    {
        proof {
            lemma_rows(self.width, self.height, self.data);
        }
        self.data[0].len()
    }

    /// The value at a position of the grid.
    pub(crate) fn value(&self, row: usize, col: usize) -> (value: u8)
        requires
            self.wf(),
            self@.contains(Coord { row: row as int, col: col as int }),
        ensures
            value == self@.at(Coord { row: row as int, col: col as int }),
    {
        proof {
            lemma_rows(self.width, self.height, self.data);
        }
        self.data[row][col]
    }

    /// Opens an interior wall slot.
    pub(crate) fn open_at(&mut self, row: usize, col: usize)
        requires
            old(self).wf(),
            old(self)@.is_interior_slot(Coord { row: row as int, col: col as int }),
        ensures
            final(self).wf(),
            final(self)@ == old(self)@.opened(Coord { row: row as int, col: col as int }),
    {
        let ghost before = self@;
        let ghost slot = Coord { row: row as int, col: col as int };
        proof {
            lemma_rows(self.width, self.height, self.data);
            lemma_opened(before, slot);
        }
        self.data[row][col] = PASSAGE;
        proof {
            assert(self@.rows =~= before.opened(slot).rows);
        }
    }

    /// The value at `position`: `WALL` or `PASSAGE`, or nothing off the grid.
    pub fn get(&self, position: Position) -> (value: Option<u8>)
        requires
            self.wf(),
        ensures
            self@.contains(position@) ==> value == Some(self@.at(position@)),
            !self@.contains(position@) ==> value.is_none(),
    {
        proof {
            lemma_rows(self.width, self.height, self.data);
        }
        if position.y < self.data.len() && position.x < self.data[position.y].len() {
            Some(self.data[position.y][position.x])
        } else {
            None
        }
    }
}

} // verus!
