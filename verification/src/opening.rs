//! What opening wall slots does to a grid.

use vstd::prelude::*;
use crate::count::{
    lemma_count_area_differs_once, lemma_count_area_full, lemma_count_area_monotone,
    lemma_count_area_zero,
};
use crate::grid::{Grid, PASSAGE, WALL};
use crate::position::{Coord, Direction};

verus! {

/// The four wall slots around a cell lie on the grid.
pub proof fn lemma_sides(g: Grid, c: Coord)
    requires
        g.is_cell(c),
    ensures
        g.contains(c.step(Direction::Up, 1)),
        g.contains(c.step(Direction::Down, 1)),
        g.contains(c.step(Direction::Left, 1)),
        g.contains(c.step(Direction::Right, 1)),
{
}

/// Linked cells each have an open wall slot at their side.
pub proof fn lemma_linked_unseals(g: Grid, a: Coord, b: Coord)
    requires
        g.linked(a, b),
    ensures
        !g.sealed(a),
        !g.sealed(b),
{
}

/// A grid that differs from a well-formed grid only where it opens
/// interior wall slots is well-formed, and has no fewer open passages.
pub proof fn lemma_more_open(g: Grid, wider: Grid)
    requires
        g.wf(),
        wider.width == g.width,
        wider.height == g.height,
        wider.rows.len() == g.rows.len(),
        forall|r: int|
            0 <= r < g.rows.len() ==> (#[trigger] wider.rows[r]).len() == g.rows[r].len(),
        forall|p: Coord|
            g.contains(p) ==> #[trigger] wider.at(p) == g.at(p) || (g.is_interior_slot(p)
                && wider.at(p) == PASSAGE),
    ensures
        wider.wf(),
        wider.open_passages() >= g.open_passages(),
{
    assert(wider.shaped());
    assert(wider.binary());
    assert(wider.border_closed());
    assert(wider.posts_closed());
    assert(wider.cells_open());
    lemma_count_area_monotone(g.open_slot(), wider.open_slot(), g.row_count(), g.col_count());
}

/// Opening an interior wall slot changes that one position and keeps the
/// grid well-formed.
pub proof fn lemma_opened(g: Grid, slot: Coord)
    requires
        g.wf(),
        g.is_interior_slot(slot),
    ensures
        g.opened(slot).wf(),
        g.opened(slot).width == g.width,
        g.opened(slot).height == g.height,
        forall|p: Coord|
            g.contains(p) ==> #[trigger] g.opened(slot).at(p) == if p == slot {
                PASSAGE
            } else {
                g.at(p)
            },
{
    lemma_more_open(g, g.opened(slot));
}

/// The blank grid is well-formed, and nothing in it is open but the cells.
pub proof fn lemma_blank(width: int, height: int)
    requires
        width >= 1,
        height >= 1,
    ensures
        Grid::blank(width, height).wf(),
        Grid::blank(width, height).width == width,
        Grid::blank(width, height).height == height,
        forall|p: Coord|
            Grid::blank(width, height).contains(p) ==> #[trigger] Grid::blank(width, height).at(p)
                == if p.row % 2 == 1 && p.col % 2 == 1 {
                PASSAGE
            } else {
                WALL
            },
        Grid::blank(width, height).open_passages() == 0,
        Grid::blank(width, height).untouched_cells() == width * height - 1,
{
    let g = Grid::blank(width, height);
    assert(g.open_passages() == 0) by {
        lemma_count_area_zero(g.open_slot(), g.row_count(), g.col_count());
    }
    assert(g.untouched_cells() == width * height - 1) by {
        // Every cell but the start is untouched.
        let all = |i: int, j: int| true;
        lemma_count_area_full(all, height, width);
        lemma_count_area_differs_once(all, g.untouched_cell(), height, width, 0, 0);
    }
}

/// What joining the untouched neighbour of a reached cell does to the grid:
/// one more open passage, one untouched cell fewer, one more cell reached,
/// and one more pair of linked cells.
pub proof fn lemma_join(g: Grid, from: Coord, direction: Direction)
    requires
        g.wf(),
        g.is_cell(from),
        g.visited(from),
        g.untouched(from.step(direction, 2)),
    ensures
        g.is_interior_slot(from.step(direction, 1)),
        g.at(from.step(direction, 1)) == WALL,
        g.opened(from.step(direction, 1)).wf(),
        g.opened(from.step(direction, 1)).width == g.width,
        g.opened(from.step(direction, 1)).height == g.height,
        g.opened(from.step(direction, 1)).untouched_cells() + 1 == g.untouched_cells(),
        g.opened(from.step(direction, 1)).open_passages() == g.open_passages() + 1,
        forall|c: Coord|
            g.is_cell(c) ==> (#[trigger] g.opened(from.step(direction, 1)).visited(c)
                <==> g.visited(c) || c == from.step(direction, 2)),
        forall|a: Coord, b: Coord| #[trigger]
            g.opened(from.step(direction, 1)).linked(a, b) <==> g.linked(a, b) || (a == from && b
                == from.step(direction, 2)) || (a == from.step(direction, 2) && b == from),
{
    let target = from.step(direction, 2);
    let slot = from.step(direction, 1);
    let g2 = g.opened(slot);
    lemma_opened(g, slot);
    // The slot lies at the side of two cells, `from` and `target`.
    assert forall|c: Coord| g.is_cell(c) implies (#[trigger] g2.visited(c) <==> g.visited(c) || c
        == target) by {
        lemma_sides(g, c);
    }
    assert forall|a: Coord, b: Coord| #[trigger]
        g2.linked(a, b) <==> g.linked(a, b) || (a == from && b == target) || (a == target && b
            == from) by {}
    assert(g2.untouched_cells() + 1 == g.untouched_cells()) by {
        lemma_count_area_differs_once(
            g.untouched_cell(),
            g2.untouched_cell(),
            g.height,
            g.width,
            (target.row - 1) / 2,
            (target.col - 1) / 2,
        );
    }
    assert(g2.open_passages() == g.open_passages() + 1) by {
        lemma_count_area_differs_once(
            g2.open_slot(),
            g.open_slot(),
            g.row_count(),
            g.col_count(),
            slot.row,
            slot.col,
        );
    }
}

} // verus!
