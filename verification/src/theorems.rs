//! What carving and generation guarantee: perfect mazes, the same maze
//! for the same script, a closed border and open cells.

use vstd::prelude::*;
use crate::carve::{carved_grid, is_script, Carving};
use crate::count::lemma_count_area_zero;
use crate::deletion::{lemma_deleted, lemma_deleted_connected};
use crate::generate::generated_grid;
use crate::grid::{cell_at, start, Grid, PASSAGE};
use crate::lineage::{lemma_grown, lemma_visited_joined, Lineage};
use crate::paths::{lemma_no_cycle, lemma_one_way, lemma_shortcut, lemma_walk_back, lemma_walk_on};
use crate::position::{Coord, Direction};
use crate::search::{lemma_begin, lemma_run, lemma_step};

verus! {

/// When the search has halted, it has reached every cell.
pub proof fn lemma_reached(s: Carving, t: Lineage, script: Seq<Seq<Direction>>, c: Coord)
    requires
        s.inv(t, script),
        s.halted(),
        s.grid.is_cell(c),
    ensures
        s.grid.visited(c),
    decreases c.row + c.col,
{
    if c != start() {
        let before = if c.row > 1 {
            Coord { row: c.row - 2, col: c.col }
        } else {
            Coord { row: c.row, col: c.col - 2 }
        };
        lemma_reached(s, t, script, before);
        // The search has left `before`, so it has looked at `c` from there.
        assert(s.settled(before));
    }
}

/// A walk from the start to a cell of the tree, along the cells that it
/// descends from.
pub proof fn lemma_route(t: Lineage, g: Grid, c: Coord) -> (path: Seq<Coord>)
    requires
        g.wf(),
        t.describes(g),
        g.is_cell(c),
        t.joined(c),
    ensures
        g.joins(path, start(), c),
    decreases (t.depth)(c),
{
    if c == start() {
        seq![c]
    } else {
        lemma_grown(t, g, c);
        let before = lemma_route(t, g, t.parent[c]);
        let path = before.push(c);
        assert forall|i: int| 0 <= i < path.len() - 1 implies #[trigger] g.hop(path, i) by {
            if i < before.len() - 1 {
                assert(g.hop(before, i));
            }
        }
        path
    }
}

/// Where the search halts, the maze is perfect.
pub proof fn lemma_halted_is_perfect(s: Carving, t: Lineage, script: Seq<Seq<Direction>>)
    requires
        s.inv(t, script),
        s.halted(),
    ensures
        s.grid.is_perfect(),
        s.drawn == s.grid.width * s.grid.height,
{
    let g = s.grid;
    assert(g.connected()) by {
        assert forall|a: Coord, b: Coord|
            g.is_cell(a) && g.is_cell(b) implies #[trigger] g.reachable(a, b) by {
            lemma_reached(s, t, script, a);
            lemma_reached(s, t, script, b);
            lemma_visited_joined(t, g, a);
            lemma_visited_joined(t, g, b);
            let to_a = lemma_route(t, g, a);
            let to_b = lemma_route(t, g, b);
            lemma_walk_back(g, to_a);
            lemma_walk_on(g, to_a.reverse(), to_b);
        }
    }
    assert(g.acyclic()) by {
        assert forall|path: Seq<Coord>| !#[trigger] g.is_cycle(path) by {
            lemma_no_cycle(t, g, path);
        }
    }
    assert(g.single_pathed()) by {
        assert forall|a: Coord, b: Coord|
            g.is_cell(a) && g.is_cell(b) implies #[trigger] g.has_only_path(a, b) by {
            assert(g.reachable(a, b));
            let walk = choose|walk: Seq<Coord>| #[trigger] g.joins(walk, a, b);
            let path = lemma_shortcut(g, walk);
            assert forall|other: Seq<Coord>|
                g.is_simple_path(other) && #[trigger] g.joins(other, a, b) implies other
                == path by {
                lemma_one_way(t, g, other, path);
            }
            assert(g.is_only_path(path, a, b));
        }
    }
    assert(g.untouched_cells() == 0) by {
        let untouched = g.untouched_cell();
        assert forall|i: int, j: int|
            0 <= i < g.height && 0 <= j < g.width implies !#[trigger] untouched(i, j) by {
            lemma_reached(s, t, script, cell_at(i, j));
        }
        lemma_count_area_zero(g.untouched_cell(), g.height, g.width);
    }
}

/// Carving by any script yields a perfect maze of the dimensions asked for.
pub proof fn lemma_carved_grid_is_perfect(width: int, height: int, script: Seq<Seq<Direction>>)
    requires
        width >= 1,
        height >= 1,
        is_script(script, width, height),
    ensures
        carved_grid(width, height, script).is_perfect(),
        carved_grid(width, height, script).width == width,
        carved_grid(width, height, script).height == height,
{
    lemma_begin(width, height, script);
    let begin = Carving::begin(width, height);
    assert(width * height >= 1) by (nonlinear_arith)
        requires
            width >= 1,
            height >= 1,
    ;
    let t = lemma_run(begin, Lineage::root(), script);
    lemma_halted_is_perfect(begin.run(script, begin.budget() as nat), t, script);
}

/// Whether two scripts hold the same first `count` orders.
pub open spec fn same_orders(
    first: Seq<Seq<Direction>>,
    second: Seq<Seq<Direction>>,
    count: int,
) -> bool {
    &&& first.len() >= count
    &&& second.len() >= count
    &&& forall|k: int| 0 <= k < count ==> first[k] == second[k]
}

/// The search reads no order of the script but those of the cells.
proof fn lemma_run_reads_orders_of_cells(
    s: Carving,
    t: Lineage,
    first: Seq<Seq<Direction>>,
    second: Seq<Seq<Direction>>,
    fuel: nat,
)
    requires
        s.inv(t, first),
        same_orders(first, second, s.grid.width * s.grid.height),
    ensures
        s.run(first, fuel) == s.run(second, fuel),
    decreases fuel,
{
    if fuel > 0 && !s.halted() {
        // The order of the current cell is one of those that the scripts share.
        let top = s.stack[s.stack.len() - 1];
        assert(s.visit_ok(top, t, first));
        assert(first[top.order] == second[top.order]);
        assert(s.step(first) == s.step(second));
        let t1 = lemma_step(s, t, first);
        lemma_run_reads_orders_of_cells(s.step(first), t1, first, second, (fuel - 1) as nat);
    }
}

/// Carving is a function of the dimensions and of the direction orders
/// handed to the cells: two scripts that hold the same order for each cell
/// carve the same maze, whatever follows in them.
pub proof fn lemma_carving_is_deterministic(
    width: int,
    height: int,
    first: Seq<Seq<Direction>>,
    second: Seq<Seq<Direction>>,
)
    requires
        width >= 1,
        height >= 1,
        is_script(first, width, height),
        same_orders(first, second, width * height),
    ensures
        carved_grid(width, height, first) == carved_grid(width, height, second),
{
    lemma_begin(width, height, first);
    lemma_run_reads_orders_of_cells(
        Carving::begin(width, height),
        Lineage::root(),
        first,
        second,
        (5 * (width * height)) as nat,
    );
}

/// Every generated maze, loopy or not, is well-formed: each position of
/// the outer border is wall, and each cell is open.
pub proof fn lemma_generated_is_well_formed(
    width: int,
    height: int,
    loopy: bool,
    script: Seq<Seq<Direction>>,
    decisions: Seq<bool>,
)
    requires
        width >= 1,
        height >= 1,
        is_script(script, width, height),
    ensures
        generated_grid(width, height, loopy, script, decisions).wf(),
        generated_grid(width, height, loopy, script, decisions).border_closed(),
        generated_grid(width, height, loopy, script, decisions).cells_open(),
{
    lemma_carved_grid_is_perfect(width, height, script);
    lemma_deleted(carved_grid(width, height, script), decisions);
}

/// Loopy mode opens no fewer passages than carving alone: every wall slot
/// that carving opened stays open, so the loopy maze has at least as many
/// open passages as the perfect maze under it, and is connected as well.
pub proof fn lemma_loopy_keeps_passages(
    width: int,
    height: int,
    script: Seq<Seq<Direction>>,
    decisions: Seq<bool>,
)
    requires
        width >= 1,
        height >= 1,
        is_script(script, width, height),
    ensures
        generated_grid(width, height, true, script, decisions).open_passages() >= generated_grid(
            width,
            height,
            false,
            script,
            decisions,
        ).open_passages(),
        forall|p: Coord|
            generated_grid(width, height, false, script, decisions).contains(p) && generated_grid(
                width,
                height,
                false,
                script,
                decisions,
            ).at(p) == PASSAGE ==> #[trigger] generated_grid(
                width,
                height,
                true,
                script,
                decisions,
            ).at(p) == PASSAGE,
        generated_grid(width, height, true, script, decisions).connected(),
{
    lemma_carved_grid_is_perfect(width, height, script);
    lemma_deleted(carved_grid(width, height, script), decisions);
    lemma_deleted_connected(carved_grid(width, height, script), decisions);
}

} // verus!
