//! Walks through a maze: turned round, joined, freed of detours, and
//! why a tree leaves only one walk between two cells.

use vstd::prelude::*;
use crate::grid::Grid;
use crate::lineage::{lemma_bound, lemma_grown, Lineage};
use crate::position::Coord;

verus! {

/// A walk can be walked backwards.
pub proof fn lemma_walk_back(g: Grid, path: Seq<Coord>)
    requires
        g.is_path(path),
    ensures
        g.joins(path.reverse(), path.last(), path[0]),
{
    let back = path.reverse();
    let n = path.len() as int;
    if n > 1 {
        assert(g.hop(path, n - 2));
    }
    assert forall|i: int| 0 <= i < back.len() - 1 implies #[trigger] g.hop(back, i) by {
        assert(g.hop(path, n - 2 - i));
    }
}

/// Two walks, the second of which starts where the first ends, make one walk.
pub proof fn lemma_walk_on(g: Grid, first: Seq<Coord>, second: Seq<Coord>)
    requires
        g.is_path(first),
        g.is_path(second),
        first.last() == second[0],
    ensures
        g.joins(first + second.drop_first(), first[0], second.last()),
{
    let path = first + second.drop_first();
    let n = first.len() as int;
    assert forall|i: int| 0 <= i < path.len() - 1 implies #[trigger] g.hop(path, i) by {
        if i < n - 1 {
            assert(g.hop(first, i));
        } else {
            assert(g.hop(second, i - n + 1));
        }
    }
}

/// The first cells of a walk are a walk.
pub proof fn lemma_walk_start(g: Grid, path: Seq<Coord>, cells: int)
    requires
        g.is_path(path),
        1 <= cells <= path.len(),
    ensures
        g.is_path(path.take(cells)),
        path.no_duplicates() ==> path.take(cells).no_duplicates(),
{
    let start = path.take(cells);
    assert forall|i: int| 0 <= i < start.len() - 1 implies #[trigger] g.hop(start, i) by {
        assert(g.hop(path, i));
    }
    if path.no_duplicates() {
        assert forall|i: int, j: int|
            0 <= i < start.len() && 0 <= j < start.len() && i != j implies start[i] != start[j] by {
            assert(path[i] != path[j]);
        }
    }
}

/// The cells of a walk after the first are a walk.
pub proof fn lemma_walk_rest(g: Grid, path: Seq<Coord>)
    requires
        g.is_path(path),
        path.len() >= 2,
    ensures
        g.is_path(path.drop_first()),
        path.no_duplicates() ==> path.drop_first().no_duplicates(),
{
    let rest = path.drop_first();
    assert(g.hop(path, 0));
    assert forall|i: int| 0 <= i < rest.len() - 1 implies #[trigger] g.hop(rest, i) by {
        assert(g.hop(path, i + 1));
    }
    if path.no_duplicates() {
        assert forall|i: int, j: int|
            0 <= i < rest.len() && 0 <= j < rest.len() && i != j implies rest[i] != rest[j] by {
            assert(path[i + 1] != path[j + 1]);
        }
    }
}

/// A walk without its detours: a walk between the same cells that comes
/// through no cell twice.
pub proof fn lemma_shortcut(g: Grid, path: Seq<Coord>) -> (short: Seq<Coord>)
    requires
        g.is_path(path),
    ensures
        g.is_simple_path(short),
        g.joins(short, path[0], path.last()),
    decreases path.len(),
{
    if path.len() == 1 {
        path
    } else {
        let n = path.len() as int;
        let end = path[n - 1];
        lemma_walk_start(g, path, n - 1);
        let before = lemma_shortcut(g, path.take(n - 1));
        assert(g.hop(path, n - 2));
        if before.contains(end) {
            let i = choose|i: int| 0 <= i < before.len() && before[i] == end;
            lemma_walk_start(g, before, i + 1);
            before.take(i + 1)
        } else {
            let short = before.push(end);
            assert forall|i: int| 0 <= i < short.len() - 1 implies #[trigger] g.hop(short, i) by {
                if i < before.len() - 1 {
                    assert(g.hop(before, i));
                }
            }
            assert forall|i: int, j: int|
                0 <= i < short.len() && 0 <= j < short.len() && i != j implies short[i]
                != short[j] by {
                if i < before.len() && j < before.len() {
                    assert(before[i] != before[j]);
                }
            }
            short
        }
    }
}

/// The cell of `path` that lies farthest from the start.
pub proof fn lemma_deepest(t: Lineage, path: Seq<Coord>) -> (at: int)
    requires
        path.len() >= 1,
    ensures
        0 <= at < path.len(),
        forall|i: int| 0 <= i < path.len() ==> (t.depth)(#[trigger] path[i]) <= (t.depth)(path[at]),
    decreases path.len(),
{
    if path.len() == 1 {
        0
    } else {
        let rest = path.drop_last();
        let at = lemma_deepest(t, rest);
        let deepest = (t.depth)(path[at]);
        assert forall|i: int| 0 <= i < rest.len() implies (t.depth)(#[trigger] path[i])
            <= deepest by {
            assert(rest[i] == path[i]);
        }
        if (t.depth)(path.last()) > (t.depth)(path[at]) {
            path.len() - 1
        } else {
            at
        }
    }
}

/// A cell that lies farthest from the start among the cells of a walk was
/// joined from each cell next to it in the walk.
pub proof fn lemma_deepest_steps_up(t: Lineage, g: Grid, path: Seq<Coord>, at: int, next: int)
    requires
        t.describes(g),
        0 <= at < path.len(),
        0 <= next < path.len(),
        g.linked(path[at], path[next]),
        forall|i: int| 0 <= i < path.len() ==> (t.depth)(#[trigger] path[i]) <= (t.depth)(path[at]),
    ensures
        t.bound(path[at], path[next]),
{
    lemma_bound(t, g, path[at], path[next]);
    if t.bound(path[next], path[at]) {
        lemma_grown(t, g, path[next]);
    }
}

/// A maze whose links all lead from a cell to the cell it was joined from
/// has no cycle: the cell of a cycle farthest from the start would have
/// been joined from both of its neighbours in the cycle.
pub proof fn lemma_no_cycle(t: Lineage, g: Grid, path: Seq<Coord>)
    requires
        t.describes(g),
    ensures
        !g.is_cycle(path),
{
    if g.is_cycle(path) {
        let n = path.len() as int;
        let at = lemma_deepest(t, path);
        let before = if at == 0 {
            n - 1
        } else {
            at - 1
        };
        let after = if at == n - 1 {
            0
        } else {
            at + 1
        };
        assert(g.linked(path[before], path[at])) by {
            if at > 0 {
                assert(g.hop(path, at - 1));
            }
        }
        assert(g.linked(path[at], path[after])) by {
            if at < n - 1 {
                assert(g.hop(path, at));
            }
        }
        lemma_deepest_steps_up(t, g, path, at, before);
        lemma_deepest_steps_up(t, g, path, at, after);
        // Both neighbours are the one cell that `path[at]` was joined from,
        // but no cell lies twice on a cycle.
        assert(path[before] == path[after]);
    }
}

/// No cell of a walk that comes through no cell twice lies farther from
/// the start than both of its ends: such a cell would have been joined
/// from the cell before it and from the cell after it.
pub proof fn lemma_ends_are_deepest(t: Lineage, g: Grid, path: Seq<Coord>)
    requires
        t.describes(g),
        g.is_simple_path(path),
    ensures
        forall|i: int|
            0 <= i < path.len() ==> (t.depth)(#[trigger] path[i]) <= (t.depth)(path[0]) || (
            t.depth)(path[i]) <= (t.depth)(path.last()),
{
    let n = path.len() as int;
    let at = lemma_deepest(t, path);
    if 0 < at < n - 1 {
        assert(g.hop(path, at - 1));
        assert(g.hop(path, at));
        lemma_deepest_steps_up(t, g, path, at, at - 1);
        lemma_deepest_steps_up(t, g, path, at, at + 1);
        assert(path[at - 1] == path[at + 1]);
    }
}

/// Two walks between the same cells that come through no cell twice are
/// the same walk: from whichever end lies farther from the start, both
/// step to the cell that it was joined from.
pub proof fn lemma_one_way(t: Lineage, g: Grid, first: Seq<Coord>, second: Seq<Coord>)
    requires
        t.describes(g),
        g.is_simple_path(first),
        g.is_simple_path(second),
        first[0] == second[0],
        first.last() == second.last(),
    ensures
        first == second,
    decreases first.len(),
{
    let a = first[0];
    let b = first.last();
    let n = first.len() as int;
    let m = second.len() as int;
    if a == b {
        assert(n == 1) by {
            if n > 1 {
                assert(first[0] == first[n - 1]);
            }
        }
        assert(m == 1) by {
            if m > 1 {
                assert(second[0] == second[m - 1]);
            }
        }
        assert(first =~= second);
    } else {
        lemma_ends_are_deepest(t, g, first);
        lemma_ends_are_deepest(t, g, second);
        if (t.depth)(a) >= (t.depth)(b) {
            assert(g.hop(first, 0));
            assert(g.hop(second, 0));
            lemma_deepest_steps_up(t, g, first, 0, 1);
            lemma_deepest_steps_up(t, g, second, 0, 1);
            lemma_walk_rest(g, first);
            lemma_walk_rest(g, second);
            lemma_one_way(t, g, first.drop_first(), second.drop_first());
            assert(first =~= seq![a] + first.drop_first());
            assert(second =~= seq![a] + second.drop_first());
        } else {
            assert(g.hop(first, n - 2));
            assert(g.hop(second, m - 2));
            lemma_deepest_steps_up(t, g, first, n - 1, n - 2);
            lemma_deepest_steps_up(t, g, second, m - 1, m - 2);
            lemma_walk_start(g, first, n - 1);
            lemma_walk_start(g, second, m - 1);
            lemma_one_way(t, g, first.take(n - 1), second.take(m - 1));
            assert(first =~= first.take(n - 1).push(b));
            assert(second =~= second.take(m - 1).push(b));
        }
    }
}

} // verus!
