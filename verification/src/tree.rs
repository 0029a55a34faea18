//! Walks, cycles, and what makes a maze perfect.

use vstd::prelude::*;
use crate::grid::Grid;
use crate::position::Coord;

verus! {

impl Grid {
    /// Whether `path` moves from its cell `i` to the next through an open wall slot.
    pub open spec fn hop(self, path: Seq<Coord>, i: int) -> bool {
        self.linked(path[i], path[i + 1])
    }

    /// A walk through the maze: cells, each linked to the next.
    pub open spec fn is_path(self, path: Seq<Coord>) -> bool {
        &&& path.len() >= 1
        &&& self.is_cell(path[0])
        &&& forall|i: int| 0 <= i < path.len() - 1 ==> #[trigger] self.hop(path, i)
    }

    /// Whether `path` is a walk from `a` to `b`.
    pub open spec fn joins(self, path: Seq<Coord>, a: Coord, b: Coord) -> bool {
        self.is_path(path) && path[0] == a && path.last() == b
    }

    /// Whether some walk leads from `a` to `b`.
    pub open spec fn reachable(self, a: Coord, b: Coord) -> bool {
        exists|path: Seq<Coord>| #[trigger] self.joins(path, a, b)
    }

    /// Every cell can be reached from every other.
    pub open spec fn connected(self) -> bool {
        forall|a: Coord, b: Coord|
            self.is_cell(a) && self.is_cell(b) ==> #[trigger] self.reachable(a, b)
    }

    /// A walk through three or more distinct cells whose last cell is
    /// linked to its first.
    pub open spec fn is_cycle(self, path: Seq<Coord>) -> bool {
        &&& path.len() >= 3
        &&& path.no_duplicates()
        &&& self.is_path(path)
        &&& self.linked(path.last(), path[0])
    }

    /// No walk closes to a cycle.
    pub open spec fn acyclic(self) -> bool {
        forall|path: Seq<Coord>| !#[trigger] self.is_cycle(path)
    }

    /// A walk that comes through no cell twice.
    pub open spec fn is_simple_path(self, path: Seq<Coord>) -> bool {
        self.is_path(path) && path.no_duplicates()
    }

    /// Whether `path` is the one walk from `a` to `b` that comes through
    /// no cell twice.
    pub open spec fn is_only_path(self, path: Seq<Coord>, a: Coord, b: Coord) -> bool {
        &&& self.is_simple_path(path)
        &&& self.joins(path, a, b)
        &&& forall|other: Seq<Coord>|
            self.is_simple_path(other) && #[trigger] self.joins(other, a, b) ==> other == path
    }

    /// Whether exactly one walk from `a` to `b` comes through no cell twice.
    pub open spec fn has_only_path(self, a: Coord, b: Coord) -> bool {
        exists|path: Seq<Coord>| #[trigger] self.is_only_path(path, a, b)
    }

    /// There is exactly one way from any cell to any other.
    pub open spec fn single_pathed(self) -> bool {
        forall|a: Coord, b: Coord|
            self.is_cell(a) && self.is_cell(b) ==> #[trigger] self.has_only_path(a, b)
    }

    /// A perfect maze: the open wall slots form a spanning tree over the
    /// cells. The tree is connected, has no cycle, and has one edge fewer
    /// than there are cells, and it leaves exactly one way from any cell
    /// to any other.
    pub open spec fn is_perfect(self) -> bool {
        &&& self.wf()
        &&& self.connected()
        &&& self.acyclic()
        &&& self.open_passages() == self.width * self.height - 1
        &&& self.single_pathed()
    }
}

} // verus!
