//! The tree that carving grows: for each cell, the cell it was joined
//! from.

use vstd::prelude::*;
use crate::grid::{start, Grid, WALL};
use crate::opening::{lemma_join, lemma_linked_unseals, lemma_sides};
use crate::position::{Coord, Direction};

verus! {

/// How carving reached each cell: the cell it was joined from, and how
/// many joins lead to it from the start.
pub struct Lineage {
    pub parent: Map<Coord, Coord>,
    pub depth: spec_fn(Coord) -> nat,
}

impl Lineage {
    /// The lineage of the blank grid: only the start is there.
    pub open spec fn root() -> Lineage {
        Lineage { parent: Map::empty(), depth: |c: Coord| 0nat }
    }

    /// Whether the cell `c` is part of the tree.
    pub open spec fn joined(self, c: Coord) -> bool {
        c == start() || self.parent.dom().contains(c)
    }

    /// Whether `child` was joined from `parent`.
    pub open spec fn bound(self, child: Coord, parent: Coord) -> bool {
        self.parent.dom().contains(child) && self.parent[child] == parent
    }

    /// What holds of a cell `c` that was joined from another.
    pub open spec fn grown(self, c: Coord, g: Grid) -> bool {
        &&& c != start()
        &&& g.linked(c, self.parent[c])
        &&& self.joined(self.parent[c])
        &&& (self.depth)(self.parent[c]) < (self.depth)(c)
    }

    /// Whether this lineage accounts for the open passages of `g`: every
    /// joined cell is linked to the cell it was joined from, which lies
    /// nearer to the start, and there are no other links.
    #[verifier::opaque]
    pub open spec fn describes(self, g: Grid) -> bool {
        &&& forall|c: Coord| #[trigger] self.parent.dom().contains(c) ==> self.grown(c, g)
        &&& forall|a: Coord, b: Coord| #[trigger]
            g.linked(a, b) ==> self.bound(a, b) || self.bound(b, a)
    }

    /// This lineage after `child` was joined from `parent`.
    pub open spec fn extended(self, child: Coord, parent: Coord) -> Lineage {
        Lineage {
            parent: self.parent.insert(child, parent),
            depth: |c: Coord|
                if c == child {
                    (self.depth)(parent) + 1
                } else {
                    (self.depth)(c)
                },
        }
    }
}

/// A cell of the tree has been reached.
pub proof fn lemma_joined_visited(t: Lineage, g: Grid, c: Coord)
    requires
        t.describes(g),
        t.joined(c),
    ensures
        g.visited(c),
{
    reveal(Lineage::describes);
    if c != start() {
        lemma_linked_unseals(g, c, t.parent[c]);
    }
}

/// A cell that has been reached is part of the tree.
pub proof fn lemma_visited_joined(t: Lineage, g: Grid, c: Coord)
    requires
        g.wf(),
        t.describes(g),
        g.is_cell(c),
        g.visited(c),
    ensures
        t.joined(c),
{
    reveal(Lineage::describes);
    if c != start() {
        lemma_sides(g, c);
        let d = if g.at(c.step(Direction::Up, 1)) != WALL {
            Direction::Up
        } else if g.at(c.step(Direction::Down, 1)) != WALL {
            Direction::Down
        } else if g.at(c.step(Direction::Left, 1)) != WALL {
            Direction::Left
        } else {
            Direction::Right
        };
        // The open wall slot is no border, so a cell lies behind it.
        assert(g.linked(c, c.step(d, 2)));
    }
}

/// Joining an untouched cell to a cell of the tree extends the lineage.
pub proof fn lemma_lineage_join(t: Lineage, g: Grid, from: Coord, direction: Direction)
    requires
        g.wf(),
        t.describes(g),
        g.is_cell(from),
        t.joined(from),
        g.untouched(from.step(direction, 2)),
    ensures
        t.extended(from.step(direction, 2), from).describes(g.opened(from.step(direction, 1))),
        t.extended(from.step(direction, 2), from).joined(from.step(direction, 2)),
        forall|c: Coord|
            t.joined(c) ==> #[trigger] t.extended(from.step(direction, 2), from).joined(c),
{
    let target = from.step(direction, 2);
    let g2 = g.opened(from.step(direction, 1));
    let t2 = t.extended(target, from);
    reveal(Lineage::describes);
    lemma_joined_visited(t, g, from);
    lemma_join(g, from, direction);
    if t.parent.dom().contains(target) {
        lemma_linked_unseals(g, target, t.parent[target]);
    }
    assert forall|c: Coord| #[trigger] t2.parent.dom().contains(c) implies t2.grown(c, g2) by {
        // No cell was joined from the target, which was sealed.
        if c != target && t.parent[c] == target {
            lemma_linked_unseals(g, c, target);
        }
    }
    assert forall|a: Coord, b: Coord| #[trigger] g2.linked(a, b) implies t2.bound(a, b) || t2.bound(
        b,
        a,
    ) by {}
}

/// A joined cell is linked to the cell it was joined from, which is part
/// of the tree and nearer to the start.
pub proof fn lemma_grown(t: Lineage, g: Grid, c: Coord)
    requires
        t.describes(g),
        t.parent.dom().contains(c),
    ensures
        t.grown(c, g),
{
    reveal(Lineage::describes);
}

/// Of two linked cells, one was joined from the other.
pub proof fn lemma_bound(t: Lineage, g: Grid, a: Coord, b: Coord)
    requires
        t.describes(g),
        g.linked(a, b),
    ensures
        t.bound(a, b) || t.bound(b, a),
{
    reveal(Lineage::describes);
}

} // verus!
