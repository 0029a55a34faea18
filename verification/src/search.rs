//! What holds of every state of the carving search, and why each step
//! keeps it.

use vstd::prelude::*;
use crate::carve::{is_direction_order, is_script, Carving, Visit};
use crate::count::lemma_count_area_zero;
use crate::grid::{start, Grid};
use crate::lineage::{lemma_joined_visited, lemma_lineage_join, Lineage};
use crate::opening::{lemma_blank, lemma_join, lemma_opened, lemma_sides};
use crate::position::{Coord, Direction};

verus! {

impl Grid {
    /// Whether nothing is left to discover from the cell `c` in `direction`:
    /// its neighbour there lies off the grid or has been reached.
    pub open spec fn explored(self, c: Coord, direction: Direction) -> bool {
        !self.is_cell(c.step(direction, 2)) || self.visited(c.step(direction, 2))
    }

    /// Whether nothing is left to discover from the cell `c`.
    pub open spec fn finished(self, c: Coord) -> bool {
        &&& self.explored(c, Direction::Up)
        &&& self.explored(c, Direction::Left)
        &&& self.explored(c, Direction::Right)
        &&& self.explored(c, Direction::Down)
    }
}

/// The steps that the cells of `stack` still take: one for each direction
/// not yet probed, and one to be left.
pub open spec fn slack(stack: Seq<Visit>) -> int
    decreases stack.len(),
{
    if stack.len() == 0 {
        0
    } else {
        slack(stack.drop_last()) + 5 - stack.last().tried
    }
}

impl Carving {
    /// The steps that the search still takes: five for each cell not yet
    /// reached, and those of the cells on the stack.
    pub open spec fn budget(self) -> int {
        5 * self.grid.untouched_cells() + slack(self.stack)
    }

    /// Whether the cell `c` is on the stack.
    pub open spec fn pending(self, c: Coord) -> bool {
        exists|i: int| 0 <= i < self.stack.len() && (#[trigger] self.stack[i]).cell == c
    }

    /// Whether the search will come back to the cell `c`, or has nothing
    /// left to discover from it.
    pub open spec fn settled(self, c: Coord) -> bool {
        self.pending(c) || self.grid.finished(c)
    }

    /// Whether nothing is left to discover in the directions that `visit`
    /// has probed.
    pub open spec fn probed(self, visit: Visit, script: Seq<Seq<Direction>>) -> bool {
        forall|j: int|
            0 <= j < visit.tried ==> self.grid.explored(
                visit.cell,
                #[trigger] script[visit.order][j],
            )
    }

    /// What holds of every visit on the stack.
    pub open spec fn visit_ok(
        self,
        visit: Visit,
        lineage: Lineage,
        script: Seq<Seq<Direction>>,
    ) -> bool {
        &&& self.grid.is_cell(visit.cell)
        &&& lineage.joined(visit.cell)
        &&& 0 <= visit.order < self.drawn
        &&& 0 <= visit.tried <= 4
        &&& self.probed(visit, script)
    }

    /// What holds of every state of the carving: the lineage accounts for
    /// the open passages, every cell that has been reached took one order
    /// and one passage (the start took none), and no reached cell has been
    /// left while a neighbour of it was still untouched.
    pub open spec fn inv(self, lineage: Lineage, script: Seq<Seq<Direction>>) -> bool {
        &&& self.grid.wf()
        &&& is_script(script, self.grid.width, self.grid.height)
        &&& 1 <= self.drawn
        &&& self.drawn + self.grid.untouched_cells() == self.grid.width * self.grid.height
        &&& self.grid.open_passages() + 1 == self.drawn
        &&& lineage.describes(self.grid)
        &&& forall|i: int|
            0 <= i < self.stack.len() ==> self.visit_ok(#[trigger] self.stack[i], lineage, script)
        &&& forall|c: Coord|
            self.grid.is_cell(c) && self.grid.visited(c) ==> #[trigger] self.settled(c)
        &&& self.grid.sealed(start()) ==> forall|i: int|
            0 <= i < self.stack.len() ==> (#[trigger] self.stack[i]).cell == start()
    }
}

/// A stack whose visits have probed at most four directions has steps left
/// for each of them.
pub proof fn lemma_slack_bound(stack: Seq<Visit>)
    requires
        forall|i: int| 0 <= i < stack.len() ==> (#[trigger] stack[i]).tried <= 4,
    ensures
        slack(stack) >= stack.len(),
    decreases stack.len(),
{
    if stack.len() > 0 {
        let rest = stack.drop_last();
        assert forall|i: int| 0 <= i < rest.len() implies (#[trigger] rest[i]).tried <= 4 by {
            assert(rest[i] == stack[i]);
        }
        lemma_slack_bound(rest);
    }
}

/// Carving begins in a state that meets the invariant, with five steps to
/// go for each cell.
pub proof fn lemma_begin(width: int, height: int, script: Seq<Seq<Direction>>)
    requires
        width >= 1,
        height >= 1,
        is_script(script, width, height),
    ensures
        Carving::begin(width, height).inv(Lineage::root(), script),
        Carving::begin(width, height).budget() == 5 * (width * height),
        Carving::begin(width, height).grid.width == width,
        Carving::begin(width, height).grid.height == height,
{
    let s = Carving::begin(width, height);
    let g = s.grid;
    let t = Lineage::root();
    lemma_blank(width, height);
    reveal(Lineage::describes);
    assert(slack(s.stack) == 5) by {
        assert(slack(s.stack.drop_last()) == 0);
    }
    assert forall|a: Coord, b: Coord| #[trigger] g.linked(a, b) implies t.bound(a, b) || t.bound(
        b,
        a,
    ) by {}
    assert forall|c: Coord| g.is_cell(c) && g.visited(c) implies #[trigger] s.settled(c) by {
        lemma_sides(g, c);
    }
}

/// Pushing a visit adds its steps to those of the stack.
pub proof fn lemma_slack_push(stack: Seq<Visit>, visit: Visit)
    ensures
        slack(stack.push(visit)) == slack(stack) + 5 - visit.tried,
{
    assert(stack.push(visit).drop_last() =~= stack);
}

/// A visit that has probed a whole direction order has nothing left to
/// discover from its cell.
pub proof fn lemma_probed_all(s: Carving, visit: Visit, script: Seq<Seq<Direction>>)
    requires
        s.probed(visit, script),
        visit.tried >= 4,
        is_direction_order(script[visit.order]),
    ensures
        s.grid.finished(visit.cell),
{
}

/// Leaving a cell that has probed all four directions keeps the invariant.
pub proof fn lemma_retreat(s: Carving, t: Lineage, script: Seq<Seq<Direction>>)
    requires
        s.inv(t, script),
        !s.halted(),
        s.stack.last().tried >= 4,
    ensures
        s.step(script).inv(t, script),
        s.step(script).budget() + 1 == s.budget(),
        s.step(script).grid == s.grid,
{
    let s2 = s.step(script);
    let top = s.stack.last();
    let last = s.stack.len() - 1;
    lemma_probed_all(s, top, script);
    assert forall|i: int| 0 <= i < s2.stack.len() implies s2.visit_ok(
        #[trigger] s2.stack[i],
        t,
        script,
    ) by {
        assert(s2.stack[i] == s.stack[i]);
    }
    assert forall|c: Coord| s2.grid.is_cell(c) && s2.grid.visited(c) implies #[trigger] s2.settled(
        c,
    ) by {
        assert(s.settled(c));
        if s.pending(c) {
            let i = choose|i: int| 0 <= i < s.stack.len() && (#[trigger] s.stack[i]).cell == c;
            if i < last {
                assert(s2.stack[i].cell == c);
            }
        }
    }
}

/// Passing over a neighbour that lies off the grid or has been reached
/// keeps the invariant.
pub proof fn lemma_pass(s: Carving, t: Lineage, script: Seq<Seq<Direction>>)
    requires
        s.inv(t, script),
        !s.halted(),
        s.stack.last().tried < 4,
        ({
            let top = s.stack.last();
            let target = top.cell.step(script[top.order][top.tried], 2);
            !(s.grid.is_cell(target) && s.grid.sealed(target))
        }),
    ensures
        s.step(script).inv(t, script),
        s.step(script).budget() + 1 == s.budget(),
        s.step(script).grid == s.grid,
{
    let s2 = s.step(script);
    let top = s.stack.last();
    let after = Visit { tried: top.tried + 1, ..top };
    lemma_slack_push(s.stack.drop_last(), after);
    assert forall|i: int| 0 <= i < s2.stack.len() implies s2.visit_ok(
        #[trigger] s2.stack[i],
        t,
        script,
    ) by {
        assert(s.visit_ok(s.stack[i], t, script));
    }
    assert forall|c: Coord| s2.grid.is_cell(c) && s2.grid.visited(c) implies #[trigger] s2.settled(
        c,
    ) by {
        assert(s.settled(c));
        if s.pending(c) {
            let i = choose|i: int| 0 <= i < s.stack.len() && (#[trigger] s.stack[i]).cell == c;
            assert(s2.stack[i].cell == c);
        }
    }
}

/// Joining an untouched neighbour and moving into it keeps the invariant,
/// with the lineage extended by the new cell.
pub proof fn lemma_advance(s: Carving, t: Lineage, script: Seq<Seq<Direction>>)
    requires
        s.inv(t, script),
        !s.halted(),
        s.stack.last().tried < 4,
        ({
            let top = s.stack.last();
            let target = top.cell.step(script[top.order][top.tried], 2);
            s.grid.is_cell(target) && s.grid.sealed(target)
        }),
    ensures
        ({
            let top = s.stack.last();
            let target = top.cell.step(script[top.order][top.tried], 2);
            s.step(script).inv(t.extended(target, top.cell), script)
        }),
        s.step(script).budget() + 1 == s.budget(),
        s.step(script).grid.width == s.grid.width,
        s.step(script).grid.height == s.grid.height,
        s.drawn < s.grid.width * s.grid.height,
{
    let s2 = s.step(script);
    let g = s.grid;
    let g2 = s2.grid;
    let top = s.stack.last();
    let last = s.stack.len() - 1;
    let direction = script[top.order][top.tried];
    let target = top.cell.step(direction, 2);
    let slot = top.cell.step(direction, 1);
    let after = Visit { tried: top.tried + 1, ..top };
    let entered = Visit { cell: target, order: s.drawn, tried: 0 };
    let t2 = t.extended(target, top.cell);
    // Only the cells on the stack can be next to a sealed start.
    assert(target != start()) by {
        assert(s.stack[last].cell == start() ==> target != start());
    }
    lemma_joined_visited(t, g, top.cell);
    lemma_join(g, top.cell, direction);
    lemma_lineage_join(t, g, top.cell, direction);
    lemma_opened(g, slot);
    assert(g.untouched_cells() >= 1) by {
        assert((g.untouched_cell())((target.row - 1) / 2, (target.col - 1) / 2));
        lemma_count_area_zero(g.untouched_cell(), g.height, g.width);
    }
    assert(s2.budget() + 1 == s.budget()) by {
        lemma_slack_push(s.stack.drop_last(), after);
        lemma_slack_push(s.stack.drop_last().push(after), entered);
    }
    assert forall|c: Coord, d: Direction| g.explored(c, d) implies g2.explored(c, d) by {}
    assert forall|i: int| 0 <= i < s2.stack.len() implies s2.visit_ok(
        #[trigger] s2.stack[i],
        t2,
        script,
    ) by {
        if i <= last {
            assert(s.visit_ok(s.stack[i], t, script));
        }
    }
    assert forall|c: Coord| g2.is_cell(c) && g2.visited(c) implies #[trigger] s2.settled(c) by {
        if c == target {
            assert(s2.stack[last + 1].cell == c);
        } else {
            assert(s.settled(c));
            if s.pending(c) {
                let i = choose|i: int| 0 <= i < s.stack.len() && (#[trigger] s.stack[i]).cell == c;
                assert(s2.stack[i].cell == c);
            }
        }
    }
    // The start has been left through a wall slot, or is being left now.
    assert(!g2.sealed(start())) by {
        lemma_sides(g, start());
    }
}

/// Every step of the search keeps the invariant and uses up one step of
/// the budget.
pub proof fn lemma_step(s: Carving, t: Lineage, script: Seq<Seq<Direction>>) -> (t2: Lineage)
    requires
        s.inv(t, script),
        !s.halted(),
    ensures
        s.step(script).inv(t2, script),
        s.step(script).budget() + 1 == s.budget(),
        s.step(script).budget() >= 0,
        s.step(script).grid.width == s.grid.width,
        s.step(script).grid.height == s.grid.height,
{
    let top = s.stack.last();
    let t2 = if top.tried >= 4 {
        lemma_retreat(s, t, script);
        t
    } else {
        let target = top.cell.step(script[top.order][top.tried], 2);
        if s.grid.is_cell(target) && s.grid.sealed(target) {
            lemma_advance(s, t, script);
            t.extended(target, top.cell)
        } else {
            lemma_pass(s, t, script);
            t
        }
    };
    let s2 = s.step(script);
    assert forall|i: int| 0 <= i < s2.stack.len() implies (#[trigger] s2.stack[i]).tried <= 4 by {
        assert(s2.visit_ok(s2.stack[i], t2, script));
    }
    lemma_slack_bound(s2.stack);
    t2
}

/// Run for as many steps as its budget holds, the search halts in a state
/// that meets the invariant.
pub proof fn lemma_run(s: Carving, t: Lineage, script: Seq<Seq<Direction>>) -> (t2: Lineage)
    requires
        s.inv(t, script),
        s.budget() >= 0,
    ensures
        s.run(script, s.budget() as nat).inv(t2, script),
        s.run(script, s.budget() as nat).halted(),
        s.run(script, s.budget() as nat).grid.width == s.grid.width,
        s.run(script, s.budget() as nat).grid.height == s.grid.height,
    decreases s.budget(),
{
    if s.halted() {
        t
    } else {
        assert forall|i: int| 0 <= i < s.stack.len() implies (#[trigger] s.stack[i]).tried <= 4 by {
            assert(s.visit_ok(s.stack[i], t, script));
        }
        lemma_slack_bound(s.stack);
        let t1 = lemma_step(s, t, script);
        lemma_run(s.step(script), t1, script)
    }
}

} // verus!
