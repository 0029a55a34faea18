//! The deletion pass of loopy mode: interior walls are opened by a
//! sequence of decisions, one for each interior wall slot.

use vstd::prelude::*;
use rand::rngs::ThreadRng;
use crate::config::Chance;
use crate::count::{
    count_area, count_row, lemma_count_area_grows, lemma_count_area_monotone,
    lemma_count_row_grows, lemma_count_row_monotone,
};
use crate::error::MazeError;
use crate::grid::{between, Grid, PASSAGE};
use crate::opening::{lemma_more_open, lemma_opened};
use crate::maze::{lemma_area_exceeds, valid_dimensions, Maze};
use crate::position::Coord;
use crate::random::draw_decisions;

verus! {

impl Grid {
    /// Whether row `r`, column `c` is a wall slot between two cells.
    pub open spec fn interior_slot(self) -> spec_fn(int, int) -> bool {
        |r: int, c: int| self.is_interior_slot(Coord { row: r, col: c })
    }

    /// The number of wall slots between two cells.
    pub open spec fn interior_slots(self) -> nat {
        count_area(self.interior_slot(), self.row_count(), self.col_count())
    }

    /// The place of `p` among the interior wall slots, counted row by row
    /// from the first row and in each row from the first column.
    pub open spec fn slot_rank(self, p: Coord) -> nat {
        count_area(self.interior_slot(), p.row, self.col_count()) + count_row(
            self.interior_slot(),
            p.row,
            p.col,
        )
    }

    /// Whether `decisions` deletes the wall at `p`.
    pub open spec fn deletes(self, decisions: Seq<bool>, p: Coord) -> bool {
        self.is_interior_slot(p) && decisions[self.slot_rank(p) as int]
    }

    /// This grid after a pass over its interior wall slots that opens each
    /// slot whose decision is `true`. The decision for a slot is the one
    /// at its rank.
    pub open spec fn deleted(self, decisions: Seq<bool>) -> Grid {
        Grid {
            rows: Seq::new(
                self.rows.len(),
                |r: int|
                    Seq::new(
                        self.rows[r].len(),
                        |c: int|
                            if self.deletes(decisions, Coord { row: r, col: c }) {
                                PASSAGE
                            } else {
                                self.rows[r][c]
                            },
                    ),
            ),
            ..self
        }
    }
}

/// Multiplying one more.
proof fn lemma_one_more(a: int, b: int)
    ensures
        (a + 1) * b == a * b + b,
{
    assert((a + 1) * b == a * b + b) by (nonlinear_arith);
}

/// How many interior wall slots the first columns of a row hold.
proof fn lemma_interior_row(g: Grid, r: int, cols: int)
    requires
        g.width >= 1,
        g.height >= 1,
        0 <= r < g.row_count(),
        0 <= cols <= g.col_count(),
    ensures
        count_row(g.interior_slot(), r, cols) == if r == 0 || r == 2 * g.height {
            0
        } else if r % 2 == 0 {
            cols / 2
        } else if cols == 0 {
            0
        } else if cols == g.col_count() {
            g.width - 1
        } else {
            (cols - 1) / 2
        },
    decreases cols,
{
    if cols > 0 {
        lemma_interior_row(g, r, cols - 1);
    }
}

/// How many interior wall slots the first rows hold.
proof fn lemma_interior_area(g: Grid, rows: int)
    requires
        g.width >= 1,
        g.height >= 1,
        0 <= rows <= g.row_count(),
    ensures
        count_area(g.interior_slot(), rows, g.col_count()) == if rows == 0 {
            0
        } else if rows == g.row_count() {
            g.height * (g.width - 1) + (g.height - 1) * g.width
        } else {
            (rows / 2) * (g.width - 1) + ((rows - 1) / 2) * g.width
        },
    decreases rows,
{
    if rows > 0 {
        lemma_interior_area(g, rows - 1);
        lemma_interior_row(g, rows - 1, g.col_count());
        let w = g.width;
        if rows == 1 {
            assert((rows / 2) * (w - 1) + ((rows - 1) / 2) * w == 0) by (nonlinear_arith)
                requires
                    rows == 1,
            ;
        } else if rows < g.row_count() {
            if (rows - 1) % 2 == 1 {
                lemma_one_more((rows - 1) / 2, w - 1);
            } else {
                lemma_one_more((rows - 2) / 2, w);
            }
        }
    }
}

/// A maze of `width` by `height` cells has `height - 1` rows of `width`
/// wall slots between the rows of cells, and `height` rows of `width - 1`
/// wall slots between the cells of a row.
pub proof fn lemma_interior_slots(g: Grid)
    requires
        g.width >= 1,
        g.height >= 1,
    ensures
        g.interior_slots() == (g.height - 1) * g.width + g.height * (g.width - 1),
{
    lemma_interior_area(g, g.row_count());
}

/// The rank of an interior wall slot is smaller than their number.
pub proof fn lemma_rank_bound(g: Grid, p: Coord)
    requires
        g.is_interior_slot(p),
    ensures
        g.slot_rank(p) < g.interior_slots(),
{
    let f = g.interior_slot();
    lemma_count_row_grows(f, p.row, p.col + 1, g.col_count());
    lemma_count_area_grows(f, p.row + 1, g.row_count(), g.col_count());
}

/// A deletion pass opens the interior wall slots that its decisions name
/// and changes nothing else, so the grid stays well-formed and loses no
/// open passage.
pub proof fn lemma_deleted(g: Grid, decisions: Seq<bool>)
    requires
        g.wf(),
    ensures
        g.deleted(decisions).wf(),
        g.deleted(decisions).width == g.width,
        g.deleted(decisions).height == g.height,
        forall|p: Coord|
            g.contains(p) ==> #[trigger] g.deleted(decisions).at(p) == if g.deletes(decisions, p) {
                PASSAGE
            } else {
                g.at(p)
            },
        g.deleted(decisions).open_passages() >= g.open_passages(),
{
    lemma_more_open(g, g.deleted(decisions));
}

/// A deletion pass whose decisions are all `false` changes nothing, and
/// one whose decisions are all `true` opens every interior wall slot.
pub proof fn lemma_deleted_all_or_nothing(g: Grid, decisions: Seq<bool>)
    requires
        g.wf(),
        decisions.len() >= g.interior_slots(),
    ensures
        (forall|k: int| 0 <= k < decisions.len() ==> !#[trigger] decisions[k]) ==> g.deleted(
            decisions,
        ) == g,
        (forall|k: int| 0 <= k < decisions.len() ==> #[trigger] decisions[k]) ==> forall|p: Coord|
            g.is_interior_slot(p) ==> #[trigger] g.deleted(decisions).at(p) == PASSAGE,
{
    let g2 = g.deleted(decisions);
    lemma_deleted(g, decisions);
    assert forall|p: Coord| g.is_interior_slot(p) implies 0 <= #[trigger] g.slot_rank(p)
        < decisions.len() by {
        lemma_rank_bound(g, p);
    }
    if forall|k: int| 0 <= k < decisions.len() ==> !#[trigger] decisions[k] {
        assert forall|r: int| 0 <= r < g.rows.len() implies #[trigger] g2.rows[r] =~= g.rows[r] by {
            assert forall|c: int| 0 <= c < g.rows[r].len() implies g2.rows[r][c]
                == g.rows[r][c] by {
                let p = Coord { row: r, col: c };
                assert(g2.at(p) == g.at(p)) by {
                    if g.is_interior_slot(p) {
                        assert(!decisions[g.slot_rank(p) as int]);
                    }
                }
            }
        }
        assert(g2.rows =~= g.rows);
    }
    if forall|k: int| 0 <= k < decisions.len() ==> #[trigger] decisions[k] {
        assert forall|p: Coord| g.is_interior_slot(p) implies #[trigger] g2.at(p) == PASSAGE by {
            assert(decisions[g.slot_rank(p) as int]);
        }
    }
}

/// Whether `p` comes before row `r`, column `c` in a pass over the grid.
pub open spec fn passed(p: Coord, r: int, c: int) -> bool {
    p.row < r || (p.row == r && p.col < c)
}

impl Maze {
    /// The number of wall slots between two cells.
    pub fn interior_slots(&self) -> (count: usize)
        requires
            self.wf(),
        ensures
            count == self@.interior_slots(),
            count == (self@.height - 1) * self@.width + self@.height * (self@.width - 1),
    {
        let width = self.width();
        let height = self.height();
        proof {
            lemma_interior_slots(self@);
            lemma_area_exceeds(width as int, height as int);
            assert((height - 1) * width + height * (width - 1) <= (2 * width + 1) * (2 * height
                + 1)) by (nonlinear_arith)
                requires
                    width >= 1,
                    height >= 1,
            ;
            assert((height - 1) * width >= 0 && height * (width - 1) >= 0) by (nonlinear_arith)
                requires
                    width >= 1,
                    height >= 1,
            ;
        }
        (height - 1) * width + height * (width - 1)
    }

    /// Passes over the interior wall slots, row by row, and opens each
    /// slot whose decision is `true`: `decisions[k]` decides on the slot
    /// of rank `k`. Decisions beyond one for each slot are not read.
    ///
    /// With fewer decisions than slots the maze is left as it is.
    pub fn delete_walls_with(&mut self, decisions: &[bool]) -> (done: Result<(), MazeError>)
        requires
            old(self).wf(),
        ensures
            final(self).wf(),
            final(self)@.width == old(self)@.width,
            final(self)@.height == old(self)@.height,
            final(self)@.open_passages() >= old(self)@.open_passages(),
            decisions.len() >= old(self)@.interior_slots() ==> done.is_ok() && final(self)@ == old(
                self,
            )@.deleted(decisions@),
            decisions.len() < old(self)@.interior_slots() ==> done == Err::<(), MazeError>(
                MazeError::ScriptTooShort,
            ) && final(self)@ == old(self)@,
    {
        if decisions.len() < self.interior_slots() {
            return Err(MazeError::ScriptTooShort);
        }
        let ghost before = self@;
        let ghost after = before.deleted(decisions@);
        let ghost slots = before.interior_slot();
        let rows = self.rows();
        let cols = self.cols();
        proof {
            lemma_deleted(before, decisions@);
        }
        let mut k: usize = 0;
        let mut r: usize = 0;
        while r < rows
            invariant
                before.wf(),
                valid_dimensions(before.width, before.height),
                after == before.deleted(decisions@),
                slots == before.interior_slot(),
                decisions.len() >= before.interior_slots(),
                self.wf(),
                self@.width == before.width,
                self@.height == before.height,
                rows == before.row_count(),
                cols == before.col_count(),
                r <= rows,
                k == count_area(slots, r as int, cols as int),
                forall|p: Coord|
                    before.contains(p) ==> #[trigger] self@.at(p) == if passed(p, r as int, 0) {
                        after.at(p)
                    } else {
                        before.at(p)
                    },
            decreases rows - r,
        {
            let ghost above = k;
            let mut c: usize = 0;
            while c < cols
                invariant
                    before.wf(),
                    valid_dimensions(before.width, before.height),
                    after == before.deleted(decisions@),
                    slots == before.interior_slot(),
                    decisions.len() >= before.interior_slots(),
                    self.wf(),
                    self@.width == before.width,
                    self@.height == before.height,
                    rows == before.row_count(),
                    cols == before.col_count(),
                    r < rows,
                    c <= cols,
                    above == count_area(slots, r as int, cols as int),
                    k == above + count_row(slots, r as int, c as int),
                    forall|p: Coord|
                        before.contains(p) ==> #[trigger] self@.at(p) == if passed(
                            p,
                            r as int,
                            c as int,
                        ) {
                            after.at(p)
                        } else {
                            before.at(p)
                        },
                decreases cols - c,
            {
                let ghost here = Coord { row: r as int, col: c as int };
                let ghost now = self@;
                if 0 < r && r < rows - 1 && 0 < c && c < cols - 1 && (r % 2) != (c % 2) {
                    proof {
                        lemma_rank_bound(before, here);
                    }
                    if decisions[k] {
                        self.open_at(r, c);
                        proof {
                            lemma_opened(now, here);
                        }
                    }
                    k += 1;
                }
                assert forall|p: Coord| before.contains(p) implies #[trigger] self@.at(p)
                    == if passed(p, r as int, c + 1) {
                    after.at(p)
                } else {
                    before.at(p)
                } by {
                    assert(now.at(p) == if passed(p, r as int, c as int) {
                        after.at(p)
                    } else {
                        before.at(p)
                    });
                }
                c += 1;
            }
            r += 1;
        }
        proof {
            let ended = self@;
            assert forall|i: int| 0 <= i < ended.rows.len() implies #[trigger] ended.rows[i]
                =~= after.rows[i] by {
                assert forall|j: int| 0 <= j < ended.rows[i].len() implies ended.rows[i][j]
                    == after.rows[i][j] by {
                    let p = Coord { row: i, col: j };
                    assert(ended.at(p) == after.at(p));
                }
            }
            assert(ended.rows =~= after.rows);
        }
        Ok(())
    }

    /// Passes over the interior wall slots and opens each standing wall
    /// with the given chance, each on a draw of its own.
    ///
    /// One decision is drawn for every interior wall slot, open or not.
    pub fn delete_random_walls(&mut self, chance: Chance, rng: &mut ThreadRng)
        requires
            old(self).wf(),
        ensures
            final(self).wf(),
            final(self)@.width == old(self)@.width,
            final(self)@.height == old(self)@.height,
            final(self)@.open_passages() >= old(self)@.open_passages(),
            exists|decisions: Seq<bool>|
                decisions.len() == old(self)@.interior_slots() && final(self)@ == #[trigger] old(
                    self,
                )@.deleted(decisions),
            chance@.0 == 0 ==> final(self)@ == old(self)@,
            chance@.0 == chance@.1 ==> forall|p: Coord|
                final(self)@.is_interior_slot(p) ==> #[trigger] final(self)@.at(p) == PASSAGE,
    {
        let count = self.interior_slots();
        let decisions = draw_decisions(rng, chance, count);
        let ghost before = self@;
        let _ = self.delete_walls_with(&decisions);
        proof {
            lemma_deleted_all_or_nothing(before, decisions@);
        }
    }
}

/// A deletion pass keeps every link, and so keeps a connected maze connected.
pub proof fn lemma_deleted_connected(g: Grid, decisions: Seq<bool>)
    requires
        g.wf(),
        g.connected(),
    ensures
        g.deleted(decisions).connected(),
{
    let g2 = g.deleted(decisions);
    lemma_deleted(g, decisions);
    assert forall|a: Coord, b: Coord|
        g2.is_cell(a) && g2.is_cell(b) implies #[trigger] g2.reachable(a, b) by {
        assert(g.reachable(a, b));
        let path = choose|path: Seq<Coord>| #[trigger] g.joins(path, a, b);
        assert forall|i: int| 0 <= i < path.len() - 1 implies #[trigger] g2.hop(path, i) by {
            assert(g.hop(path, i));
        }
        assert(g2.joins(path, a, b));
    }
}

/// No more wall slots are open among the first slots of the grid than
/// there are interior wall slots in all.
proof fn lemma_open_among_interior(g: Grid, r: int, c: int)
    requires
        0 <= r < g.row_count(),
        0 <= c <= g.col_count(),
    ensures
        count_area(g.open_slot(), r, g.col_count()) + count_row(g.open_slot(), r, c)
            <= g.interior_slots(),
{
    let cols = g.col_count();
    assert forall|i: int, j: int| #[trigger] (g.open_slot())(i, j) implies (g.interior_slot())(
        i,
        j,
    ) by {}
    lemma_count_area_monotone(g.open_slot(), g.interior_slot(), r, cols);
    lemma_count_row_monotone(g.open_slot(), g.interior_slot(), r, c);
    lemma_count_row_grows(g.interior_slot(), r, c, cols);
    lemma_count_area_grows(g.interior_slot(), r + 1, g.row_count(), cols);
}

impl Maze {
    /// The number of open interior wall slots: the passages between cells.
    pub fn open_passages(&self) -> (count: usize)
        requires
            self.wf(),
        ensures
            count == self@.open_passages(),
            count <= self@.interior_slots(),
    {
        let ghost g = self@;
        let ghost open = g.open_slot();
        let total = self.interior_slots();
        let rows = self.rows();
        let cols = self.cols();
        let mut count: usize = 0;
        let mut r: usize = 0;
        while r < rows
            invariant
                self.wf(),
                g == self@,
                open == g.open_slot(),
                total == g.interior_slots(),
                rows == g.row_count(),
                cols == g.col_count(),
                r <= rows,
                count == count_area(open, r as int, cols as int),
            decreases rows - r,
        {
            let ghost above = count;
            let mut c: usize = 0;
            while c < cols
                invariant
                    self.wf(),
                    g == self@,
                    open == g.open_slot(),
                    total == g.interior_slots(),
                    rows == g.row_count(),
                    cols == g.col_count(),
                    r < rows,
                    c <= cols,
                    above == count_area(open, r as int, cols as int),
                    count == above + count_row(open, r as int, c as int),
                decreases cols - c,
            {
                proof {
                    lemma_open_among_interior(g, r as int, c + 1);
                }
                if 0 < r && r < rows - 1 && 0 < c && c < cols - 1 && (r % 2) != (c % 2)
                    && self.value(r, c) == PASSAGE {
                    count += 1;
                }
                c += 1;
            }
            r += 1;
        }
        proof {
            lemma_count_area_monotone(open, g.interior_slot(), rows as int, cols as int);
        }
        count
    }
}

} // verus!
