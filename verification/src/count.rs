//! Counting the points of a rectangular area that satisfy a predicate.

use vstd::prelude::*;

verus! {

/// How many columns `c` in `0..cols` of row `r` satisfy `holds(r, c)`.
pub open spec fn count_row(holds: spec_fn(int, int) -> bool, r: int, cols: int) -> nat
    decreases cols,
{
    if cols <= 0 {
        0
    } else {
        count_row(holds, r, cols - 1) + if holds(r, cols - 1) {
            1nat
        } else {
            0nat
        }
    }
}

/// How many points `(r, c)` of `0..rows` by `0..cols` satisfy `holds(r, c)`.
pub open spec fn count_area(holds: spec_fn(int, int) -> bool, rows: int, cols: int) -> nat
    decreases rows,
{
    if rows <= 0 {
        0
    } else {
        count_area(holds, rows - 1, cols) + count_row(holds, rows - 1, cols)
    }
}

/// A row in which one predicate implies the other counts no more under the first.
pub proof fn lemma_count_row_monotone(
    f: spec_fn(int, int) -> bool,
    g: spec_fn(int, int) -> bool,
    r: int,
    cols: int,
)
    requires
        forall|c: int| 0 <= c < cols && #[trigger] f(r, c) ==> g(r, c),
    ensures
        count_row(f, r, cols) <= count_row(g, r, cols),
    decreases cols,
{
    if cols > 0 {
        lemma_count_row_monotone(f, g, r, cols - 1);
    }
}

/// An area in which one predicate implies the other counts no more under the first.
pub proof fn lemma_count_area_monotone(
    f: spec_fn(int, int) -> bool,
    g: spec_fn(int, int) -> bool,
    rows: int,
    cols: int,
)
    requires
        forall|r: int, c: int| 0 <= r < rows && 0 <= c < cols && #[trigger] f(r, c) ==> g(r, c),
    ensures
        count_area(f, rows, cols) <= count_area(g, rows, cols),
    decreases rows,
{
    if rows > 0 {
        lemma_count_area_monotone(f, g, rows - 1, cols);
        lemma_count_row_monotone(f, g, rows - 1, cols);
    }
}

/// Two predicates that agree on an area count the same.
pub proof fn lemma_count_area_agree(
    f: spec_fn(int, int) -> bool,
    g: spec_fn(int, int) -> bool,
    rows: int,
    cols: int,
)
    requires
        forall|r: int, c: int| 0 <= r < rows && 0 <= c < cols ==> #[trigger] f(r, c) == g(r, c),
    ensures
        count_area(f, rows, cols) == count_area(g, rows, cols),
{
    lemma_count_area_monotone(f, g, rows, cols);
    lemma_count_area_monotone(g, f, rows, cols);
}

/// Two predicates that differ in one column of a row differ by one in its count.
pub proof fn lemma_count_row_differs_once(
    f: spec_fn(int, int) -> bool,
    g: spec_fn(int, int) -> bool,
    r: int,
    cols: int,
    at: int,
)
    requires
        0 <= at < cols,
        f(r, at),
        !g(r, at),
        forall|c: int| 0 <= c < cols && c != at ==> #[trigger] f(r, c) == g(r, c),
    ensures
        count_row(f, r, cols) == count_row(g, r, cols) + 1,
    decreases cols,
{
    if at == cols - 1 {
        lemma_count_row_monotone(f, g, r, cols - 1);
        lemma_count_row_monotone(g, f, r, cols - 1);
    } else {
        lemma_count_row_differs_once(f, g, r, cols - 1, at);
    }
}

/// Two predicates that differ in one point of an area differ by one in its count.
pub proof fn lemma_count_area_differs_once(
    f: spec_fn(int, int) -> bool,
    g: spec_fn(int, int) -> bool,
    rows: int,
    cols: int,
    at_row: int,
    at_col: int,
)
    requires
        0 <= at_row < rows,
        0 <= at_col < cols,
        f(at_row, at_col),
        !g(at_row, at_col),
        forall|r: int, c: int|
            0 <= r < rows && 0 <= c < cols && !(r == at_row && c == at_col) ==> #[trigger] f(r, c)
                == g(r, c),
    ensures
        count_area(f, rows, cols) == count_area(g, rows, cols) + 1,
    decreases rows,
{
    if at_row == rows - 1 {
        lemma_count_area_agree(f, g, rows - 1, cols);
        lemma_count_row_differs_once(f, g, rows - 1, cols, at_col);
    } else {
        lemma_count_area_differs_once(f, g, rows - 1, cols, at_row, at_col);
        lemma_count_row_monotone(f, g, rows - 1, cols);
        lemma_count_row_monotone(g, f, rows - 1, cols);
    }
}

/// A row counts nothing exactly when the predicate holds nowhere in it.
pub proof fn lemma_count_row_zero(holds: spec_fn(int, int) -> bool, r: int, cols: int)
    ensures
        count_row(holds, r, cols) == 0 <==> forall|c: int|
            0 <= c < cols ==> !#[trigger] holds(r, c),
    decreases cols,
{
    if cols > 0 {
        lemma_count_row_zero(holds, r, cols - 1);
        if count_row(holds, r, cols) == 0 {
            assert forall|c: int| 0 <= c < cols implies !#[trigger] holds(r, c) by {}
        }
    }
}

/// An area counts nothing exactly when the predicate holds nowhere in it.
pub proof fn lemma_count_area_zero(holds: spec_fn(int, int) -> bool, rows: int, cols: int)
    ensures
        count_area(holds, rows, cols) == 0 <==> forall|r: int, c: int|
            0 <= r < rows && 0 <= c < cols ==> !#[trigger] holds(r, c),
    decreases rows,
{
    if rows > 0 {
        lemma_count_area_zero(holds, rows - 1, cols);
        lemma_count_row_zero(holds, rows - 1, cols);
        if count_area(holds, rows, cols) == 0 {
            assert forall|r: int, c: int| 0 <= r < rows && 0 <= c < cols implies !#[trigger] holds(
                r,
                c,
            ) by {}
        }
    }
}

/// A row is counted in full when the predicate holds throughout.
pub proof fn lemma_count_row_full(holds: spec_fn(int, int) -> bool, r: int, cols: int)
    requires
        0 <= cols,
        forall|c: int| 0 <= c < cols ==> #[trigger] holds(r, c),
    ensures
        count_row(holds, r, cols) == cols,
    decreases cols,
{
    if cols > 0 {
        lemma_count_row_full(holds, r, cols - 1);
    }
}

/// An area is counted in full when the predicate holds throughout.
pub proof fn lemma_count_area_full(holds: spec_fn(int, int) -> bool, rows: int, cols: int)
    requires
        0 <= rows,
        0 <= cols,
        forall|r: int, c: int| 0 <= r < rows && 0 <= c < cols ==> #[trigger] holds(r, c),
    ensures
        count_area(holds, rows, cols) == rows * cols,
    decreases rows,
{
    if rows > 0 {
        lemma_count_area_full(holds, rows - 1, cols);
        lemma_count_row_full(holds, rows - 1, cols);
        assert(rows * cols == (rows - 1) * cols + cols) by (nonlinear_arith);
    } else {
        assert(rows * cols == 0) by (nonlinear_arith)
            requires
                rows == 0,
        ;
    }
}

/// A row counts no less over more columns.
pub proof fn lemma_count_row_grows(holds: spec_fn(int, int) -> bool, r: int, fewer: int, cols: int)
    requires
        fewer <= cols,
    ensures
        count_row(holds, r, fewer) <= count_row(holds, r, cols),
    decreases cols,
{
    if fewer < cols && cols > 0 {
        lemma_count_row_grows(holds, r, fewer, cols - 1);
    }
}

/// An area counts no less over more rows.
pub proof fn lemma_count_area_grows(
    holds: spec_fn(int, int) -> bool,
    fewer: int,
    rows: int,
    cols: int,
)
    requires
        fewer <= rows,
    ensures
        count_area(holds, fewer, cols) <= count_area(holds, rows, cols),
    decreases rows,
{
    if fewer < rows && rows > 0 {
        lemma_count_area_grows(holds, fewer, rows - 1, cols);
    }
}

/// A row counted under a predicate is the sum of its counts under two
/// predicates that split it.
pub proof fn lemma_count_row_split(
    whole: spec_fn(int, int) -> bool,
    one: spec_fn(int, int) -> bool,
    other: spec_fn(int, int) -> bool,
    r: int,
    cols: int,
)
    requires
        forall|c: int|
            0 <= c < cols ==> (#[trigger] whole(r, c) <==> one(r, c) || other(r, c)) && !(one(r, c)
                && other(r, c)),
    ensures
        count_row(whole, r, cols) == count_row(one, r, cols) + count_row(other, r, cols),
    decreases cols,
{
    if cols > 0 {
        lemma_count_row_split(whole, one, other, r, cols - 1);
    }
}

/// An area counted under a predicate is the sum of its counts under two
/// predicates that split it.
pub proof fn lemma_count_area_split(
    whole: spec_fn(int, int) -> bool,
    one: spec_fn(int, int) -> bool,
    other: spec_fn(int, int) -> bool,
    rows: int,
    cols: int,
)
    requires
        forall|r: int, c: int|
            0 <= r < rows && 0 <= c < cols ==> (#[trigger] whole(r, c) <==> one(r, c) || other(
                r,
                c,
            )) && !(one(r, c) && other(r, c)),
    ensures
        count_area(whole, rows, cols) == count_area(one, rows, cols) + count_area(
            other,
            rows,
            cols,
        ),
    decreases rows,
{
    if rows > 0 {
        lemma_count_area_split(whole, one, other, rows - 1, cols);
        assert forall|c: int| 0 <= c < cols implies (#[trigger] whole(rows - 1, c) <==> one(
            rows - 1,
            c,
        ) || other(rows - 1, c)) && !(one(rows - 1, c) && other(rows - 1, c)) by {}
        lemma_count_row_split(whole, one, other, rows - 1, cols);
    }
}

} // verus!
