//! A maze as text.

use vstd::prelude::*;
use crate::grid::{Grid, PASSAGE};
use crate::maze::Maze;

verus! {

/// The character that stands for a value of the grid: `#` for a passage,
/// `0` for a wall.
pub open spec fn glyph(value: u8) -> char {
    if value == PASSAGE {
        '#'
    } else {
        '0'
    }
}

impl Grid {
    /// The first `cols` characters of the line for `row`.
    pub open spec fn line(self, row: int, cols: int) -> Seq<char> {
        Seq::new(cols as nat, |c: int| glyph(self.rows[row][c]))
    }

    /// The lines of the first `rows` rows, each closed by a line feed.
    pub open spec fn text_of(self, rows: int) -> Seq<char>
        decreases rows,
    {
        if rows <= 0 {
            Seq::empty()
        } else {
            self.text_of(rows - 1) + self.line(rows - 1, self.col_count()).push('\n')
        }
    }

    /// The grid as text: one line for each row.
    pub open spec fn text(self) -> Seq<char> {
        self.text_of(self.row_count())
    }
}

/// `String::push` appends one character to a string.
#[verifier::external_body]
fn push_char(text: &mut String, ch: char)
    ensures
        final(text)@ == old(text)@.push(ch),
{
    text.push(ch);
}

impl Maze {
    /// The grid as text, for a look at the maze: one line for each row,
    /// `#` for a passage and `0` for a wall.
    pub fn to_text(&self) -> (text: String)
        requires
            self.wf(),
        ensures
            text@ == self@.text(),
    {
        let ghost g = self@;
        let rows = self.rows();
        let cols = self.cols();
        let mut text = String::new();
        let mut r: usize = 0;
        while r < rows
            invariant
                self.wf(),
                g == self@,
                rows == g.row_count(),
                cols == g.col_count(),
                r <= rows,
                text@ == g.text_of(r as int),
            decreases rows - r,
        {
            let ghost above = text@;
            let mut c: usize = 0;
            while c < cols
                invariant
                    self.wf(),
                    g == self@,
                    rows == g.row_count(),
                    cols == g.col_count(),
                    r < rows,
                    c <= cols,
                    text@ == above + g.line(r as int, c as int),
                decreases cols - c,
            {
                if self.value(r, c) == PASSAGE {
                    push_char(&mut text, '#');
                } else {
                    push_char(&mut text, '0');
                }
                c += 1;
            }
            push_char(&mut text, '\n');
            r += 1;
        }
        text
    }
}

} // verus!
