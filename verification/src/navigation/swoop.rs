//! Lines of the buffer to jump between.

use vstd::prelude::*;
use crate::grid::Grid;
use crate::navigation::export::{plain_row, plain_row_chars};
use crate::text::{is_white, string_of};

verus! {

broadcast use {Grid::lemma_bounds, Grid::lemma_scrolled};

/// A line of the buffer: its absolute row, and its text without the white space at
/// its end.
pub type SwoopLine = (usize, String);

/// Whether `text` holds a character that is not white space.
pub open spec fn is_printed(text: Seq<char>) -> bool {
    exists|i: int| 0 <= i < text.len() && !is_white(#[trigger] text[i])
}

/// Of the first `n` rows, those that hold text, each with what it holds.
pub open spec fn swoop_rows(grid: Grid, n: int) -> Seq<(int, Seq<char>)>
    decreases n,
{
    if n <= 0 {
        Seq::empty()
    } else if is_printed(plain_row(grid, n - 1)) {
        swoop_rows(grid, n - 1).push((n - 1, plain_row(grid, n - 1)))
    } else {
        swoop_rows(grid, n - 1)
    }
}

/// Lines as pairs of a row and its text.
pub open spec fn swoop_views(lines: Seq<SwoopLine>) -> Seq<(int, Seq<char>)> {
    Seq::new(lines.len(), |i: int| (lines[i].0 as int, lines[i].1@))
}

/// Whether `text` holds a character that is not white space.
pub fn holds_text(text: &Vec<char>) -> (r: bool)
    ensures
        r == is_printed(text@),
{
    let mut i: usize = 0;
    while i < text.len()
        invariant
            i <= text@.len(),
            forall|j: int| 0 <= j < i ==> is_white(#[trigger] text@[j]),
        decreases text@.len() - i,
    {
        if !text[i].is_whitespace() {
            assert(!is_white(text@[i as int]));
            return true;
        }
        i = i + 1;
    }
    false
}

/// Every line of the buffer that is not blank, with the row it is on.
pub fn extract_swoop_lines(grid: &Grid) -> (r: Vec<SwoopLine>)
    requires
        grid.wf(),
    ensures
        swoop_views(r@) == swoop_rows(*grid, grid.total()),
{
    let total: usize = grid.scrollback_len() + grid.rows();
    let mut lines: Vec<SwoopLine> = Vec::new();
    let mut row: usize = 0;
    assert(swoop_views(lines@) =~= swoop_rows(*grid, 0));
    while row < total
        invariant
            grid.wf(),
            total == grid.total(),
            row <= total,
            swoop_views(lines@) == swoop_rows(*grid, row as int),
        decreases total - row,
    {
        let line = plain_row_chars(grid, row);
        if holds_text(&line) {
            let ghost before = lines@;
            lines.push((row, string_of(&line)));
            assert(swoop_views(lines@) =~= swoop_views(before).push((row as int, line@)));
        }
        row = row + 1;
    }
    lines
}

/// Every row that holds text is listed, and no other.
pub proof fn law_swoop_lists_the_rows_with_text(grid: Grid, row: int, n: int)
    requires
        grid.wf(),
        0 <= row < n,
    ensures
        (exists|i: int|
            0 <= i < swoop_rows(grid, n).len() && (#[trigger] swoop_rows(grid, n)[i]).0 == row)
            <==> is_printed(plain_row(grid, row)),
    decreases n,
{
    let rows = swoop_rows(grid, n);
    let before = swoop_rows(grid, n - 1);
    lemma_swoop_rows_below(grid, n - 1);
    if row < n - 1 {
        law_swoop_lists_the_rows_with_text(grid, row, n - 1);
        if is_printed(plain_row(grid, row)) {
            let i = choose|i: int| 0 <= i < before.len() && (#[trigger] before[i]).0 == row;
            assert(rows[i].0 == row);
        } else {
            assert forall|i: int| 0 <= i < rows.len() implies (#[trigger] rows[i]).0 != row by {
                if i < before.len() {
                    assert(rows[i] == before[i]);
                }
            }
        }
    } else if is_printed(plain_row(grid, row)) {
        assert(rows[before.len() as int].0 == row);
    } else {
        assert(rows == before);
    }
}

proof fn lemma_swoop_rows_below(grid: Grid, n: int)
    ensures
        forall|i: int|
            0 <= i < swoop_rows(grid, n).len() ==> (#[trigger] swoop_rows(grid, n)[i]).0 < n,
    decreases n,
{
    if n > 0 {
        lemma_swoop_rows_below(grid, n - 1);
        let before = swoop_rows(grid, n - 1);
        assert forall|i: int| 0 <= i < swoop_rows(grid, n).len() implies (#[trigger] swoop_rows(
            grid,
            n,
        )[i]).0 < n by {
            if i < before.len() {
                assert(swoop_rows(grid, n)[i] == before[i]);
            }
        }
    }
}

} // verus!
