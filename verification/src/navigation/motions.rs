//! What the motions promise, told by the absolute row and the column that the cursor is on.

use vstd::prelude::*;
use crate::grid::{is_blank, shown, Grid};
use crate::input::CursorMove;
use crate::navigation::cursor::moved;
use crate::navigation::vim::{
    law_reveal_shows_the_target, paragraph_after, paragraph_before, printed_line, printed_row,
    reach, Landing,
};
use crate::words::{
    ends_word, law_b_goes_to_the_start_before, law_e_goes_to_the_next_end,
    law_ge_goes_to_the_end_before, law_the_first_and_the_last_printed_column,
    law_w_goes_to_the_next_start, starts_word, unprinted,
};

verus! {

broadcast use {Grid::lemma_bounds, Grid::lemma_scrolled};

proof fn lemma_text_end(grid: Grid, row: int, n: int)
    requires
        1 <= n,
    ensures
        0 <= grid.text_end(row, n) < n,
        forall|c: int|
            grid.text_end(row, n) < c < n ==> is_blank((#[trigger] grid.cell_at(row, c)).ch),
        grid.text_end(row, n) > 0 ==> !is_blank(grid.cell_at(row, grid.text_end(row, n)).ch),
    decreases n,
{
    if n > 1 && is_blank(grid.cell_at(row, n - 1).ch) {
        lemma_text_end(grid, row, n - 1);
    }
}

/// What is printed on a row ends with the last cell that is not blank, and holds every cell up
/// to there as it is shown; a blank row has nothing printed on it.
pub proof fn law_a_printed_row_ends_with_its_last_mark(grid: Grid, row: int)
    requires
        grid.wf(),
        0 <= row < grid.total(),
    ensures
        ({
            let line = printed_row(grid, row);
            &&& line.len() <= grid.width()
            &&& forall|c: int|
                0 <= c < line.len() ==> #[trigger] line[c] == (if grid.cell_at(row, c).ch == '\0' {
                    ' '
                } else {
                    grid.cell_at(row, c).ch
                })
            &&& line.len() > 0 ==> !unprinted(line.last())
            &&& forall|c: int|
                line.len() <= c < grid.width() ==> unprinted((#[trigger] grid.cell_at(row, c)).ch)
        }),
{
    lemma_text_end(grid, row, grid.width());
    let end = grid.text_end(row, grid.width());
    let text = grid.row_text(row);
    let line = text.take(end + 1);
    assert(line.last() == shown(grid.cell_at(row, end).ch));
    if line.len() == 1 && is_blank(line[0]) {
        assert(is_blank(grid.cell_at(row, 0).ch));
    }
}

/// The rightmost column that the cursor may take is the last in which something is printed, or
/// the first; on the row of the live screen that the shell's cursor is on, it may also go as
/// far as that cursor.
pub proof fn law_how_far_right_the_cursor_goes(grid: Grid, row: int)
    requires
        grid.wf(),
        0 <= row < grid.height(),
    ensures
        ({
            let far = reach(grid, row);
            let own = grid.offset() == 0 && row == grid.cursor_at().0;
            let abs = grid.top() + row;
            &&& 0 <= far < grid.width()
            &&& forall|c: int|
                far < c < grid.width() ==> unprinted((#[trigger] grid.cell_at(abs, c)).ch)
            &&& own && grid.cursor_at().1 < grid.width() ==> far >= grid.cursor_at().1
            &&& !own && far > 0 ==> !unprinted(grid.cell_at(abs, far).ch)
            &&& own && far > 0 ==> !unprinted(grid.cell_at(abs, far).ch) || far
                == grid.cursor_at().1 || far == grid.width() - 1
        }),
{
    lemma_text_end(grid, grid.top() + row, grid.width());
}

proof fn lemma_content_end(grid: Grid, n: int)
    requires
        1 <= n,
    ensures
        0 <= grid.content_end(n) < n,
        forall|r: int| grid.content_end(n) < r < n ==> !(#[trigger] grid.has_content(r)),
        grid.content_end(n) > 0 ==> grid.has_content(grid.content_end(n)),
    decreases n,
{
    if n > 1 && !grid.has_content(n - 1) {
        lemma_content_end(grid, n - 1);
    }
}

/// Whether a row of the view holds something: a mark, or on the live screen the shell's cursor.
pub open spec fn holds_something(grid: Grid, row: int) -> bool {
    ||| exists|c: int|
        0 <= c < grid.width() && !unprinted((#[trigger] grid.cell_at(grid.top() + row, c)).ch)
    ||| grid.offset() == 0 && row == grid.cursor_at().0
}

/// The last row that the cursor takes on the live screen is the last of the view that holds
/// something, or the first.
pub proof fn law_how_far_down_the_cursor_goes(grid: Grid)
    requires
        grid.wf(),
    ensures
        ({
            let last = grid.content_end(grid.height());
            &&& 0 <= last < grid.height()
            &&& forall|r: int| last < r < grid.height() ==> !(#[trigger] holds_something(grid, r))
            &&& last > 0 ==> holds_something(grid, last)
        }),
{
    lemma_content_end(grid, grid.height());
    let last = grid.content_end(grid.height());
    assert forall|r: int| last < r < grid.height() implies !(#[trigger] holds_something(
        grid,
        r,
    )) by {
        assert(!grid.has_content(r));
        assert(grid.row_is_blank(grid.top() + r));
    }
    if last > 0 && !grid.row_is_blank(grid.top() + last) {
        let c = choose|c: int|
            0 <= c < grid.width() && 0 <= grid.top() + last < grid.total() && !is_blank(
                (#[trigger] grid.cell_at(grid.top() + last, c)).ch,
            );
        assert(!unprinted(grid.cell_at(grid.top() + last, c).ch));
    }
}

/// Whether the cursor is where it may be.
pub open spec fn is_placed(grid: Grid, row: int, col: int) -> bool {
    &&& grid.wf()
    &&& 0 <= row < grid.height()
    &&& 0 <= col < grid.width()
    &&& grid.offset() == 0 ==> row <= grid.content_end(grid.height())
}

/// The absolute row of a landing.
pub open spec fn row_of(l: Landing) -> int {
    l.grid.top() + l.row
}

/// The nearer of two columns to the left edge.
pub open spec fn up_to(col: int, far: int) -> int {
    if col <= far {
        col
    } else {
        far
    }
}

/// A step to a side goes one column, within the line. The start of a line is its first column
/// and the end of it as far as the cursor goes.
pub proof fn law_steps_within_a_line(grid: Grid, row: int, col: int)
    requires
        is_placed(grid, row, col),
    ensures
        ({
            let far = reach(grid, row);
            let left = moved(grid, (row, col), CursorMove::Left);
            let right = moved(grid, (row, col), CursorMove::Right);
            let start = moved(grid, (row, col), CursorMove::LineStart);
            let end = moved(grid, (row, col), CursorMove::LineEnd);
            &&& left.grid == grid && right.grid == grid && start.grid == grid && end.grid == grid
            &&& left.row == row && right.row == row && start.row == row && end.row == row
            &&& 0 < col <= far ==> left.col == col - 1
            &&& col == 0 ==> left.col == 0
            &&& col < far ==> right.col == col + 1
            &&& col >= far ==> right.col == far
            &&& start.col == 0
            &&& end.col == far
        }),
{
    law_how_far_right_the_cursor_goes(grid, row);
}

/// A step up goes to the row above, and a step down to the row below, over the edge of the view
/// too, which scrolls by a row for it. At the first row of all, and at the last one of the live
/// screen that holds something, there is no further step.
pub proof fn law_steps_between_lines(grid: Grid, row: int, col: int)
    requires
        is_placed(grid, row, col),
    ensures
        ({
            let up = moved(grid, (row, col), CursorMove::Up);
            let down = moved(grid, (row, col), CursorMove::Down);
            let last = grid.content_end(grid.height());
            &&& grid.top() + row > 0 ==> row_of(up) == grid.top() + row - 1
            &&& grid.top() + row == 0 ==> row_of(up) == 0
            &&& row > 0 ==> up.grid == grid
            &&& up.col == up_to(col, reach(up.grid, up.row))
            &&& row < last ==> down.grid == grid && down.row == row + 1
            &&& row >= last && grid.offset() == 0 ==> down.grid == grid && down.row == row
            &&& row >= last && grid.offset() > 0 ==> down.grid.offset() == grid.offset() - 1
                && row_of(down) <= grid.top() + row + 1
            &&& row >= last && grid.offset() > 1 ==> row_of(down) == grid.top() + row + 1
            &&& down.col == up_to(col, reach(down.grid, down.row))
        }),
{
    lemma_content_end(grid, grid.height());
    let above = grid.scrolled(grid.offset() + 1);
    lemma_content_end(above, grid.height());
    let below = grid.scrolled(crate::text::minus(grid.offset(), 1));
    lemma_content_end(below, grid.height());
    let up = moved(grid, (row, col), CursorMove::Up);
    let down = moved(grid, (row, col), CursorMove::Down);
    let last = grid.content_end(grid.height());
    assert(grid.top() + row > 0 ==> row_of(up) == grid.top() + row - 1);
    assert(grid.top() + row == 0 ==> row_of(up) == 0);
    assert(row > 0 ==> up.grid == grid);
    assert(up.col == up_to(col, reach(up.grid, up.row)));
    assert(row < last ==> down.grid == grid && down.row == row + 1);
    assert(row >= last && grid.offset() == 0 ==> down.grid == grid && down.row == row);
    assert(row >= last && grid.offset() > 0 ==> down.grid.offset() == grid.offset() - 1);
    assert(row >= last && grid.offset() > 0 ==> row_of(down) <= grid.top() + row + 1);
    assert(row >= last && grid.offset() > 1 ==> row_of(down) == grid.top() + row + 1);
}

/// `^` goes to the first column of the line in which something is printed, and `g_` to the last.
pub proof fn law_to_the_first_and_the_last_mark(grid: Grid, row: int, col: int, c: int)
    requires
        is_placed(grid, row, col),
        0 <= c < grid.width(),
        !unprinted(grid.cell_at(grid.top() + row, c).ch),
    ensures
        ({
            let first = moved(grid, (row, col), CursorMove::FirstNonBlank);
            let last = moved(grid, (row, col), CursorMove::LastNonBlank);
            &&& first.grid == grid && first.row == row
            &&& last.grid == grid && last.row == row
            &&& first.col <= c <= last.col
            &&& !unprinted(grid.cell_at(grid.top() + row, first.col).ch)
            &&& !unprinted(grid.cell_at(grid.top() + row, last.col).ch)
        }),
{
    let abs = grid.top() + row;
    law_a_printed_row_ends_with_its_last_mark(grid, abs);
    law_the_first_and_the_last_printed_column(printed_line(grid, row));
    law_how_far_right_the_cursor_goes(grid, row);
    let line = printed_line(grid, row);
    if c >= line.len() {
        assert(unprinted(grid.cell_at(abs, c).ch));
    }
    assert(!unprinted(line[c]));
    let last = crate::words::last_printed(line);
    let first = crate::words::first_printed(line);
    assert(!unprinted(line[last]));
    assert(!unprinted(line[first]));
    if reach(grid, row) < last {
        assert(unprinted(grid.cell_at(abs, last).ch));
    }
}

/// `w` and `b` go to the nearest start of a word on the line, on either side of the cursor, and
/// `e` and `ge` to the nearest end of one. `big` words are parted by blanks alone.
pub proof fn law_word_motions_on_a_line(grid: Grid, row: int, col: int, big: bool)
    requires
        is_placed(grid, row, col),
    ensures
        ({
            let line = printed_line(grid, row);
            let w = moved(
                grid,
                (row, col),
                if big {
                    CursorMove::WordForwardBig
                } else {
                    CursorMove::WordForward
                },
            );
            let b = moved(
                grid,
                (row, col),
                if big {
                    CursorMove::WordBackBig
                } else {
                    CursorMove::WordBack
                },
            );
            let e = moved(
                grid,
                (row, col),
                if big {
                    CursorMove::WordEndBig
                } else {
                    CursorMove::WordEnd
                },
            );
            let ge = moved(
                grid,
                (row, col),
                if big {
                    CursorMove::WordEndBackBig
                } else {
                    CursorMove::WordEndBack
                },
            );
            &&& forall|k: int|
                col < k && #[trigger] starts_word(line, k, big) ==> {
                    &&& w.grid == grid && w.row == row
                    &&& col < w.col <= k && starts_word(line, w.col, big)
                }
            &&& forall|k: int|
                k < col && #[trigger] starts_word(line, k, big) ==> {
                    &&& b.grid == grid && b.row == row
                    &&& k <= b.col < col && starts_word(line, b.col, big)
                }
            &&& forall|k: int|
                col < k && #[trigger] ends_word(line, k, big) ==> {
                    &&& e.grid == grid && e.row == row
                    &&& col < e.col <= k && ends_word(line, e.col, big)
                }
            &&& forall|k: int|
                k < col && #[trigger] ends_word(line, k, big) ==> {
                    &&& ge.grid == grid && ge.row == row
                    &&& k <= ge.col < col && ends_word(line, ge.col, big)
                }
        }),
{
    let line = printed_line(grid, row);
    law_a_printed_row_ends_with_its_last_mark(grid, grid.top() + row);
    law_w_goes_to_the_next_start(line, col, big);
    law_b_goes_to_the_start_before(line, col, big);
    law_e_goes_to_the_next_end(line, col, big);
    law_ge_goes_to_the_end_before(line, col, big);
    lemma_line_within_reach(grid, row);
}

/// What is printed on a row is within what the cursor may take of it.
pub proof fn lemma_line_within_reach(grid: Grid, row: int)
    requires
        grid.wf(),
        0 <= row < grid.height(),
    ensures
        printed_line(grid, row).len() <= reach(grid, row) + 1,
{
    let line = printed_line(grid, row);
    let abs = grid.top() + row;
    law_a_printed_row_ends_with_its_last_mark(grid, abs);
    law_how_far_right_the_cursor_goes(grid, row);
    if line.len() > 0 && line.len() - 1 > reach(grid, row) {
        assert(unprinted(grid.cell_at(abs, line.len() - 1).ch));
        assert(line[line.len() - 1] == line.last());
    }
}

/// Past the last word of a line, `w` goes to the first printed column of the next one and `e`
/// on to the first end of a word there after its first column; before the first word of a line,
/// `b` goes to the last start of a word of the line above and `ge` to the last printed column of
/// it. At the edge of the view, that scrolls by a row.
pub proof fn law_word_motions_between_lines(grid: Grid, row: int, col: int, big: bool)
    requires
        is_placed(grid, row, col),
    ensures
        ({
            let line = printed_line(grid, row);
            let w = moved(
                grid,
                (row, col),
                if big {
                    CursorMove::WordForwardBig
                } else {
                    CursorMove::WordForward
                },
            );
            let b = moved(
                grid,
                (row, col),
                if big {
                    CursorMove::WordBackBig
                } else {
                    CursorMove::WordBack
                },
            );
            let ge = moved(
                grid,
                (row, col),
                if big {
                    CursorMove::WordEndBackBig
                } else {
                    CursorMove::WordEndBack
                },
            );
            let down = grid.offset() > 1 || row < grid.content_end(grid.height());
            let below = printed_row(grid, grid.top() + row + 1);
            let above = printed_row(grid, grid.top() + row - 1);
            &&& down && (forall|k: int| col < k ==> !(#[trigger] starts_word(line, k, big))) ==> {
                &&& row_of(w) == grid.top() + row + 1
                &&& forall|k: int| 0 <= k < w.col ==> unprinted(#[trigger] below[k])
                &&& w.col < below.len() ==> !unprinted(below[w.col])
                &&& below.len() == 0 ==> w.col == 0
            }
            &&& grid.top() + row > 0 && (forall|k: int|
                k < col ==> !(#[trigger] starts_word(line, k, big))) ==> {
                &&& row_of(b) == grid.top() + row - 1
                &&& forall|k: int| b.col < k ==> !(#[trigger] starts_word(above, k, big))
                &&& starts_word(above, b.col, big) || b.col == 0
            }
            &&& grid.top() + row > 0 && (forall|k: int|
                k < col ==> !(#[trigger] ends_word(line, k, big))) ==> {
                &&& row_of(ge) == grid.top() + row - 1
                &&& forall|k: int|
                    ge.col < k < above.len() ==> unprinted(#[trigger] above[k])
                &&& ge.col < above.len() ==> !unprinted(above[ge.col])
                &&& above.len() == 0 ==> ge.col == 0
            }
        }),
{
    let line = printed_line(grid, row);
    lemma_content_end(grid, grid.height());
    law_w_goes_to_the_next_start(line, col, big);
    law_b_goes_to_the_start_before(line, col, big);
    law_ge_goes_to_the_end_before(line, col, big);
    let down = grid.offset() > 1 || row < grid.content_end(grid.height());
    if down && (forall|k: int| col < k ==> !(#[trigger] starts_word(line, k, big))) {
        let g = crate::navigation::vim::grid_below(grid, row);
        let r = crate::navigation::vim::row_below(grid, row);
        assert(g.top() + r == grid.top() + row + 1);
        lemma_same_rows(grid, g, grid.top() + row + 1);
        lemma_first_mark(g, r);
        lemma_content_end(g, grid.height());
        let w = moved(
            grid,
            (row, col),
            if big {
                CursorMove::WordForwardBig
            } else {
                CursorMove::WordForward
            },
        );
        assert(w.grid == g);
        assert(w.row == r);
        assert(w.col == crate::words::first_printed(printed_line(g, r)));
    }
    if grid.top() + row > 0 {
        let g = crate::navigation::vim::grid_above(grid, row);
        let r = crate::text::minus(row, 1);
        assert(g.top() + r == grid.top() + row - 1);
        lemma_same_rows(grid, g, grid.top() + row - 1);
        lemma_first_mark(g, r);
        let above = printed_line(g, r);
        law_b_goes_to_the_start_before(above, above.len() as int, big);
        lemma_content_end(g, grid.height());
        if forall|k: int| k < col ==> !(#[trigger] starts_word(line, k, big)) {
            let b = moved(
                grid,
                (row, col),
                if big {
                    CursorMove::WordBackBig
                } else {
                    CursorMove::WordBack
                },
            );
            assert(b.grid == g);
            assert(b.row == r);
            assert forall|k: int| b.col < k implies !(#[trigger] starts_word(above, k, big)) by {
                if k >= above.len() {
                } else {
                    assert(k < above.len());
                }
            }
            assert(starts_word(above, b.col, big) || b.col == 0);
        }
        if forall|k: int| k < col ==> !(#[trigger] ends_word(line, k, big)) {
            let ge = moved(
                grid,
                (row, col),
                if big {
                    CursorMove::WordEndBackBig
                } else {
                    CursorMove::WordEndBack
                },
            );
            assert(ge.grid == g);
            assert(ge.row == r);
            assert(ge.col == crate::words::last_printed(above));
        }
    }
}

proof fn lemma_same_rows(grid: Grid, other: Grid, abs: int)
    requires
        grid.wf(),
        other == grid || exists|offset: int| 0 <= offset && other == grid.scrolled(offset),
        0 <= abs < grid.total(),
    ensures
        printed_row(other, abs) == printed_row(grid, abs),
{
    if other != grid {
        let offset = choose|offset: int| 0 <= offset && other == grid.scrolled(offset);
        assert(grid.scrolled(offset).row_text(abs) =~= grid.row_text(abs));
        lemma_same_end(grid, offset, abs, grid.width());
    }
}

proof fn lemma_same_end(grid: Grid, offset: int, row: int, n: int)
    requires
        grid.wf(),
        0 <= offset,
    ensures
        grid.scrolled(offset).text_end(row, n) == grid.text_end(row, n),
    decreases n,
{
    if n > 1 {
        lemma_same_end(grid, offset, row, n - 1);
    }
}

proof fn lemma_first_mark(grid: Grid, row: int)
    requires
        grid.wf(),
        0 <= row < grid.height(),
    ensures
        ({
            let line = printed_line(grid, row);
            let first = crate::words::first_printed(line);
            let last = crate::words::last_printed(line);
            &&& line.len() == 0 ==> first == 0 && last == 0
            &&& line.len() > 0 ==> {
                &&& 0 <= first <= last < line.len()
                &&& !unprinted(line[first])
                &&& !unprinted(line[last])
                &&& forall|k: int| 0 <= k < first ==> unprinted(#[trigger] line[k])
                &&& forall|k: int| last < k < line.len() ==> unprinted(#[trigger] line[k])
            }
            &&& line.len() <= reach(grid, row) + 1
            &&& 0 <= reach(grid, row)
        }),
{
    let line = printed_line(grid, row);
    law_how_far_right_the_cursor_goes(grid, row);
    law_a_printed_row_ends_with_its_last_mark(grid, grid.top() + row);
    law_the_first_and_the_last_printed_column(line);
    lemma_line_within_reach(grid, row);
    if line.len() > 0 {
        assert(!unprinted(line[line.len() - 1]));
    } else {
        assert(forall|k: int| 0 <= k < line.len() ==> unprinted(#[trigger] line[k]));
    }
}

/// `H`, `M` and `L` go to the top, the middle and the bottom row of the view without scrolling,
/// the latter two no further down than something is held.
pub proof fn law_to_a_row_of_the_view(grid: Grid, row: int, col: int)
    requires
        is_placed(grid, row, col),
    ensures
        ({
            let h = moved(grid, (row, col), CursorMove::ScreenTop);
            let m = moved(grid, (row, col), CursorMove::ScreenMiddle);
            let l = moved(grid, (row, col), CursorMove::ScreenBottom);
            let last = grid.content_end(grid.height());
            &&& h.grid == grid && m.grid == grid && l.grid == grid
            &&& h.row == 0
            &&& m.row == up_to(grid.height() / 2, last)
            &&& l.row == last
            &&& h.col == up_to(col, reach(grid, 0))
            &&& m.col == up_to(col, reach(grid, m.row))
            &&& l.col == up_to(col, reach(grid, l.row))
        }),
{
    lemma_content_end(grid, grid.height());
}

/// `zt`, `zz` and `zb` leave the cursor on its line, and scroll that line to the top, the middle
/// or the bottom of the view, as near as there are rows to scroll.
pub proof fn law_a_line_is_brought_to_a_row(grid: Grid, row: int, col: int)
    requires
        is_placed(grid, row, col),
    ensures
        ({
            let abs = grid.top() + row;
            let t = moved(grid, (row, col), CursorMove::LineToTop);
            let z = moved(grid, (row, col), CursorMove::LineToCenter);
            let b = moved(grid, (row, col), CursorMove::LineToBottom);
            &&& abs <= grid.history() ==> row_of(t) == abs && t.row == 0
            &&& abs > grid.history() ==> t.grid.offset() == 0
            &&& 0 <= abs - grid.height() / 2 <= grid.history() ==> z.grid.top() == abs
                - grid.height() / 2
            &&& abs - grid.height() / 2 < 0 ==> z.grid.top() == 0
            &&& abs - grid.height() / 2 > grid.history() ==> z.grid.offset() == 0
            &&& abs - (grid.height() - 1) >= 0 ==> b.grid.top() == abs - (grid.height() - 1)
            &&& abs - (grid.height() - 1) < 0 ==> b.grid.top() == 0
            &&& t.grid.offset() > 0 ==> row_of(t) == abs
            &&& z.grid.offset() > 0 ==> row_of(z) == abs
            &&& b.grid.offset() > 0 ==> row_of(b) == abs
            &&& t.grid.offset() == 0 ==> row_of(t) <= abs
            &&& z.grid.offset() == 0 ==> row_of(z) <= abs
            &&& b.grid.offset() == 0 ==> row_of(b) <= abs
        }),
{
    lemma_content_end(grid, grid.height());
    let abs = grid.top() + row;
    let h = grid.height();
    let t = moved(grid, (row, col), CursorMove::LineToTop);
    let z = moved(grid, (row, col), CursorMove::LineToCenter);
    let b = moved(grid, (row, col), CursorMove::LineToBottom);
    lemma_content_end(t.grid, h);
    lemma_content_end(z.grid, h);
    lemma_content_end(b.grid, h);
    assert(t.grid == grid.scrolled(crate::text::minus(grid.history(), abs)));
    assert(abs <= grid.history() ==> t.grid.top() == abs);
    assert(abs <= grid.history() ==> t.row == 0);
    assert(abs > grid.history() ==> t.grid.offset() == 0);
    assert(0 <= abs - h / 2 <= grid.history() ==> z.grid.top() == abs - h / 2);
    assert(abs - h / 2 < 0 ==> z.grid.top() == 0);
    assert(abs - h / 2 > grid.history() ==> z.grid.offset() == 0);
    assert(abs - (h - 1) >= 0 ==> b.grid.top() == abs - (h - 1));
    assert(abs - (h - 1) < 0 ==> b.grid.top() == 0);
    assert(t.grid.offset() > 0 ==> row_of(t) == abs);
    assert(z.grid.offset() > 0 ==> row_of(z) == abs);
    assert(b.grid.offset() > 0 ==> row_of(b) == abs);
}

/// `gg` goes to the first row of all, at its first column, and `G` to the last row of the live
/// screen that holds something.
pub proof fn law_to_either_end_of_the_buffer(grid: Grid, row: int, col: int)
    requires
        is_placed(grid, row, col),
    ensures
        ({
            let top = moved(grid, (row, col), CursorMove::Top);
            let bottom = moved(grid, (row, col), CursorMove::Bottom);
            &&& grid.history() > 0 ==> row_of(top) == 0
            &&& top.grid.offset() == grid.history()
            &&& top.col == 0
            &&& bottom.grid.offset() == 0
            &&& bottom.row == bottom.grid.content_end(grid.height())
            &&& bottom.col == up_to(col, reach(bottom.grid, bottom.row))
        }),
{
    lemma_content_end(grid, grid.height());
    lemma_content_end(grid.scrolled(0), grid.height());
    let top = moved(grid, (row, col), CursorMove::Top);
    let bottom = moved(grid, (row, col), CursorMove::Bottom);
    lemma_content_end(top.grid, grid.height());
    law_how_far_right_the_cursor_goes(top.grid, 0);
    assert(top.grid == grid.scrolled(grid.history()));
    assert(top.grid.offset() == grid.history());
    assert(top.row == 0);
    assert(top.col == 0);
    assert(bottom.grid.offset() == 0);
    assert(bottom.row == bottom.grid.content_end(grid.height()));
    assert(bottom.col == up_to(col, reach(bottom.grid, bottom.row)));
}

/// A page goes by the height of the view, as far as there are rows, to the top of the page above
/// or the bottom of the page below.
pub proof fn law_pages_go_by_the_height(grid: Grid, row: int, col: int)
    requires
        is_placed(grid, row, col),
    ensures
        ({
            let up = moved(grid, (row, col), CursorMove::PageUp);
            let down = moved(grid, (row, col), CursorMove::PageDown);
            let h = grid.height();
            &&& grid.top() >= h ==> up.grid.top() == grid.top() - h
            &&& grid.top() < h ==> up.grid.top() == 0
            &&& up.row == 0
            &&& grid.offset() >= h ==> down.grid.top() == grid.top() + h
            &&& grid.offset() < h ==> down.grid.offset() == 0
            &&& down.grid.offset() > 0 ==> down.row == h - 1
            &&& down.grid.offset() == 0 ==> down.row == down.grid.content_end(h)
        }),
{
    lemma_content_end(grid, grid.height());
    let down = grid.scrolled(crate::text::minus(grid.offset(), grid.height()));
    lemma_content_end(down, grid.height());
    let up = grid.scrolled(grid.offset() + grid.height());
    lemma_content_end(up, grid.height());
}

/// Whether absolute row `row` shows nothing.
pub open spec fn shows_nothing(grid: Grid, row: int) -> bool {
    forall|c: int| 0 <= c < grid.width() ==> unprinted((#[trigger] grid.cell_at(row, c)).ch)
}

proof fn lemma_shows_nothing(grid: Grid, row: int)
    requires
        0 <= row < grid.total(),
    ensures
        grid.row_is_blank(row) == shows_nothing(grid, row),
{
    if shows_nothing(grid, row) {
        assert forall|col: int|
            0 <= col < grid.width() && 0 <= row < grid.total() implies is_blank(
            (#[trigger] grid.cell_at(row, col)).ch,
        ) by {
            assert(unprinted(grid.cell_at(row, col).ch));
        }
    }
    if grid.row_is_blank(row) {
        assert forall|c: int| 0 <= c < grid.width() implies unprinted(
            (#[trigger] grid.cell_at(row, c)).ch,
        ) by {
            assert(is_blank(grid.cell_at(row, c).ch));
        }
    }
}

proof fn lemma_paragraph_after(grid: Grid, row: int)
    requires
        1 <= row,
        1 <= grid.total(),
    ensures
        ({
            let to = paragraph_after(grid, row);
            &&& 0 <= to < grid.total()
            &&& row <= grid.total() ==> row - 1 <= to
            &&& to == grid.total() - 1 || shows_nothing(grid, to) && !shows_nothing(grid, to - 1)
            &&& forall|r: int|
                row <= r < to ==> !(#[trigger] shows_nothing(grid, r) && !shows_nothing(
                    grid,
                    r - 1,
                ))
        }),
    decreases grid.total() - row,
{
    if row < grid.total() {
        lemma_shows_nothing(grid, row);
        lemma_shows_nothing(grid, row - 1);
        if !(grid.row_is_blank(row) && !grid.row_is_blank(row - 1)) {
            lemma_paragraph_after(grid, row + 1);
        }
    }
}

proof fn lemma_paragraph_before(grid: Grid, row: int)
    requires
        0 <= row < grid.total(),
    ensures
        ({
            let to = paragraph_before(grid, row);
            &&& 0 <= to <= row
            &&& to == 0 || shows_nothing(grid, to) && !shows_nothing(grid, to + 1) && to < row
            &&& forall|r: int|
                to < r < row ==> !(#[trigger] shows_nothing(grid, r) && !shows_nothing(
                    grid,
                    r + 1,
                ))
        }),
    decreases row,
{
    if row > 0 {
        lemma_shows_nothing(grid, row);
        lemma_shows_nothing(grid, row - 1);
        if !(grid.row_is_blank(row - 1) && !grid.row_is_blank(row)) {
            lemma_paragraph_before(grid, row - 1);
        }
    }
}

/// `}` goes to the nearest row below that shows nothing and follows one that does not, or to the
/// last row of all; `{` goes to the nearest row above that shows nothing and is followed by one
/// that does not, or to the first row of all. Either goes to the first column.
pub proof fn law_to_the_end_of_a_paragraph(grid: Grid, row: int, col: int)
    requires
        is_placed(grid, row, col),
    ensures
        ({
            let abs = grid.top() + row;
            let on = moved(grid, (row, col), CursorMove::ParagraphForward);
            let back = moved(grid, (row, col), CursorMove::ParagraphBack);
            &&& on.col == 0 && back.col == 0
            &&& on.grid.offset() > 0 ==> {
                let to = row_of(on);
                &&& abs <= to
                &&& to == grid.total() - 1 || shows_nothing(grid, to) && !shows_nothing(
                    grid,
                    to - 1,
                )
                &&& forall|r: int|
                    abs < r < to ==> !(#[trigger] shows_nothing(grid, r) && !shows_nothing(
                        grid,
                        r - 1,
                    ))
            }
            &&& back.grid.offset() > 0 ==> {
                let to = row_of(back);
                &&& to <= abs
                &&& to == 0 || to < abs && shows_nothing(grid, to) && !shows_nothing(grid, to + 1)
                &&& forall|r: int|
                    to < r < abs ==> !(#[trigger] shows_nothing(grid, r) && !shows_nothing(
                        grid,
                        r + 1,
                    ))
            }
        }),
{
    let abs = grid.top() + row;
    lemma_paragraph_after(grid, abs + 1);
    lemma_paragraph_before(grid, abs);
    law_reveal_shows_the_target(grid, paragraph_after(grid, abs + 1));
    law_reveal_shows_the_target(grid, paragraph_before(grid, abs));
    let on = moved(grid, (row, col), CursorMove::ParagraphForward);
    lemma_content_end(on.grid, grid.height());
    law_how_far_right_the_cursor_goes(on.grid, on.row);
    let back = moved(grid, (row, col), CursorMove::ParagraphBack);
    lemma_content_end(back.grid, grid.height());
    law_how_far_right_the_cursor_goes(back.grid, back.row);
}

} // verus!
