//! The Normal-mode cursor: where each motion takes it over the whole buffer.

use vstd::prelude::*;
use crate::grid::Grid;
use crate::input::CursorMove;
use crate::navigation::vim::{
    bracket_landing, line_chars, motion_matching_bracket, motion_paragraph, motion_word_back,
    motion_word_end, motion_word_end_back, motion_word_forward, nav_line_end, paragraph_target,
    printed_line, reach, reveal_offset, view_row, word_back, word_end_back, word_end_forward,
    word_forward, Landing,
};
use crate::text::{least, min_of, minus};
use crate::words::{first_non_blank, first_printed, last_non_blank, last_printed};

verus! {

broadcast use {Grid::lemma_bounds, Grid::lemma_scrolled};

/// Whether a motion's origin is worth coming back to: jumps over the view, a
/// paragraph or to a bracket, but no ordinary step.
pub open spec fn is_jump(mv: CursorMove) -> bool {
    match mv {
        CursorMove::Top | CursorMove::Bottom | CursorMove::ScreenTop | CursorMove::ScreenMiddle
        | CursorMove::ScreenBottom | CursorMove::ParagraphBack | CursorMove::ParagraphForward
        | CursorMove::MatchingBracket => true,
        _ => false,
    }
}

/// Whether a motion's origin is worth coming back to.
pub fn pushes_jump(mv: CursorMove) -> (r: bool)
    ensures
        r == is_jump(mv),
{
    match mv {
        CursorMove::Top | CursorMove::Bottom | CursorMove::ScreenTop | CursorMove::ScreenMiddle
        | CursorMove::ScreenBottom | CursorMove::ParagraphBack | CursorMove::ParagraphForward
        | CursorMove::MatchingBracket => true,
        _ => false,
    }
}

/// A landing on the same grid.
pub open spec fn at(grid: Grid, row: int, col: int) -> Landing {
    Landing { grid, row, col }
}

/// Row `row` of the view scrolled onto row `want` of it, as near as there are rows.
pub open spec fn line_to(grid: Grid, row: int, col: int, want: int) -> Landing {
    let abs = grid.top() + row;
    let after = grid.scrolled(minus(want + grid.history(), abs));
    Landing { grid: after, row: view_row(after, abs), col }
}

/// The boundary of a paragraph, at its first column.
pub open spec fn paragraph_landing(grid: Grid, row: int, forward: bool) -> Landing {
    let target = paragraph_target(grid, row, forward);
    let after = grid.scrolled(reveal_offset(grid, target));
    Landing { grid: after, row: view_row(after, target), col: 0 }
}

/// Where a motion takes the cursor from a place in view, before the line it lands
/// on has its say.
pub open spec fn stepped(grid: Grid, row: int, col: int, mv: CursorMove) -> Landing {
    let height = grid.height();
    match mv {
        CursorMove::Left => at(grid, row, minus(col, 1)),
        CursorMove::Right => at(grid, row, col + 1),
        CursorMove::Up => if row > 0 {
            at(grid, row - 1, col)
        } else {
            at(grid.scrolled(grid.offset() + 1), row, col)
        },
        CursorMove::Down => if row < grid.content_end(height) {
            at(grid, row + 1, col)
        } else {
            at(grid.scrolled(minus(grid.offset(), 1)), row, col)
        },
        CursorMove::LineStart => at(grid, row, 0),
        CursorMove::LineEnd => at(grid, row, grid.width()),
        CursorMove::FirstNonBlank => at(grid, row, first_printed(printed_line(grid, row))),
        CursorMove::LastNonBlank => at(grid, row, last_printed(printed_line(grid, row))),
        CursorMove::WordForward => word_forward(grid, row, col, false),
        CursorMove::WordForwardBig => word_forward(grid, row, col, true),
        CursorMove::WordBack => word_back(grid, row, col, false),
        CursorMove::WordBackBig => word_back(grid, row, col, true),
        CursorMove::WordEnd => word_end_forward(grid, row, col, false),
        CursorMove::WordEndBig => word_end_forward(grid, row, col, true),
        CursorMove::WordEndBack => word_end_back(grid, row, col, false),
        CursorMove::WordEndBackBig => word_end_back(grid, row, col, true),
        CursorMove::ParagraphBack => paragraph_landing(grid, row, false),
        CursorMove::ParagraphForward => paragraph_landing(grid, row, true),
        CursorMove::ScreenTop => at(grid, 0, col),
        CursorMove::ScreenMiddle => at(grid, least(height / 2, grid.content_end(height)), col),
        CursorMove::ScreenBottom => at(grid, grid.content_end(height), col),
        CursorMove::MatchingBracket => match bracket_landing(grid, row, col) {
            Some(landing) => landing,
            None => at(grid, row, col),
        },
        CursorMove::LineToTop => line_to(grid, row, col, 0),
        CursorMove::LineToCenter => line_to(grid, row, col, height / 2),
        CursorMove::LineToBottom => line_to(grid, row, col, height - 1),
        CursorMove::Top => at(grid.scrolled(grid.history()), 0, 0),
        CursorMove::Bottom => {
            let live = grid.scrolled(0);
            at(live, live.content_end(height), col)
        },
        CursorMove::PageUp => at(grid.scrolled(grid.offset() + height), 0, col),
        CursorMove::PageDown => at(grid.scrolled(minus(grid.offset(), height)), height - 1, col),
        CursorMove::HalfPageUp => at(grid.scrolled(grid.offset() + height / 2), row, col),
        CursorMove::HalfPageDown => at(grid.scrolled(minus(grid.offset(), height / 2)), row, col),
    }
}

/// A landing where the text allows it: not below the last printed row of the live
/// screen, and not past the end of the line.
pub open spec fn settled(l: Landing) -> Landing {
    let row = if l.grid.offset() == 0 {
        least(l.row, l.grid.content_end(l.grid.height()))
    } else {
        l.row
    };
    Landing { grid: l.grid, row, col: least(l.col, reach(l.grid, row)) }
}

/// Where a motion takes the cursor from `from`, brought into view.
pub open spec fn moved(grid: Grid, from: (int, int), mv: CursorMove) -> Landing {
    settled(
        stepped(grid, least(from.0, grid.height() - 1), least(from.1, grid.width() - 1), mv),
    )
}

fn scroll_line_to(grid: &mut Grid, row: usize, want: usize) -> (r: usize)
    requires
        old(grid).wf(),
        row < old(grid).height(),
        want < old(grid).height(),
    ensures
        final(grid).wf(),
        forall|col: int|
            #[trigger] line_to(*old(grid), row as int, col, want as int) == (Landing {
                grid: *final(grid),
                row: r as int,
                col,
            }),
        r < final(grid).height(),
{
    let abs: usize = grid.to_absolute_row(row);
    let history: usize = grid.scrollback_len();
    let rows: usize = grid.rows();
    grid.set_scroll_offset((want + history).saturating_sub(abs));
    let top: usize = grid.scrollback_len() - grid.scroll_offset();
    min_of(abs.saturating_sub(top), rows - 1)
}

/// Take a motion from a place in view, before the line it lands on has its say.
fn step(grid: &mut Grid, row: usize, col: usize, mv: CursorMove) -> (r: (usize, usize))
    requires
        old(grid).wf(),
        row < old(grid).height(),
        col < old(grid).width(),
    ensures
        final(grid).wf(),
        r.0 < final(grid).height(),
        (Landing { grid: *final(grid), row: r.0 as int, col: r.1 as int }) == stepped(
            *old(grid),
            row as int,
            col as int,
            mv,
        ),
{
    let rows: usize = grid.rows();
    match mv {
        CursorMove::Left => (row, col.saturating_sub(1)),
        CursorMove::Right => (row, col + 1),
        CursorMove::Up => {
            if row > 0 {
                (row - 1, col)
            } else {
                grid.scroll_up_history(1);
                (row, col)
            }
        },
        CursorMove::Down => {
            if row < grid.last_content_row() {
                (row + 1, col)
            } else {
                grid.scroll_down_history(1);
                (row, col)
            }
        },
        CursorMove::LineStart => (row, 0),
        CursorMove::LineEnd => (row, grid.cols()),
        CursorMove::FirstNonBlank => (row, first_non_blank(&line_chars(grid, row))),
        CursorMove::LastNonBlank => (row, last_non_blank(&line_chars(grid, row))),
        CursorMove::WordForward => motion_word_forward(grid, row, col, false),
        CursorMove::WordForwardBig => motion_word_forward(grid, row, col, true),
        CursorMove::WordBack => motion_word_back(grid, row, col, false),
        CursorMove::WordBackBig => motion_word_back(grid, row, col, true),
        CursorMove::WordEnd => motion_word_end(grid, row, col, false),
        CursorMove::WordEndBig => motion_word_end(grid, row, col, true),
        CursorMove::WordEndBack => motion_word_end_back(grid, row, col, false),
        CursorMove::WordEndBackBig => motion_word_end_back(grid, row, col, true),
        CursorMove::ParagraphBack => (motion_paragraph(grid, row, false), 0),
        CursorMove::ParagraphForward => (motion_paragraph(grid, row, true), 0),
        CursorMove::ScreenTop => (0, col),
        CursorMove::ScreenMiddle => (min_of(rows / 2, grid.last_content_row()), col),
        CursorMove::ScreenBottom => (grid.last_content_row(), col),
        CursorMove::MatchingBracket => {
            match motion_matching_bracket(grid, row, col) {
                Some(to) => to,
                None => (row, col),
            }
        },
        CursorMove::LineToTop => (scroll_line_to(grid, row, 0), col),
        CursorMove::LineToCenter => (scroll_line_to(grid, row, rows / 2), col),
        CursorMove::LineToBottom => (scroll_line_to(grid, row, rows - 1), col),
        CursorMove::Top => {
            let all: usize = grid.scrollback_len();
            grid.set_scroll_offset(all);
            (0, 0)
        },
        CursorMove::Bottom => {
            grid.set_scroll_offset(0);
            (grid.last_content_row(), col)
        },
        CursorMove::PageUp => {
            grid.scroll_up_history(rows);
            (0, col)
        },
        CursorMove::PageDown => {
            grid.scroll_down_history(rows);
            (rows - 1, col)
        },
        CursorMove::HalfPageUp => {
            grid.scroll_up_history(rows / 2);
            (row, col)
        },
        CursorMove::HalfPageDown => {
            grid.scroll_down_history(rows / 2);
            (row, col)
        },
    }
}

/// Move the cursor from `from`. A step past an edge of the view scrolls, so that the
/// cursor reaches the whole buffer.
pub fn step_cursor(grid: &mut Grid, from: (usize, usize), mv: CursorMove) -> (r: (usize, usize))
    requires
        old(grid).wf(),
    ensures
        final(grid).wf(),
        r.0 < final(grid).height(),
        (Landing { grid: *final(grid), row: r.0 as int, col: r.1 as int }) == moved(
            *old(grid),
            (from.0 as int, from.1 as int),
            mv,
        ),
{
    let row: usize = min_of(from.0, grid.rows() - 1);
    let col: usize = min_of(from.1, grid.cols() - 1);
    let (to_row, to_col) = step(grid, row, col, mv);
    let row: usize = if grid.scroll_offset() == 0 {
        min_of(to_row, grid.last_content_row())
    } else {
        to_row
    };
    (row, min_of(to_col, nav_line_end(grid, row)))
}

proof fn lemma_content_end(grid: Grid, n: int)
    requires
        1 <= n,
    ensures
        0 <= grid.content_end(n) < n,
    decreases n,
{
    if n > 1 && !grid.has_content(n - 1) {
        lemma_content_end(grid, n - 1);
    }
}

/// Half a page up and half a page down scroll and leave the cursor on its row of the view.
/// Only at the live bottom does a row that is below the last one that holds something give
/// way to that one.
pub proof fn law_half_pages_keep_the_row(grid: Grid, row: int, col: int, mv: CursorMove)
    requires
        grid.wf(),
        0 <= row < grid.height(),
        0 <= col < grid.width(),
        mv == CursorMove::HalfPageUp || mv == CursorMove::HalfPageDown,
    ensures
        ({
            let after = moved(grid, (row, col), mv);
            let last = after.grid.content_end(after.grid.height());
            &&& after.grid.offset() > 0 || row <= last ==> after.row == row
            &&& after.grid.offset() == 0 && row > last ==> after.row == last
            &&& mv == CursorMove::HalfPageUp ==> after.grid == grid.scrolled(
                grid.offset() + grid.height() / 2,
            )
            &&& mv == CursorMove::HalfPageDown ==> after.grid == grid.scrolled(
                minus(grid.offset(), grid.height() / 2),
            )
        }),
{
}

/// The cursor never leaves the printed text of its line, and at the live bottom never
/// goes below the last row that holds something.
pub proof fn law_the_cursor_stays_on_the_text(l: Landing)
    requires
        l.grid.wf(),
        0 <= l.row < l.grid.height(),
        0 <= l.col,
    ensures
        settled(l).col <= reach(l.grid, settled(l).row),
        0 <= settled(l).row < l.grid.height(),
        l.grid.offset() == 0 ==> settled(l).row <= l.grid.content_end(l.grid.height()),
        settled(settled(l)) == settled(l),
{
    lemma_content_end(l.grid, l.grid.height());
}

/// A step up and a step down again at the top edge of a view that can scroll come
/// back to the same view.
pub proof fn law_scrolling_up_and_down_returns(grid: Grid, lines: int)
    requires
        grid.wf(),
        0 <= lines,
        grid.offset() + lines <= grid.history(),
    ensures
        ({
            let up = grid.scrolled(grid.offset() + lines);
            up.scrolled(minus(up.offset(), lines)) == grid
        }),
{
    grid.lemma_scrolled_twice(grid.offset() + lines, grid.offset());
}

} // verus!
