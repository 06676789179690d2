//! What the keys of a page's text cursor and of a question do.

use vstd::prelude::*;
use crate::grid::Grid;
use crate::input::{Key, KeyCode};
use crate::pages::{
    cursor_step, prompt_step, run_start, run_stop, white_at, word_away, CursorStep, PageCursor,
    PromptMode, PromptStep, PromptView,
};

verus! {

broadcast use {Grid::lemma_bounds, Grid::lemma_scrolled};

/// Whether a word starts at column `col`: something is shown there, and nothing before it.
pub open spec fn word_starts(grid: Grid, row: int, col: int) -> bool {
    !white_at(grid, row, col) && (col == 0 || white_at(grid, row, col - 1))
}

proof fn lemma_run_stop(grid: Grid, row: int, col: int, last: int, white: bool)
    requires
        col <= last,
    ensures
        col <= run_stop(grid, row, col, last, white) <= last,
        forall|k: int|
            col <= k < run_stop(grid, row, col, last, white) ==> #[trigger] white_at(grid, row, k)
                != white,
        run_stop(grid, row, col, last, white) < last ==> white_at(
            grid,
            row,
            run_stop(grid, row, col, last, white),
        ) == white,
    decreases last - col,
{
    if col < last && white_at(grid, row, col) != white {
        lemma_run_stop(grid, row, col + 1, last, white);
    }
}

proof fn lemma_run_start(grid: Grid, row: int, col: int, white: bool)
    requires
        0 <= col,
    ensures
        0 <= run_start(grid, row, col, white) <= col,
        forall|k: int|
            run_start(grid, row, col, white) <= k < col ==> #[trigger] white_at(grid, row, k)
                != white,
        run_start(grid, row, col, white) > 0 ==> white_at(
            grid,
            row,
            run_start(grid, row, col, white) - 1,
        ) == white,
    decreases col,
{
    if col > 0 && white_at(grid, row, col - 1) != white {
        lemma_run_start(grid, row, col - 1, white);
    }
}

/// On a page, a word forward is the nearest start of a word to the right, or the last column; a
/// word back is the nearest to the left, or the first.
pub proof fn law_words_of_a_page(grid: Grid, row: int, col: int, last: int)
    requires
        0 <= col <= last,
    ensures
        ({
            let on = word_away(grid, row, col, last, true);
            let back = word_away(grid, row, col, last, false);
            &&& col <= on <= last
            &&& on < last ==> col < on && word_starts(grid, row, on)
            &&& forall|k: int| col < k < on ==> !(#[trigger] word_starts(grid, row, k))
            &&& 0 <= back <= col
            &&& back > 0 ==> back < col && word_starts(grid, row, back)
            &&& forall|k: int| back < k < col ==> !(#[trigger] word_starts(grid, row, k))
        }),
{
    let mid = run_stop(grid, row, col, last, true);
    lemma_run_stop(grid, row, col, last, true);
    lemma_run_stop(grid, row, mid, last, false);
    let on = word_away(grid, row, col, last, true);
    assert forall|k: int| col < k < on implies !(#[trigger] word_starts(grid, row, k)) by {
        if k < mid {
            assert(!white_at(grid, row, k - 1));
        } else {
            assert(white_at(grid, row, k));
        }
    }
    if on < last {
        if on == mid {
            assert(white_at(grid, row, mid) == true);
        }
        assert(white_at(grid, row, on - 1));
    }
    let from = run_start(grid, row, col, false);
    lemma_run_start(grid, row, col, false);
    lemma_run_start(grid, row, from, true);
    let back = word_away(grid, row, col, last, false);
    assert forall|k: int| back < k < col implies !(#[trigger] word_starts(grid, row, k)) by {
        if k >= from {
            assert(white_at(grid, row, k));
        } else {
            assert(!white_at(grid, row, k - 1));
        }
    }
    if back > 0 {
        if back == from {
            assert(!white_at(grid, row, from - 1));
        }
        assert(!white_at(grid, row, back));
    }
}

/// On a page, `h`, `j`, `k` and `l` go one cell left, down, up and right within the screen, as
/// the arrow keys do; `0` and `$` go to the first and the last column, as Home and End do, and
/// `g` and `G` to the first and the last row. A selection stays anchored.
pub proof fn law_keys_of_a_page(cursor: PageCursor, grid: Grid)
    requires
        grid.wf(),
        cursor.row < grid.height(),
        cursor.col < grid.width(),
    ensures
        ({
            let (h, j, k, l) = (
                cursor_step(cursor, KeyCode::Char('h'), grid),
                cursor_step(cursor, KeyCode::Char('j'), grid),
                cursor_step(cursor, KeyCode::Char('k'), grid),
                cursor_step(cursor, KeyCode::Char('l'), grid),
            );
            let (zero, dollar) = (
                cursor_step(cursor, KeyCode::Char('0'), grid),
                cursor_step(cursor, KeyCode::Char('$'), grid),
            );
            let (g, big_g) = (
                cursor_step(cursor, KeyCode::Char('g'), grid),
                cursor_step(cursor, KeyCode::Char('G'), grid),
            );
            &&& h == cursor_step(cursor, KeyCode::Left, grid)
            &&& j == cursor_step(cursor, KeyCode::Down, grid)
            &&& k == cursor_step(cursor, KeyCode::Up, grid)
            &&& l == cursor_step(cursor, KeyCode::Right, grid)
            &&& zero == cursor_step(cursor, KeyCode::Home, grid)
            &&& dollar == cursor_step(cursor, KeyCode::End, grid)
            &&& h matches CursorStep::Moved(to) && to.row == cursor.row && to.col == (
            if cursor.col > 0 {
                cursor.col - 1
            } else {
                0
            }) && to.anchor == cursor.anchor
            &&& l matches CursorStep::Moved(to) && to.row == cursor.row && to.col == (
            if cursor.col + 1 < grid.width() {
                cursor.col + 1
            } else {
                cursor.col as int
            }) && to.anchor == cursor.anchor
            &&& j matches CursorStep::Moved(to) && to.col == cursor.col && to.row == (
            if cursor.row + 1 < grid.height() {
                cursor.row + 1
            } else {
                cursor.row as int
            }) && to.anchor == cursor.anchor
            &&& k matches CursorStep::Moved(to) && to.col == cursor.col && to.row == (
            if cursor.row > 0 {
                cursor.row - 1
            } else {
                0
            }) && to.anchor == cursor.anchor
            &&& zero matches CursorStep::Moved(to) && to.row == cursor.row && to.col == 0
            &&& dollar matches CursorStep::Moved(to) && to.row == cursor.row && to.col
                == grid.width() - 1
            &&& g matches CursorStep::Moved(to) && to.col == cursor.col && to.row == 0
            &&& big_g matches CursorStep::Moved(to) && to.col == cursor.col && to.row
                == grid.height() - 1
            &&& cursor_step(cursor, KeyCode::Escape, grid) is Left
            &&& cursor_step(cursor, KeyCode::Enter, grid) is Copied
            &&& cursor_step(cursor, KeyCode::Char('y'), grid) is Copied
        }),
{
}

/// A question that takes a line holds what is typed: a character is put after the rest,
/// Backspace takes the last one back, Enter answers with the line and Escape puts the question
/// off.
pub proof fn law_a_question_takes_a_line(prompt: PromptView, key: Key)
    requires
        prompt.mode == PromptMode::Text,
    ensures
        ({
            let step = prompt_step(prompt, key);
            let text = prompt.input;
            match key.code {
                KeyCode::Escape => step == PromptStep::Answered(None),
                KeyCode::Enter => step == PromptStep::Answered(Some(text)),
                KeyCode::Backspace => step matches PromptStep::Waiting(now) && (if text.len()
                    == 0 {
                    now.len() == 0
                } else {
                    now == text.take(text.len() - 1)
                }),
                KeyCode::Char(c) => step matches PromptStep::Waiting(now) && (if key.ctrl
                    || key.alt {
                    now == text
                } else {
                    now.len() == text.len() + 1 && now.take(text.len() as int) == text
                        && now.last() == c
                }),
                _ => step == PromptStep::Waiting(text),
            }
        }),
{
    if let KeyCode::Char(c) = key.code {
        assert(prompt.input.push(c).take(prompt.input.len() as int) =~= prompt.input);
    }
    if prompt.input.len() > 0 {
        assert(prompt.input.drop_last() =~= prompt.input.take(prompt.input.len() - 1));
    }
}

} // verus!
