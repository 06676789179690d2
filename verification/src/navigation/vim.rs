//! Vim's motions over a grid: reading rows, stepping between them, and bringing
//! what lies off screen into view.

use vstd::prelude::*;
use crate::grid::{blank_char, is_blank, shown_char, Grid};
use crate::input::{FindChar, TextObject};
use crate::objects::{
    self, bracket_object, bracket_pair, encloses, is_position, joined, next_bracket, partners,
    quote_object, quote_pair, row_start, sentence_object, sentence_range, word_object, word_range,
    RowText, Span,
};
use crate::text::{clamped, greatest, is_white, least, max_of, min_of, minus};
use crate::words::{
    end_after, end_before, first_non_blank, first_printed, last_non_blank, last_printed,
    next_word_start, prev_word_end, prev_word_start, word_after, word_before, word_end,
};

verus! {

broadcast use {Grid::lemma_bounds, Grid::lemma_scrolled};

// ------------------------------------------------------------------------
// Reading rows
// ------------------------------------------------------------------------

/// What absolute row `row` shows, however the view is scrolled.
pub fn absolute_row_chars(grid: &Grid, row: usize) -> (r: Vec<char>)
    requires
        grid.wf(),
    ensures
        r@ == grid.row_text(row as int),
{
    let mut chars: Vec<char> = Vec::new();
    let cols: usize = grid.cols();
    let mut col: usize = 0;
    while col < cols
        invariant
            grid.wf(),
            cols == grid.width(),
            col <= cols,
            chars@ == grid.row_text(row as int).take(col as int),
        decreases cols - col,
    {
        let ch: char = match grid.absolute_cell(row, col) {
            Some(cell) => shown_char(cell.ch),
            None => ' ',
        };
        chars.push(ch);
        assert(chars@ =~= grid.row_text(row as int).take(col + 1));
        col = col + 1;
    }
    assert(grid.row_text(row as int).take(cols as int) =~= grid.row_text(row as int));
    chars
}

/// Whether absolute row `row` shows nothing, however the view is scrolled.
pub fn absolute_row_is_blank(grid: &Grid, row: usize) -> (r: bool)
    requires
        grid.wf(),
    ensures
        r == grid.row_is_blank(row as int),
{
    grid.row_blank(row)
}

/// What the grid's rows show, oldest first.
pub open spec fn grid_text(grid: Grid) -> Seq<Seq<char>> {
    Seq::new(grid.total() as nat, |row: int| grid.row_text(row))
}

/// The grid's rows, oldest first, as the text brackets and paragraphs are looked
/// for in.
pub fn grid_rows(grid: &Grid) -> (t: RowText)
    requires
        grid.wf(),
    ensures
        t.wf(),
        t@ == grid_text(*grid),
{
    let total: usize = grid.scrollback_len() + grid.rows();
    let mut t = RowText::new();
    let mut row: usize = 0;
    while row < total
        invariant
            grid.wf(),
            total == grid.total(),
            row <= total,
            t.wf(),
            t@ == grid_text(*grid).take(row as int),
        decreases total - row,
    {
        let chars = absolute_row_chars(grid, row);
        t.push_row(&chars);
        assert(t@ =~= grid_text(*grid).take(row + 1));
        row = row + 1;
    }
    assert(grid_text(*grid).take(total as int) =~= grid_text(*grid));
    t
}

/// The printed characters of absolute row `row`, without the blanks past its end;
/// nothing for a blank row.
pub open spec fn printed_row(grid: Grid, row: int) -> Seq<char> {
    let line = grid.row_text(row).take(grid.text_end(row, grid.width()) + 1);
    if line.len() == 1 && is_blank(line[0]) {
        Seq::empty()
    } else {
        line
    }
}

/// The printed characters of row `row` of the view.
pub open spec fn printed_line(grid: Grid, row: int) -> Seq<char> {
    printed_row(grid, grid.top() + row)
}

proof fn lemma_line_end(grid: Grid, row: int, n: int)
    requires
        1 <= n,
    ensures
        0 <= grid.text_end(row, n) < n,
    decreases n,
{
    if n > 1 && is_blank(grid.cell_at(row, n - 1).ch) {
        lemma_line_end(grid, row, n - 1);
    }
}

/// The printed characters of absolute row `row`.
pub fn printed_row_chars(grid: &Grid, row: usize) -> (r: Vec<char>)
    requires
        grid.wf(),
        row < grid.total(),
    ensures
        r@ == printed_row(*grid, row as int),
        r@.len() <= grid.width(),
{
    let all = absolute_row_chars(grid, row);
    let mut n: usize = grid.cols();
    while n > 1 && blank_char(all[n - 1])
        invariant
            1 <= n <= grid.width(),
            row < grid.total(),
            all@ == grid.row_text(row as int),
            grid.text_end(row as int, grid.width()) == grid.text_end(row as int, n as int),
        decreases n,
    {
        assert(is_blank(grid.cell_at(row as int, n - 1).ch));
        n = n - 1;
    }
    let chars = crate::text::chars_range(&all, 0, n);
    assert(n == grid.text_end(row as int, grid.width()) + 1);
    assert(chars@ =~= grid.row_text(row as int).take(n as int));
    if chars.len() == 1 && blank_char(chars[0]) {
        return Vec::new();
    }
    chars
}

/// The printed characters of row `row` of the view, so that motions see where the
/// line ends.
pub fn line_chars(grid: &Grid, row: usize) -> (r: Vec<char>)
    requires
        grid.wf(),
        row < grid.height(),
    ensures
        r@ == printed_line(*grid, row as int),
        r@.len() <= grid.width(),
{
    printed_row_chars(grid, grid.to_absolute_row(row))
}

/// The rightmost column the cursor may take on row `row` of the view: the last
/// printed character, and on the live cursor's own row as far as that cursor.
pub open spec fn reach(grid: Grid, row: int) -> int {
    if grid.offset() == 0 && row == grid.cursor_at().0 {
        greatest(grid.line_end(row), least(grid.cursor_at().1 as int, grid.width() - 1))
    } else {
        grid.line_end(row)
    }
}

/// The rightmost column the Normal-mode cursor may take on row `row` of the view.
/// A blank typed at the prompt looks like the padding past a line's end, so the
/// prompt's row reaches as far as the shell's cursor.
pub fn nav_line_end(grid: &Grid, row: usize) -> (r: usize)
    requires
        grid.wf(),
        row < grid.height(),
    ensures
        r == reach(*grid, row as int),
        r < grid.width(),
{
    let end: usize = grid.visible_line_end(row);
    let (cursor_row, cursor_col): (usize, usize) = grid.cursor();
    if grid.scroll_offset() == 0 && row == cursor_row {
        max_of(end, min_of(cursor_col, grid.cols() - 1))
    } else {
        end
    }
}

// ------------------------------------------------------------------------
// Bringing rows into view
// ------------------------------------------------------------------------

/// How far the view is scrolled to show absolute row `target` with the least
/// scrolling: a row above lands at the top, one below at the bottom.
pub open spec fn reveal_offset(grid: Grid, target: int) -> int {
    if target < grid.top() {
        grid.history() - target
    } else if target >= grid.top() + grid.height() {
        minus(grid.height() - 1 + grid.history(), target)
    } else {
        grid.offset()
    }
}

/// The row of the view that shows absolute row `target`, or the nearest.
pub open spec fn view_row(grid: Grid, target: int) -> int {
    clamped(target - grid.top(), 0, grid.height() - 1)
}

/// Scroll just far enough to show absolute row `target`, and return the row of the
/// view it is then on.
pub fn reveal_absolute_row(grid: &mut Grid, target: usize) -> (r: usize)
    requires
        old(grid).wf(),
    ensures
        final(grid).wf(),
        *final(grid) == old(grid).scrolled(reveal_offset(*old(grid), target as int)),
        r == view_row(*final(grid), target as int),
        r < final(grid).height(),
{
    let scrollback: usize = grid.scrollback_len();
    let rows: usize = grid.rows();
    let top: usize = scrollback - grid.scroll_offset();
    if target < top {
        grid.set_scroll_offset(scrollback - target);
    } else if target - top >= rows {
        grid.set_scroll_offset((rows - 1 + scrollback).saturating_sub(target));
    }
    let new_top: usize = grid.scrollback_len() - grid.scroll_offset();
    min_of(target.saturating_sub(new_top), rows - 1)
}

/// Whatever row of the buffer is asked for, it ends up on the row of the view that
/// is returned.
pub proof fn law_reveal_shows_the_target(grid: Grid, target: int)
    requires
        grid.wf(),
        0 <= target < grid.total(),
    ensures
        ({
            let after = grid.scrolled(reveal_offset(grid, target));
            after.top() + view_row(after, target) == target
        }),
{
    let after = grid.scrolled(reveal_offset(grid, target));
    assert(after.offset() == least(reveal_offset(grid, target), grid.history()));
}

/// A row that is already on screen is not scrolled for.
pub proof fn law_reveal_leaves_a_visible_row_alone(grid: Grid, target: int)
    requires
        grid.wf(),
        grid.top() <= target < grid.top() + grid.height(),
    ensures
        grid.scrolled(reveal_offset(grid, target)) == grid,
{
}

// ------------------------------------------------------------------------
// Paragraphs
// ------------------------------------------------------------------------

/// Row `row` is blank and the one before it is not.
pub open spec fn closes_paragraph(grid: Grid, row: int) -> bool {
    grid.row_is_blank(row) && !grid.row_is_blank(row - 1)
}

/// Row `row` is blank and the one after it is not.
pub open spec fn opens_paragraph(grid: Grid, row: int) -> bool {
    grid.row_is_blank(row) && !grid.row_is_blank(row + 1)
}

/// The first row from `row` on that closes a paragraph, or the last row.
pub open spec fn paragraph_after(grid: Grid, row: int) -> int
    decreases grid.total() - row,
{
    if row >= grid.total() {
        grid.total() - 1
    } else if closes_paragraph(grid, row) {
        row
    } else {
        paragraph_after(grid, row + 1)
    }
}

/// The last row below `row` that opens a paragraph, or the first row.
pub open spec fn paragraph_before(grid: Grid, row: int) -> int
    decreases row,
{
    if row <= 0 {
        0
    } else if opens_paragraph(grid, row - 1) {
        row - 1
    } else {
        paragraph_before(grid, row - 1)
    }
}

/// Where `}` or `{` goes from row `row` of the view, as an absolute row.
pub open spec fn paragraph_target(grid: Grid, row: int, forward: bool) -> int {
    if forward {
        paragraph_after(grid, grid.top() + row + 1)
    } else {
        paragraph_before(grid, grid.top() + row)
    }
}

/// `{` and `}`: the nearest paragraph boundary in the given direction, over the
/// whole buffer, scrolled into view. Without one it goes as far as it can.
pub fn motion_paragraph(grid: &mut Grid, row: usize, forward: bool) -> (r: usize)
    requires
        old(grid).wf(),
        row < old(grid).height(),
    ensures
        final(grid).wf(),
        *final(grid) == old(grid).scrolled(
            reveal_offset(*old(grid), paragraph_target(*old(grid), row as int, forward)),
        ),
        r == view_row(*final(grid), paragraph_target(*old(grid), row as int, forward)),
        r < final(grid).height(),
{
    let total: usize = grid.scrollback_len() + grid.rows();
    let abs: usize = grid.to_absolute_row(row);
    let mut target: usize;
    if forward {
        target = abs + 1;
        while target < total && !(absolute_row_is_blank(grid, target) && !absolute_row_is_blank(
            grid,
            target - 1,
        ))
            invariant
                grid.wf(),
                total == grid.total(),
                1 <= target <= total,
                paragraph_after(*grid, abs + 1) == paragraph_after(*grid, target as int),
            decreases total - target,
        {
            target = target + 1;
        }
        if target >= total {
            target = total - 1;
        }
    } else {
        let mut above: usize = abs;
        while above > 0 && !(absolute_row_is_blank(grid, above - 1) && !absolute_row_is_blank(
            grid,
            above,
        ))
            invariant
                grid.wf(),
                above <= abs < grid.total(),
                paragraph_before(*grid, abs as int) == paragraph_before(*grid, above as int),
            decreases above,
        {
            above = above - 1;
        }
        target = if above > 0 { above - 1 } else { 0 };
    }
    reveal_absolute_row(grid, target)
}

// ------------------------------------------------------------------------
// Words across lines
// ------------------------------------------------------------------------

/// The grid after stepping one row down from row `row` of the view: at the bottom
/// edge the view scrolls.
pub open spec fn grid_below(grid: Grid, row: int) -> Grid {
    if row + 1 < grid.height() {
        grid
    } else {
        grid.scrolled(minus(grid.offset(), 1))
    }
}

/// The row one step down.
pub open spec fn row_below(grid: Grid, row: int) -> int {
    if row + 1 < grid.height() {
        row + 1
    } else {
        row
    }
}

/// The grid after stepping one row up from row `row` of the view: at the top edge
/// the view scrolls.
pub open spec fn grid_above(grid: Grid, row: int) -> Grid {
    if row > 0 {
        grid
    } else {
        grid.scrolled(grid.offset() + 1)
    }
}

/// Step one row down, scrolling at the bottom edge.
pub fn next_row(grid: &mut Grid, row: usize) -> (r: usize)
    requires
        old(grid).wf(),
        row < old(grid).height(),
    ensures
        final(grid).wf(),
        *final(grid) == grid_below(*old(grid), row as int),
        r == row_below(*old(grid), row as int),
{
    if row + 1 < grid.rows() {
        row + 1
    } else {
        grid.scroll_down_history(1);
        row
    }
}

/// Step one row up, scrolling at the top edge.
pub fn prev_row(grid: &mut Grid, row: usize) -> (r: usize)
    requires
        old(grid).wf(),
        row < old(grid).height(),
    ensures
        final(grid).wf(),
        *final(grid) == grid_above(*old(grid), row as int),
        r == minus(row as int, 1),
{
    if row > 0 {
        row - 1
    } else {
        grid.scroll_up_history(1);
        row
    }
}

/// `Some` of an option, or a default.
pub open spec fn or_else(x: Option<int>, default: int) -> int {
    match x {
        Some(v) => v,
        None => default,
    }
}

/// Where a motion leaves things: the grid, which may have scrolled, and the
/// cursor.
pub struct Landing {
    pub grid: Grid,
    pub row: int,
    pub col: int,
}

/// `w`, `W`: the next word on the line, or the first of the next line.
pub open spec fn word_forward(grid: Grid, row: int, col: int, big: bool) -> Landing {
    match word_after(printed_line(grid, row), col, big) {
        Some(c) => Landing { grid, row, col: c },
        None => {
            let below = grid_below(grid, row);
            let next = row_below(grid, row);
            Landing { grid: below, row: next, col: first_printed(printed_line(below, next)) }
        },
    }
}

/// `b`, `B`: the word before on the line, or the last of the line above.
pub open spec fn word_back(grid: Grid, row: int, col: int, big: bool) -> Landing {
    match word_before(printed_line(grid, row), col, big) {
        Some(c) => Landing { grid, row, col: c },
        None => {
            let above = grid_above(grid, row);
            let line = printed_line(above, minus(row, 1));
            Landing {
                grid: above,
                row: minus(row, 1),
                col: or_else(word_before(line, line.len() as int, big), 0),
            }
        },
    }
}

/// `e`, `E`: the next end of a word on the line, or the first of the next line.
pub open spec fn word_end_forward(grid: Grid, row: int, col: int, big: bool) -> Landing {
    match end_after(printed_line(grid, row), col, big) {
        Some(c) => Landing { grid, row, col: c },
        None => {
            let below = grid_below(grid, row);
            let next = row_below(grid, row);
            Landing {
                grid: below,
                row: next,
                col: or_else(end_after(printed_line(below, next), 0, big), 0),
            }
        },
    }
}

/// `ge`, `gE`: the previous end of a word on the line, or the end of the line
/// above.
pub open spec fn word_end_back(grid: Grid, row: int, col: int, big: bool) -> Landing {
    match end_before(printed_line(grid, row), col, big) {
        Some(c) => Landing { grid, row, col: c },
        None => {
            let above = grid_above(grid, row);
            Landing {
                grid: above,
                row: minus(row, 1),
                col: last_printed(printed_line(above, minus(row, 1))),
            }
        },
    }
}

/// `w`, `W`.
pub fn motion_word_forward(grid: &mut Grid, row: usize, col: usize, big: bool) -> (r: (
    usize,
    usize,
))
    requires
        old(grid).wf(),
        row < old(grid).height(),
    ensures
        final(grid).wf(),
        (Landing { grid: *final(grid), row: r.0 as int, col: r.1 as int }) == word_forward(
            *old(grid),
            row as int,
            col as int,
            big,
        ),
        r.0 < final(grid).height(),
{
    match next_word_start(&line_chars(grid, row), col, big) {
        Some(c) => (row, c),
        None => {
            let next: usize = next_row(grid, row);
            (next, first_non_blank(&line_chars(grid, next)))
        },
    }
}

/// `b`, `B`.
pub fn motion_word_back(grid: &mut Grid, row: usize, col: usize, big: bool) -> (r: (usize, usize))
    requires
        old(grid).wf(),
        row < old(grid).height(),
    ensures
        final(grid).wf(),
        (Landing { grid: *final(grid), row: r.0 as int, col: r.1 as int }) == word_back(
            *old(grid),
            row as int,
            col as int,
            big,
        ),
        r.0 < final(grid).height(),
{
    match prev_word_start(&line_chars(grid, row), col, big) {
        Some(c) => (row, c),
        None => {
            let above: usize = prev_row(grid, row);
            let line = line_chars(grid, above);
            match prev_word_start(&line, line.len(), big) {
                Some(c) => (above, c),
                None => (above, 0),
            }
        },
    }
}

/// `e`, `E`.
pub fn motion_word_end(grid: &mut Grid, row: usize, col: usize, big: bool) -> (r: (usize, usize))
    requires
        old(grid).wf(),
        row < old(grid).height(),
    ensures
        final(grid).wf(),
        (Landing { grid: *final(grid), row: r.0 as int, col: r.1 as int }) == word_end_forward(
            *old(grid),
            row as int,
            col as int,
            big,
        ),
        r.0 < final(grid).height(),
{
    match word_end(&line_chars(grid, row), col, big) {
        Some(c) => (row, c),
        None => {
            let next: usize = next_row(grid, row);
            match word_end(&line_chars(grid, next), 0, big) {
                Some(c) => (next, c),
                None => (next, 0),
            }
        },
    }
}

/// `ge`, `gE`.
pub fn motion_word_end_back(grid: &mut Grid, row: usize, col: usize, big: bool) -> (r: (
    usize,
    usize,
))
    requires
        old(grid).wf(),
        row < old(grid).height(),
    ensures
        final(grid).wf(),
        (Landing { grid: *final(grid), row: r.0 as int, col: r.1 as int }) == word_end_back(
            *old(grid),
            row as int,
            col as int,
            big,
        ),
        r.0 < final(grid).height(),
{
    match prev_word_end(&line_chars(grid, row), col, big) {
        Some(c) => (row, c),
        None => {
            let above: usize = prev_row(grid, row);
            (above, last_non_blank(&line_chars(grid, above)))
        },
    }
}

// ------------------------------------------------------------------------
// Brackets
// ------------------------------------------------------------------------

/// The index, in the buffer's text, of the bracket `%` starts from: the first at
/// or right of `col` on absolute row `row`.
pub open spec fn bracket_index(grid: Grid, row: int, col: int) -> int {
    row_start(grid_text(grid), row) + next_bracket(grid_text(grid)[row], col)
}

/// Absolute position `to` holds the partner of the bracket `%` starts from.
pub open spec fn bracket_target(grid: Grid, row: int, col: int, to: (int, int)) -> bool {
    let rows = grid_text(grid);
    &&& next_bracket(rows[row], col) < rows[row].len()
    &&& 0 <= to.0 < grid.total()
    &&& 0 <= to.1 < grid.width()
    &&& bracket_pair(joined(rows), bracket_index(grid, row, col), row_start(rows, to.0) + to.1)
}

/// The absolute position of the partner of the bracket `%` starts from.
pub open spec fn bracket_partner(grid: Grid, row: int, col: int) -> Option<(int, int)> {
    if exists|to: (int, int)| #[trigger] bracket_target(grid, row, col, to) {
        Some(choose|to: (int, int)| #[trigger] bracket_target(grid, row, col, to))
    } else {
        None
    }
}

/// A bracket has one partner, so there is one place `%` goes.
proof fn lemma_bracket_partner(grid: Grid, row: int, col: int, to: (int, int))
    requires
        bracket_target(grid, row, col, to),
    ensures
        bracket_partner(grid, row, col) == Some(to),
{
    let other = choose|to: (int, int)| #[trigger] bracket_target(grid, row, col, to);
    let rows = grid_text(grid);
    objects::law_one_partner(
        joined(rows),
        bracket_index(grid, row, col),
        row_start(rows, to.0) + to.1,
        row_start(rows, other.0) + other.1,
    );
    objects::lemma_one_position(rows, to, other);
}

/// Where `%` goes: to the partner, scrolled into view.
pub open spec fn bracket_landing(grid: Grid, row: int, col: int) -> Option<Landing> {
    match bracket_partner(grid, grid.top() + row, col) {
        Some(to) => {
            let after = grid.scrolled(reveal_offset(grid, to.0));
            Some(Landing { grid: after, row: view_row(after, to.0), col: to.1 })
        },
        None => None,
    }
}

/// `%`: the partner of the bracket at or right of the cursor, over the whole
/// buffer, scrolled into view. `None`, and nothing scrolled, when the row holds no
/// bracket from `col` on or the partner is missing.
pub fn motion_matching_bracket(grid: &mut Grid, row: usize, col: usize) -> (r: Option<
    (usize, usize),
>)
    requires
        old(grid).wf(),
        row < old(grid).height(),
    ensures
        final(grid).wf(),
        match r {
            Some((r1, c1)) => {
                &&& bracket_landing(*old(grid), row as int, col as int) == Some(
                    Landing { grid: *final(grid), row: r1 as int, col: c1 as int },
                )
                &&& r1 < final(grid).height()
                &&& c1 < final(grid).width()
            },
            None => {
                &&& bracket_landing(*old(grid), row as int, col as int) is None
                &&& *final(grid) == *old(grid)
            },
        },
{
    let rows = grid_rows(grid);
    let abs: usize = grid.to_absolute_row(row);
    match objects::matching_bracket(&rows, abs, col) {
        Some((target, c)) => {
            proof {
                lemma_bracket_partner(*grid, abs as int, col as int, (target as int, c as int));
            }
            let shown_at: usize = reveal_absolute_row(grid, target);
            Some((shown_at, c))
        },
        None => {
            proof {
                assert forall|to: (int, int)|
                    !#[trigger] bracket_target(*grid, abs as int, col as int, to) by {
                    assert(grid_text(*grid)[abs as int].len() == grid.width());
                }
            }
            None
        },
    }
}

// ------------------------------------------------------------------------
// Character search over the screen
// ------------------------------------------------------------------------

/// Where a search for a character lands when the character is at column `target`
/// of row `r`: on it, or one cell short of it for `till`. Nowhere past the end of
/// the row, nor where the cursor already is.
pub open spec fn landing_at(
    grid: Grid,
    find: FindChar,
    cursor: (int, int),
    r: int,
    target: int,
) -> Option<(int, int)> {
    let col = if !find.till {
        target
    } else if find.forward {
        target - 1
    } else {
        target + 1
    };
    if 0 <= col <= reach(grid, r) && (r, col) != cursor {
        Some((r, col))
    } else {
        None
    }
}

/// The landing spots on row `r` for the characters from column `lo` up to `hi`, in
/// the order of the search.
pub open spec fn row_landings(
    grid: Grid,
    find: FindChar,
    cursor: (int, int),
    r: int,
    lo: int,
    hi: int,
) -> Seq<(int, int)>
    decreases hi - lo,
{
    let line = printed_line(grid, r);
    if lo >= hi {
        Seq::empty()
    } else if find.forward {
        let rest = row_landings(grid, find, cursor, r, lo, hi - 1);
        match landing_at(grid, find, cursor, r, hi - 1) {
            Some(at) if line[hi - 1] == find.ch => rest.push(at),
            _ => rest,
        }
    } else {
        let rest = row_landings(grid, find, cursor, r, lo + 1, hi);
        match landing_at(grid, find, cursor, r, lo) {
            Some(at) if line[lo] == find.ch => rest.push(at),
            _ => rest,
        }
    }
}

/// The landing spots on the rows above `r`, in the order of a forward search, from
/// the cursor's own row on.
pub open spec fn landings_down(grid: Grid, find: FindChar, cursor: (int, int), r: int) -> Seq<
    (int, int),
>
    decreases r - cursor.0,
{
    if r <= cursor.0 {
        Seq::empty()
    } else {
        let lo = if r - 1 == cursor.0 {
            cursor.1 + 1
        } else {
            0
        };
        landings_down(grid, find, cursor, r - 1) + row_landings(
            grid,
            find,
            cursor,
            r - 1,
            lo,
            printed_line(grid, r - 1).len() as int,
        )
    }
}

/// The landing spots on the rows from `r` to the cursor's, in the order of a
/// backward search.
pub open spec fn landings_up(grid: Grid, find: FindChar, cursor: (int, int), r: int) -> Seq<
    (int, int),
>
    decreases cursor.0 + 1 - r,
{
    if r > cursor.0 {
        Seq::empty()
    } else {
        let len = printed_line(grid, r).len() as int;
        let hi = if r == cursor.0 {
            least(cursor.1, len)
        } else {
            len
        };
        landings_up(grid, find, cursor, r + 1) + row_landings(grid, find, cursor, r, 0, hi)
    }
}

/// Every landing spot of a search on the screen, in the order of the search.
pub open spec fn find_landings(grid: Grid, find: FindChar, cursor: (int, int)) -> Seq<(int, int)> {
    if find.forward {
        landings_down(grid, find, cursor, grid.height())
    } else {
        landings_up(grid, find, cursor, 0)
    }
}

/// Positions as pairs of numbers.
pub open spec fn positions(s: Seq<(usize, usize)>) -> Seq<(int, int)> {
    Seq::new(s.len(), |i: int| (s[i].0 as int, s[i].1 as int))
}

/// Append the landing spots on row `r` for the characters from `lo` up to `hi`.
fn push_row_landings(
    grid: &Grid,
    find: FindChar,
    cursor: (usize, usize),
    r: usize,
    lo: usize,
    hi: usize,
    out: &mut Vec<(usize, usize)>,
)
    requires
        grid.wf(),
        r < grid.height(),
        hi <= printed_line(*grid, r as int).len(),
    ensures
        positions(final(out)@) == positions(old(out)@) + row_landings(
            *grid,
            find,
            (cursor.0 as int, cursor.1 as int),
            r as int,
            lo as int,
            hi as int,
        ),
{
    let line = line_chars(grid, r);
    let end: usize = nav_line_end(grid, r);
    let ghost at = (cursor.0 as int, cursor.1 as int);
    let ghost before = positions(out@);
    if lo >= hi {
        assert(positions(out@) =~= before + Seq::empty());
        return;
    }
    if find.forward {
        let mut i: usize = lo;
        assert(positions(out@) =~= before + Seq::empty());
        while i < hi
            invariant
                grid.wf(),
                r < grid.height(),
                lo <= i <= hi <= line@.len(),
                line@ == printed_line(*grid, r as int),
                end == reach(*grid, r as int),
                find.forward,
                at == (cursor.0 as int, cursor.1 as int),
                positions(out@) == before + row_landings(
                    *grid,
                    find,
                    at,
                    r as int,
                    lo as int,
                    i as int,
                ),
            decreases hi - i,
        {
            if line[i] == find.ch {
                if !find.till || i > 0 {
                    let col: usize = if find.till { i - 1 } else { i };
                    if col <= end && !(r == cursor.0 && col == cursor.1) {
                        let ghost pushed = out@;
                        out.push((r, col));
                        assert(positions(out@) =~= positions(pushed).push((r as int, col as int)));
                    }
                }
            }
            i = i + 1;
            assert(positions(out@) =~= before + row_landings(
                *grid,
                find,
                at,
                r as int,
                lo as int,
                i as int,
            ));
        }
    } else {
        let mut i: usize = hi;
        assert(positions(out@) =~= before + Seq::empty());
        while i > lo
            invariant
                grid.wf(),
                r < grid.height(),
                lo <= i <= hi <= line@.len(),
                line@ == printed_line(*grid, r as int),
                line@.len() <= grid.width(),
                end == reach(*grid, r as int),
                !find.forward,
                at == (cursor.0 as int, cursor.1 as int),
                positions(out@) == before + row_landings(
                    *grid,
                    find,
                    at,
                    r as int,
                    i as int,
                    hi as int,
                ),
            decreases i,
        {
            i = i - 1;
            if line[i] == find.ch {
                let col: usize = if find.till { i + 1 } else { i };
                if col <= end && !(r == cursor.0 && col == cursor.1) {
                    let ghost pushed = out@;
                    out.push((r, col));
                    assert(positions(out@) =~= positions(pushed).push((r as int, col as int)));
                }
            }
            assert(positions(out@) =~= before + row_landings(
                *grid,
                find,
                at,
                r as int,
                i as int,
                hi as int,
            ));
        }
    }
}

/// Every landing spot for `find` on the screen, in search order from the cursor:
/// `f` and `t` scan right and on down, `F` and `T` left and up. Each is adjusted
/// for `till` and left out where that would land past a line's end or on the
/// cursor.
pub fn find_char_targets(grid: &Grid, row: usize, col: usize, find: FindChar) -> (r: Vec<
    (usize, usize),
>)
    requires
        grid.wf(),
        row < grid.height(),
    ensures
        positions(r@) == find_landings(*grid, find, (row as int, col as int)),
{
    let mut out: Vec<(usize, usize)> = Vec::new();
    let ghost at = (row as int, col as int);
    let rows: usize = grid.rows();
    assert(positions(out@) =~= Seq::empty());
    if find.forward {
        let mut r: usize = row;
        while r < rows
            invariant
                grid.wf(),
                rows == grid.height(),
                row <= r <= rows,
                find.forward,
                at == (row as int, col as int),
                positions(out@) == landings_down(*grid, find, at, r as int),
            decreases rows - r,
        {
            let len: usize = line_chars(grid, r).len();
            if r == row {
                if col < len {
                    push_row_landings(grid, find, (row, col), r, col + 1, len, &mut out);
                } else {
                    assert(row_landings(*grid, find, at, r as int, col + 1, len as int)
                        =~= Seq::empty());
                    assert(positions(out@) + Seq::empty() =~= positions(out@));
                }
            } else {
                push_row_landings(grid, find, (row, col), r, 0, len, &mut out);
            }
            r = r + 1;
        }
    } else {
        let mut r: usize = row + 1;
        while r > 0
            invariant
                grid.wf(),
                r <= row + 1 <= grid.height(),
                !find.forward,
                at == (row as int, col as int),
                positions(out@) == landings_up(*grid, find, at, r as int),
            decreases r,
        {
            r = r - 1;
            let len: usize = line_chars(grid, r).len();
            let hi: usize = if r == row { min_of(col, len) } else { len };
            push_row_landings(grid, find, (row, col), r, 0, hi, &mut out);
        }
    }
    out
}

// ------------------------------------------------------------------------
// Text objects
// ------------------------------------------------------------------------

/// A stretch of the buffer, from one absolute position to another, both
/// inclusive.
pub type Stretch = ((usize, usize), (usize, usize));

/// The word at an absolute position.
pub fn text_object_word(grid: &Grid, row: usize, col: usize, big: bool, around: bool) -> (r: Option<
    Stretch,
>)
    requires
        grid.wf(),
    ensures
        match r {
            Some(((r1, start), (r2, end))) => {
                &&& r1 == row && r2 == row
                &&& col < grid.width()
                &&& end < grid.width()
                &&& word_range(grid.row_text(row as int), col as int, big, around) == (
                    start as int,
                    end + 1,
                )
            },
            None => col >= grid.width(),
        },
{
    match word_object(&absolute_row_chars(grid, row), col, big, around) {
        Some((start, end)) => Some(((row, start), (row, end))),
        None => None,
    }
}

/// Columns `start` to `end` are the quoted text around `col`, with the quotes or
/// without.
pub open spec fn quoted(
    line: Seq<char>,
    col: int,
    quote: char,
    around: bool,
    start: int,
    end: int,
) -> bool {
    let i = if around {
        start
    } else {
        start - 1
    };
    let j = if around {
        end
    } else {
        end + 1
    };
    quote_pair(line, i, j, quote) && i <= col <= j
}

/// The quoted text at an absolute position.
pub fn text_object_quotes(grid: &Grid, row: usize, col: usize, quote: char, around: bool) -> (r:
    Option<Stretch>)
    requires
        grid.wf(),
    ensures
        match r {
            Some(((r1, start), (r2, end))) => {
                &&& r1 == row && r2 == row
                &&& end < grid.width()
                &&& quoted(
                    grid.row_text(row as int),
                    col as int,
                    quote,
                    around,
                    start as int,
                    end as int,
                )
            },
            None => forall|i: int, j: int|
                !(#[trigger] quote_pair(grid.row_text(row as int), i, j, quote) && i <= col <= j),
        },
{
    match quote_object(&absolute_row_chars(grid, row), col, quote, around) {
        Some((start, end)) => Some(((row, start), (row, end))),
        None => None,
    }
}

/// The stretch `span` is what the innermost brackets around an absolute position
/// hold, with the brackets or without.
pub open spec fn bracketed(
    grid: Grid,
    row: int,
    col: int,
    open: char,
    close: char,
    around: bool,
    span: Stretch,
) -> bool {
    let rows = grid_text(grid);
    exists|i: int, j: int|
        {
            &&& #[trigger] encloses(joined(rows), i, j, row_start(rows, row) + col, open, close)
            &&& is_position(rows, span.0, if around { i } else { i + 1 })
            &&& is_position(rows, span.1, if around { j } else { j - 1 })
        }
}

/// What the innermost pair of brackets around an absolute position holds.
pub fn text_object_brackets(
    grid: &Grid,
    row: usize,
    col: usize,
    open: char,
    close: char,
    around: bool,
) -> (r: Option<Stretch>)
    requires
        grid.wf(),
    ensures
        match r {
            Some(span) => {
                &&& row < grid.total()
                &&& col < grid.width()
                &&& (span.1).1 < grid.width()
                &&& bracketed(*grid, row as int, col as int, open, close, around, span)
            },
            None => row < grid.total() && col < grid.width() ==> forall|i: int, j: int|
                !(#[trigger] partners(joined(grid_text(*grid)), i, j, open, close) && i
                    <= row_start(grid_text(*grid), row as int) + col <= j),
        },
{
    let rows = grid_rows(grid);
    match bracket_object(&rows, row, col, open, close, around) {
        Some(Span { end, start }) => {
            assert(grid_text(*grid)[end.0 as int].len() == grid.width());
            Some((start, end))
        },
        None => None,
    }
}

/// Where a row's text ends once the white space at its end is dropped.
pub open spec fn trimmed_len(line: Seq<char>, n: int) -> int
    decreases n,
{
    if 0 < n <= line.len() && is_white(line[n - 1]) {
        trimmed_len(line, n - 1)
    } else {
        n
    }
}

/// A row's text without the white space at its end.
pub open spec fn trimmed(line: Seq<char>) -> Seq<char> {
    line.take(trimmed_len(line, line.len() as int))
}

/// The sentence at an absolute position, within its row. The blanks past the
/// row's end are padding and belong to no sentence.
pub fn text_object_sentence(grid: &Grid, row: usize, col: usize, around: bool) -> (r: Option<
    Stretch,
>)
    requires
        grid.wf(),
    ensures
        match r {
            Some(((r1, start), (r2, end))) => {
                let line = trimmed(grid.row_text(row as int));
                &&& r1 == row && r2 == row
                &&& col < line.len()
                &&& end < grid.width()
                &&& crate::words::class_end(line, 0, 0, false) < line.len()
                &&& sentence_range(line, col as int, around) == (start as int, end + 1)
            },
            None => {
                let line = trimmed(grid.row_text(row as int));
                col >= line.len() || crate::words::class_end(line, 0, 0, false) >= line.len()
            },
        },
{
    let all = absolute_row_chars(grid, row);
    let mut n: usize = all.len();
    while n > 0 && all[n - 1].is_whitespace()
        invariant
            n <= all@.len(),
            trimmed_len(all@, all@.len() as int) == trimmed_len(all@, n as int),
        decreases n,
    {
        n = n - 1;
    }
    let line = crate::text::chars_range(&all, 0, n);
    assert(line@ =~= trimmed(all@));
    match sentence_object(&line, col, around) {
        Some((start, end)) => Some(((row, start), (row, end))),
        None => None,
    }
}

/// Where the rows from `row` on that are all blank, or all not, end.
pub open spec fn rows_end(grid: Grid, row: int, blank: bool) -> int
    decreases grid.total() - row,
{
    if 0 <= row < grid.total() && grid.row_is_blank(row) == blank {
        rows_end(grid, row + 1, blank)
    } else {
        row
    }
}

/// Where the rows before `row` that are all blank, or all not, start.
pub open spec fn rows_start(grid: Grid, row: int, blank: bool) -> int
    decreases row,
{
    if 0 < row && grid.row_is_blank(row - 1) == blank {
        rows_start(grid, row - 1, blank)
    } else {
        row
    }
}

/// The rows of the paragraph at `row`, as a first row and the row after the last:
/// the rows around it that are blank or not as it is, and with `around` the rows
/// of the other kind after it or, where there are none, before.
pub open spec fn paragraph_range(grid: Grid, row: int, around: bool) -> (int, int) {
    let blank = grid.row_is_blank(row);
    let start = rows_start(grid, row, blank);
    let end = rows_end(grid, row, blank);
    if !around {
        (start, end)
    } else if rows_end(grid, end, !blank) > end {
        (start, rows_end(grid, end, !blank))
    } else {
        (rows_start(grid, start, !blank), end)
    }
}

fn skip_rows(grid: &Grid, row: usize, blank: bool) -> (r: usize)
    requires
        grid.wf(),
        row <= grid.total(),
    ensures
        r == rows_end(*grid, row as int, blank),
        row <= r <= grid.total(),
{
    let total: usize = grid.scrollback_len() + grid.rows();
    let mut r: usize = row;
    while r < total && absolute_row_is_blank(grid, r) == blank
        invariant
            grid.wf(),
            total == grid.total(),
            row <= r <= total,
            rows_end(*grid, row as int, blank) == rows_end(*grid, r as int, blank),
        decreases total - r,
    {
        r = r + 1;
    }
    r
}

fn skip_rows_back(grid: &Grid, row: usize, blank: bool) -> (r: usize)
    requires
        grid.wf(),
        row <= grid.total(),
    ensures
        r == rows_start(*grid, row as int, blank),
        r <= row,
{
    let mut r: usize = row;
    while r > 0 && absolute_row_is_blank(grid, r - 1) == blank
        invariant
            grid.wf(),
            r <= row <= grid.total(),
            rows_start(*grid, row as int, blank) == rows_start(*grid, r as int, blank),
        decreases r,
    {
        r = r - 1;
    }
    r
}

/// The paragraph at an absolute row, as whole rows.
pub fn text_object_paragraph(grid: &Grid, row: usize, around: bool) -> (r: Option<Stretch>)
    requires
        grid.wf(),
    ensures
        match r {
            Some(((r1, c1), (r2, c2))) => {
                &&& row < grid.total()
                &&& paragraph_range(*grid, row as int, around) == (r1 as int, r2 + 1)
                &&& c1 == 0
                &&& c2 == grid.width() - 1
            },
            None => row >= grid.total(),
        },
{
    let total: usize = grid.scrollback_len() + grid.rows();
    if row >= total {
        return None;
    }
    let blank = absolute_row_is_blank(grid, row);
    let start: usize = skip_rows_back(grid, row, blank);
    let next: usize = skip_rows(grid, row + 1, blank);
    let end: usize = skip_rows(grid, row, blank);
    assert(end == next);
    let last: usize = grid.cols() - 1;
    if !around {
        return Some(((start, 0), (end - 1, last)));
    }
    let after: usize = skip_rows(grid, end, !blank);
    if after > end {
        Some(((start, 0), (after - 1, last)))
    } else {
        Some(((skip_rows_back(grid, start, !blank), 0), (end - 1, last)))
    }
}

/// The stretch `span` is the text object `object` at an absolute position.
pub open spec fn is_text_object(
    grid: Grid,
    row: int,
    col: int,
    around: bool,
    object: TextObject,
    span: Stretch,
) -> bool {
    let ((r1, c1), (r2, c2)) = span;
    match object {
        TextObject::Word => {
            &&& r1 == row && r2 == row && col < grid.width()
            &&& word_range(grid.row_text(row), col, false, around) == (c1 as int, c2 + 1)
        },
        TextObject::WordBig => {
            &&& r1 == row && r2 == row && col < grid.width()
            &&& word_range(grid.row_text(row), col, true, around) == (c1 as int, c2 + 1)
        },
        TextObject::Quotes(q) => {
            &&& r1 == row && r2 == row
            &&& quoted(grid.row_text(row), col, q, around, c1 as int, c2 as int)
        },
        TextObject::Brackets(open, close) => {
            &&& row < grid.total() && col < grid.width()
            &&& bracketed(grid, row, col, open, close, around, span)
        },
        TextObject::Paragraph => {
            &&& row < grid.total()
            &&& paragraph_range(grid, row, around) == (r1 as int, r2 + 1)
            &&& c1 == 0 && c2 == grid.width() - 1
        },
        TextObject::Sentence => {
            let line = trimmed(grid.row_text(row));
            &&& r1 == row && r2 == row && col < line.len()
            &&& crate::words::class_end(line, 0, 0, false) < line.len()
            &&& sentence_range(line, col, around) == (c1 as int, c2 + 1)
        },
    }
}

/// There is a text object `object` at an absolute position.
pub open spec fn has_text_object(
    grid: Grid,
    row: int,
    col: int,
    object: TextObject,
) -> bool {
    match object {
        TextObject::Word => col < grid.width(),
        TextObject::WordBig => col < grid.width(),
        TextObject::Quotes(q) => exists|i: int, j: int|
            #[trigger] quote_pair(grid.row_text(row), i, j, q) && i <= col <= j,
        TextObject::Brackets(open, close) => row < grid.total() && col < grid.width() && exists|
            i: int,
            j: int,
        |
            #[trigger] partners(joined(grid_text(grid)), i, j, open, close) && i <= row_start(
                grid_text(grid),
                row,
            ) + col <= j,
        TextObject::Paragraph => row < grid.total(),
        TextObject::Sentence => {
            let line = trimmed(grid.row_text(row));
            col < line.len() && crate::words::class_end(line, 0, 0, false) < line.len()
        },
    }
}

/// The stretch that the text object `object` at an absolute position covers.
pub open spec fn object_at(
    grid: Grid,
    row: int,
    col: int,
    around: bool,
    object: TextObject,
) -> Option<Stretch> {
    if has_text_object(grid, row, col, object) {
        Some(choose|span: Stretch| #[trigger] is_text_object(grid, row, col, around, object, span))
    } else {
        None
    }
}

/// A text object covers one stretch.
pub proof fn law_one_text_object(
    grid: Grid,
    row: int,
    col: int,
    around: bool,
    object: TextObject,
    one: Stretch,
    other: Stretch,
)
    requires
        is_text_object(grid, row, col, around, object, one),
        is_text_object(grid, row, col, around, object, other),
    ensures
        one == other,
{
    match object {
        TextObject::Quotes(q) => {
            let line = grid.row_text(row);
            let shift: int = if around {
                0
            } else {
                1
            };
            objects::law_one_quote_pair(
                line,
                col,
                one.0.1 - shift,
                one.1.1 + shift,
                other.0.1 - shift,
                other.1.1 + shift,
                q,
            );
        },
        TextObject::Brackets(open, close) => {
            let rows = grid_text(grid);
            let s = joined(rows);
            let p = row_start(rows, row) + col;
            let step: int = if around {
                0
            } else {
                1
            };
            let (i, j) = choose|i: int, j: int|
                {
                    &&& #[trigger] encloses(s, i, j, p, open, close)
                    &&& is_position(rows, one.0, i + step)
                    &&& is_position(rows, one.1, j - step)
                };
            let (a, b) = choose|i: int, j: int|
                {
                    &&& #[trigger] encloses(s, i, j, p, open, close)
                    &&& is_position(rows, other.0, i + step)
                    &&& is_position(rows, other.1, j - step)
                };
            assert(partners(s, i, j, open, close));
            assert(partners(s, a, b, open, close));
            assert(a == i);
            objects::law_one_closer(s, i, j, b, open, close);
            objects::lemma_one_position(
                rows,
                (one.0.0 as int, one.0.1 as int),
                (other.0.0 as int, other.0.1 as int),
            );
            objects::lemma_one_position(
                rows,
                (one.1.0 as int, one.1.1 as int),
                (other.1.0 as int, other.1.1 as int),
            );
        },
        _ => {},
    }
}

/// The text object at an absolute position.
pub fn text_object_span(grid: &Grid, row: usize, col: usize, around: bool, object: TextObject) -> (r:
    Option<Stretch>)
    requires
        grid.wf(),
    ensures
        match r {
            Some(span) => is_text_object(
                *grid,
                row as int,
                col as int,
                around,
                object,
                span,
            ),
            None => !has_text_object(*grid, row as int, col as int, object),
        },
        r == object_at(*grid, row as int, col as int, around, object),
        r matches Some(span) ==> (span.1).1 < grid.width(),
{
    let found = match object {
        TextObject::Word => text_object_word(grid, row, col, false, around),
        TextObject::WordBig => text_object_word(grid, row, col, true, around),
        TextObject::Quotes(q) => text_object_quotes(grid, row, col, q, around),
        TextObject::Brackets(o, c) => text_object_brackets(grid, row, col, o, c, around),
        TextObject::Paragraph => text_object_paragraph(grid, row, around),
        TextObject::Sentence => text_object_sentence(grid, row, col, around),
    };
    proof {
        if let Some(span) = found {
            assert(is_text_object(*grid, row as int, col as int, around, object, span));
            let other = choose|span: Stretch|
                #[trigger] is_text_object(*grid, row as int, col as int, around, object, span);
            law_one_text_object(*grid, row as int, col as int, around, object, span, other);
            assert(has_text_object(*grid, row as int, col as int, object));
        }
    }
    found
}

/// The pair of delimiters `d` stands for, and whether they are quotes.
pub open spec fn surround_pair(d: char) -> Option<(char, char, bool)> {
    if d == '"' || d == '\'' || d == '`' {
        Some((d, d, true))
    } else if d == '(' || d == ')' || d == 'b' {
        Some(('(', ')', false))
    } else if d == '[' || d == ']' {
        Some(('[', ']', false))
    } else if d == '{' || d == '}' || d == 'B' {
        Some(('{', '}', false))
    } else if d == '<' || d == '>' {
        Some(('<', '>', false))
    } else {
        None
    }
}

/// The opening and closing delimiter `d` stands for, and whether they are quotes.
pub fn surround_pair_chars(d: char) -> (r: Option<(char, char, bool)>)
    ensures
        r == surround_pair(d),
{
    match d {
        '"' | '\'' | '`' => Some((d, d, true)),
        '(' | ')' | 'b' => Some(('(', ')', false)),
        '[' | ']' => Some(('[', ']', false)),
        '{' | '}' | 'B' => Some(('{', '}', false)),
        '<' | '>' => Some(('<', '>', false)),
        _ => None,
    }
}

/// The text object that a pair of delimiters surrounds.
pub open spec fn surround_object(d: char) -> Option<TextObject> {
    match surround_pair(d) {
        Some((open, close, is_quote)) => Some(
            if is_quote {
                TextObject::Quotes(open)
            } else {
                TextObject::Brackets(open, close)
            },
        ),
        None => None,
    }
}

/// Where the delimiters that `delimiter` stands for are around an absolute
/// position.
pub open spec fn surround_at(grid: Grid, row: int, col: int, delimiter: char) -> Option<Stretch> {
    match surround_object(delimiter) {
        Some(object) => object_at(grid, row, col, true, object),
        None => None,
    }
}

/// The text object between two delimiters.
fn delimited(open: char, close: char, is_quote: bool) -> (r: TextObject)
    ensures
        r == (if is_quote {
            TextObject::Quotes(open)
        } else {
            TextObject::Brackets(open, close)
        }),
{
    if is_quote {
        TextObject::Quotes(open)
    } else {
        TextObject::Brackets(open, close)
    }
}

/// Where the delimiters that `delimiter` stands for are around an absolute
/// position.
pub fn surround_pair_positions(grid: &Grid, row: usize, col: usize, delimiter: char) -> (r: Option<
    Stretch,
>)
    requires
        grid.wf(),
    ensures
        r == surround_at(*grid, row as int, col as int, delimiter),
        r matches Some(span) ==> (span.1).1 < grid.width(),
{
    match surround_pair_chars(delimiter) {
        Some((open, close, is_quote)) => text_object_span(
            grid,
            row,
            col,
            true,
            delimited(open, close, is_quote),
        ),
        None => None,
    }
}

} // verus!
