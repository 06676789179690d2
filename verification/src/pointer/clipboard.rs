//! Text out of a selection and into a pane.

use vstd::prelude::*;
use crate::grid::Grid;
use crate::input::PaneId;
use crate::navigation::export::{end_trimmed, trim_end_chars};
use crate::pointer::Selection;
use crate::text::{
    append_bytes, append_chars, append_str, chars_of, decimal, decimal_chars, greatest, least,
    is_white, max_of, min_of, string_of,
};

verus! {

broadcast use {Grid::lemma_bounds, Grid::lemma_scrolled};

/// What a double click takes as one word.
pub const WORD_CHARS: &'static str =
    "abcdefghijklmnopqrstuvwxyzABCDEFGHIJKLMNOPQRSTUVWXYZ0123456789_-.~/";

// ------------------------------------------------------------------------
// Selected text
// ------------------------------------------------------------------------

/// The character at an absolute position; a blank where there is no cell.
pub open spec fn char_or_blank(grid: Grid, row: int, col: int) -> char {
    if 0 <= row < grid.total() && 0 <= col < grid.width() {
        grid.cell_at(row, col).ch
    } else {
        ' '
    }
}

/// The characters of row `row` from column `from` up to `to`.
pub open spec fn cells_between(grid: Grid, row: int, from: int, to: int) -> Seq<char> {
    Seq::new((to - from) as nat, |i: int| char_or_blank(grid, row, from + i))
}

/// `cells_between`, or nothing when `to` is not past `from`.
pub open spec fn row_slice(grid: Grid, row: int, from: int, to: int) -> Seq<char> {
    if from < to {
        cells_between(grid, row, from, to)
    } else {
        Seq::empty()
    }
}

fn slice_chars(grid: &Grid, row: usize, from: usize, to: usize) -> (r: Vec<char>)
    requires
        grid.wf(),
    ensures
        r@ == row_slice(*grid, row as int, from as int, to as int),
{
    let mut out: Vec<char> = Vec::new();
    let mut col: usize = from;
    while col < to
        invariant
            grid.wf(),
            from <= col,
            col <= to || col == from,
            out@ == row_slice(*grid, row as int, from as int, col as int),
        decreases to - col,
    {
        let ch: char = match grid.absolute_cell(row, col) {
            Some(cell) => cell.ch,
            None => ' ',
        };
        out.push(ch);
        assert(out@ =~= row_slice(*grid, row as int, from as int, col + 1));
        col = col + 1;
    }
    out
}

/// The columns past those that are selected on a row that is selected up to column
/// `end`.
pub open spec fn stop_col(grid: Grid, end: int) -> int {
    least(end + 1, grid.width())
}

fn stop_column(grid: &Grid, end: usize) -> (r: usize)
    requires
        grid.wf(),
    ensures
        r == stop_col(*grid, end as int),
{
    if end < grid.cols() {
        end + 1
    } else {
        grid.cols()
    }
}

/// What a block selection takes of row `row`.
pub open spec fn block_row(grid: Grid, sel: Selection, row: int) -> Seq<char> {
    end_trimmed(
        row_slice(
            grid,
            row,
            least(sel.start_col as int, sel.end_col as int),
            stop_col(grid, greatest(sel.start_col as int, sel.end_col as int)),
        ),
    )
}

/// The rows of a block selection from its first up to `row`, a line each.
pub open spec fn block_rows(grid: Grid, sel: Selection, row: int) -> Seq<char>
    decreases row - least(sel.start_row as int, sel.end_row as int),
{
    let first = least(sel.start_row as int, sel.end_row as int);
    if row < first {
        Seq::empty()
    } else if row == first {
        block_row(grid, sel, row)
    } else {
        block_rows(grid, sel, row - 1).push('\n') + block_row(grid, sel, row)
    }
}

/// Where a selection starts and ends in reading order.
pub struct Ends {
    pub first_row: int,
    pub first_col: int,
    pub last_row: int,
    pub last_col: int,
}

/// The ends of a selection in reading order.
pub open spec fn ends(sel: Selection) -> Ends {
    let (sr, sc) = (sel.start_row as int, sel.start_col as int);
    let (er, ec) = (sel.end_row as int, sel.end_col as int);
    if sr < er || (sr == er && sc <= ec) {
        Ends { first_row: sr, first_col: sc, last_row: er, last_col: ec }
    } else {
        Ends { first_row: er, first_col: ec, last_row: sr, last_col: sc }
    }
}

/// Whether row `row` goes on in the next one.
pub open spec fn goes_on(grid: Grid, row: int) -> bool {
    0 <= row < grid.total() && grid.wraps_at(row)
}

/// The first column taken of row `row`: a row that goes on from the one before it
/// is taken from its indent on.
pub open spec fn line_from(grid: Grid, e: Ends, row: int) -> int {
    if row == e.first_row {
        e.first_col
    } else if goes_on(grid, row - 1) {
        if row < grid.total() {
            grid.indent_at(row)
        } else {
            0
        }
    } else {
        0
    }
}

/// What a selection takes of row `row`. Up to the row's last column it takes no
/// blanks past the text.
pub open spec fn line_part(grid: Grid, e: Ends, row: int) -> Seq<char> {
    let to = if row == e.last_row {
        stop_col(grid, e.last_col)
    } else {
        grid.width()
    };
    let part = row_slice(grid, row, line_from(grid, e, row), to);
    if to >= grid.width() {
        end_trimmed(part)
    } else {
        part
    }
}

/// The rows of a selection from its first up to before `row`: each ends its line,
/// unless the line goes on in the next.
pub open spec fn lines_before(grid: Grid, e: Ends, row: int) -> Seq<char>
    decreases row - e.first_row,
{
    if row <= e.first_row {
        Seq::empty()
    } else {
        let text = lines_before(grid, e, row - 1) + line_part(grid, e, row - 1);
        if goes_on(grid, row - 1) {
            text
        } else {
            text.push('\n')
        }
    }
}

/// The text under a selection, without blanks at its end.
pub open spec fn text_under(grid: Grid, sel: Selection) -> Seq<char> {
    if sel.block {
        end_trimmed(block_rows(grid, sel, greatest(sel.start_row as int, sel.end_row as int)))
    } else {
        let e = ends(sel);
        end_trimmed(lines_before(grid, e, e.last_row) + line_part(grid, e, e.last_row))
    }
}

/// A text, unless it is empty.
pub open spec fn unless_empty(text: Seq<char>) -> Option<Seq<char>> {
    if text.len() == 0 {
        None
    } else {
        Some(text)
    }
}

/// A string that may be missing, by its text.
pub open spec fn text_view(s: Option<String>) -> Option<Seq<char>> {
    match s {
        Some(s) => Some(s@),
        None => None,
    }
}

fn block_text(grid: &Grid, sel: Selection) -> (text: Vec<char>)
    requires
        grid.wf(),
    ensures
        text@ == block_rows(*grid, sel, greatest(sel.start_row as int, sel.end_row as int)),
{
    let first: usize = min_of(sel.start_row, sel.end_row);
    let last: usize = max_of(sel.start_row, sel.end_row);
    let from: usize = min_of(sel.start_col, sel.end_col);
    let to: usize = stop_column(grid, max_of(sel.start_col, sel.end_col));
    let mut text = slice_chars(grid, first, from, to);
    trim_end_chars(&mut text);
    let mut row: usize = first;
    while row < last
        invariant
            grid.wf(),
            first == least(sel.start_row as int, sel.end_row as int),
            last == greatest(sel.start_row as int, sel.end_row as int),
            from == least(sel.start_col as int, sel.end_col as int),
            to == stop_col(*grid, greatest(sel.start_col as int, sel.end_col as int)),
            first <= row <= last,
            text@ == block_rows(*grid, sel, row as int),
        decreases last - row,
    {
        row = row + 1;
        text.push('\n');
        let mut line = slice_chars(grid, row, from, to);
        trim_end_chars(&mut line);
        append_chars(&mut text, &line);
    }
    text
}

fn linear_text(grid: &Grid, sel: Selection) -> (text: Vec<char>)
    requires
        grid.wf(),
    ensures
        ({
            let e = ends(sel);
            text@ == lines_before(*grid, e, e.last_row) + line_part(*grid, e, e.last_row)
        }),
{
    let in_order: bool = sel.start_row < sel.end_row || (sel.start_row == sel.end_row
        && sel.start_col <= sel.end_col);
    let (sr, sc, er, ec) = if in_order {
        (sel.start_row, sel.start_col, sel.end_row, sel.end_col)
    } else {
        (sel.end_row, sel.end_col, sel.start_row, sel.start_col)
    };
    let ghost e = ends(sel);
    let cols: usize = grid.cols();
    let mut text: Vec<char> = Vec::new();
    let mut row: usize = sr;
    loop
        invariant
            grid.wf(),
            cols == grid.width(),
            e == ends(sel),
            e.first_row == sr,
            e.first_col == sc,
            e.last_row == er,
            e.last_col == ec,
            sr <= row <= er,
            text@ == lines_before(*grid, e, row as int),
        decreases er - row,
    {
        let from: usize = if row == sr {
            sc
        } else if grid.absolute_row_wraps(row - 1) {
            grid.absolute_row_wrap_indent(row)
        } else {
            0
        };
        let to: usize = if row == er {
            stop_column(grid, ec)
        } else {
            cols
        };
        let mut line = slice_chars(grid, row, from, to);
        if to >= cols {
            trim_end_chars(&mut line);
        }
        assert(line@ == line_part(*grid, e, row as int));
        append_chars(&mut text, &line);
        if row == er {
            return text;
        }
        if !grid.absolute_row_wraps(row) {
            text.push('\n');
        }
        row = row + 1;
    }
}

/// The text under a selection, or `None` when it is blank. Rows of one wrapped line
/// join, and blanks past the text of a row are left out.
pub fn selected_text(grid: &Grid, sel: Selection) -> (r: Option<String>)
    requires
        grid.wf(),
    ensures
        text_view(r) == unless_empty(text_under(*grid, sel)),
{
    let mut text = if sel.block {
        block_text(grid, sel)
    } else {
        linear_text(grid, sel)
    };
    trim_end_chars(&mut text);
    if text.len() == 0 {
        None
    } else {
        Some(string_of(&text))
    }
}

/// A selection the other way round.
pub open spec fn turned(sel: Selection) -> Selection {
    Selection {
        end_col: sel.start_col,
        end_row: sel.start_row,
        start_col: sel.end_col,
        start_row: sel.end_row,
        ..sel
    }
}

proof fn lemma_turned_rows(grid: Grid, sel: Selection, row: int)
    ensures
        block_rows(grid, turned(sel), row) == block_rows(grid, sel, row),
    decreases row - least(sel.start_row as int, sel.end_row as int),
{
    if row > least(sel.start_row as int, sel.end_row as int) {
        lemma_turned_rows(grid, sel, row - 1);
    }
}

/// It makes no difference from which of its ends a selection was made.
pub proof fn law_either_end_may_come_first(grid: Grid, sel: Selection)
    ensures
        text_under(grid, turned(sel)) == text_under(grid, sel),
{
    lemma_turned_rows(grid, sel, greatest(sel.start_row as int, sel.end_row as int));
}

proof fn lemma_scrolled_slice(grid: Grid, offset: int, row: int, from: int, to: int)
    requires
        grid.wf(),
        0 <= offset,
    ensures
        row_slice(grid.scrolled(offset), row, from, to) == row_slice(grid, row, from, to),
{
    assert(row_slice(grid.scrolled(offset), row, from, to) =~= row_slice(grid, row, from, to));
}

proof fn lemma_scrolled_block(grid: Grid, offset: int, sel: Selection, row: int)
    requires
        grid.wf(),
        0 <= offset,
    ensures
        block_rows(grid.scrolled(offset), sel, row) == block_rows(grid, sel, row),
    decreases row - least(sel.start_row as int, sel.end_row as int),
{
    lemma_scrolled_slice(
        grid,
        offset,
        row,
        least(sel.start_col as int, sel.end_col as int),
        stop_col(grid, greatest(sel.start_col as int, sel.end_col as int)),
    );
    if row > least(sel.start_row as int, sel.end_row as int) {
        lemma_scrolled_block(grid, offset, sel, row - 1);
    }
}

proof fn lemma_scrolled_part(grid: Grid, offset: int, e: Ends, row: int)
    requires
        grid.wf(),
        0 <= offset,
    ensures
        line_part(grid.scrolled(offset), e, row) == line_part(grid, e, row),
{
    let to = if row == e.last_row {
        stop_col(grid, e.last_col)
    } else {
        grid.width()
    };
    lemma_scrolled_slice(grid, offset, row, line_from(grid, e, row), to);
}

proof fn lemma_scrolled_lines(grid: Grid, offset: int, e: Ends, row: int)
    requires
        grid.wf(),
        0 <= offset,
    ensures
        lines_before(grid.scrolled(offset), e, row) == lines_before(grid, e, row),
    decreases row - e.first_row,
{
    if row > e.first_row {
        lemma_scrolled_lines(grid, offset, e, row - 1);
        lemma_scrolled_part(grid, offset, e, row - 1);
    }
}

/// A selection stays on its text while the view scrolls.
pub proof fn law_scrolling_leaves_the_selected_text(grid: Grid, offset: int, sel: Selection)
    requires
        grid.wf(),
        0 <= offset,
    ensures
        text_under(grid.scrolled(offset), sel) == text_under(grid, sel),
{
    let e = ends(sel);
    lemma_scrolled_block(grid, offset, sel, greatest(sel.start_row as int, sel.end_row as int));
    lemma_scrolled_lines(grid, offset, e, e.last_row);
    lemma_scrolled_part(grid, offset, e, e.last_row);
}

proof fn lemma_end_trimmed(text: Seq<char>)
    ensures
        end_trimmed(text).len() > 0 ==> !is_white(end_trimmed(text).last()),
        end_trimmed(end_trimmed(text)) == end_trimmed(text),
    decreases text.len(),
{
    if text.len() > 0 && is_white(text.last()) {
        lemma_end_trimmed(text.drop_last());
    }
}

/// Selected text, where there is any, ends in something to be seen.
pub proof fn law_selected_text_does_not_end_blank(grid: Grid, sel: Selection)
    ensures
        match unless_empty(text_under(grid, sel)) {
            Some(text) => text.len() > 0 && !is_white(text.last()),
            None => text_under(grid, sel).len() == 0,
        },
{
    if sel.block {
        lemma_end_trimmed(
            block_rows(grid, sel, greatest(sel.start_row as int, sel.end_row as int)),
        );
    } else {
        let e = ends(sel);
        lemma_end_trimmed(lines_before(grid, e, e.last_row) + line_part(grid, e, e.last_row));
    }
}

/// A selection within a row takes the cells from the one column to the other, as far as the
/// row goes, without the blanks at their end.
pub proof fn law_within_a_row_all_between_the_ends_is_selected(grid: Grid, sel: Selection)
    requires
        !sel.block,
        sel.start_row == sel.end_row,
    ensures
        text_under(grid, sel) == end_trimmed(
            row_slice(
                grid,
                sel.start_row as int,
                least(sel.start_col as int, sel.end_col as int),
                stop_col(grid, greatest(sel.start_col as int, sel.end_col as int)),
            ),
        ),
{
    let e = ends(sel);
    let part = row_slice(grid, e.last_row, e.first_col, stop_col(grid, e.last_col));
    lemma_end_trimmed(part);
    assert(lines_before(grid, e, e.last_row) + line_part(grid, e, e.last_row) =~= line_part(
        grid,
        e,
        e.last_row,
    ));
}

// ------------------------------------------------------------------------
// Words
// ------------------------------------------------------------------------

/// Whether `c` is part of a word for a double click.
pub open spec fn is_word_char(c: char) -> bool {
    WORD_CHARS@.contains(c)
}

/// Whether `c` is part of a word for a double click.
pub fn word_char(c: char) -> (r: bool)
    ensures
        r == is_word_char(c),
{
    let chars = chars_of(WORD_CHARS);
    let mut i: usize = 0;
    while i < chars.len()
        invariant
            i <= chars@.len(),
            chars@ == WORD_CHARS@,
            forall|j: int| 0 <= j < i ==> chars@[j] != c,
        decreases chars@.len() - i,
    {
        if chars[i] == c {
            assert(WORD_CHARS@[i as int] == c);
            return true;
        }
        i = i + 1;
    }
    false
}

/// Where the word that ends before column `col` of an absolute row starts.
pub open spec fn word_from(grid: Grid, row: int, col: int) -> int
    decreases col,
{
    if 0 < col <= grid.width() && is_word_char(grid.cell_at(row, col - 1).ch) {
        word_from(grid, row, col - 1)
    } else {
        col
    }
}

/// Where the word at column `col` of an absolute row ends.
pub open spec fn word_to(grid: Grid, row: int, col: int) -> int
    decreases grid.width() - col,
{
    if 0 <= col && col + 1 < grid.width() && is_word_char(grid.cell_at(row, col + 1).ch) {
        word_to(grid, row, col + 1)
    } else {
        col
    }
}

/// The word at a position of the view: the one cell where there is none.
pub open spec fn word_at(grid: Grid, pane: PaneId, row: int, col: usize) -> Selection {
    let abs = grid.top() + row;
    let on_word = col < grid.width() && is_word_char(grid.cell_at(abs, col as int).ch);
    Selection {
        block: false,
        start_row: abs as usize,
        start_col: if on_word {
            word_from(grid, abs, col as int) as usize
        } else {
            col
        },
        end_row: abs as usize,
        end_col: if on_word {
            word_to(grid, abs, col as int) as usize
        } else {
            col
        },
        pane,
    }
}

/// Whether a cell of the view is part of a word.
fn word_cell(grid: &Grid, row: usize, col: usize) -> (r: bool)
    requires
        grid.wf(),
        row < grid.height(),
    ensures
        r == (col < grid.width() && is_word_char(grid.cell_at(grid.top() + row, col as int).ch)),
{
    match grid.visible_cell(row, col) {
        Some(cell) => word_char(cell.ch),
        None => false,
    }
}

/// The word at a position of the view, as a selection.
pub fn word_selection(grid: &Grid, pane: PaneId, row: usize, col: usize) -> (r: Selection)
    requires
        grid.wf(),
        row < grid.height(),
    ensures
        r == word_at(*grid, pane, row as int, col),
{
    let abs: usize = grid.to_absolute_row(row);
    if !word_cell(grid, row, col) {
        return Selection {
            block: false,
            start_row: abs,
            start_col: col,
            end_row: abs,
            end_col: col,
            pane,
        };
    }
    let cols: usize = grid.cols();
    let mut start: usize = col;
    while start > 0 && word_cell(grid, row, start - 1)
        invariant
            grid.wf(),
            row < grid.height(),
            abs == grid.top() + row,
            start <= col < grid.width(),
            word_from(*grid, abs as int, col as int) == word_from(
                *grid,
                abs as int,
                start as int,
            ),
        decreases start,
    {
        start = start - 1;
    }
    let mut end: usize = col;
    while end + 1 < cols && word_cell(grid, row, end + 1)
        invariant
            grid.wf(),
            row < grid.height(),
            cols == grid.width(),
            abs == grid.top() + row,
            col <= end < cols,
            word_to(*grid, abs as int, col as int) == word_to(*grid, abs as int, end as int),
        decreases cols - end,
    {
        end = end + 1;
    }
    Selection { block: false, start_row: abs, start_col: start, end_row: abs, end_col: end, pane }
}

// ------------------------------------------------------------------------
// Copy and paste
// ------------------------------------------------------------------------

/// How many lines the first `n` characters of `text` start or go on with.
pub open spec fn newlines(text: Seq<char>, n: int) -> int
    decreases n,
{
    if n <= 0 {
        0
    } else {
        newlines(text, n - 1) + if text[n - 1] == '\n' {
            1int
        } else {
            0
        }
    }
}

/// How many lines `text` has. What follows the last newline is one, if anything
/// does.
pub open spec fn line_count(text: Seq<char>) -> int {
    newlines(text, text.len() as int) + if text.len() > 0 && text.last() != '\n' {
        1int
    } else {
        0
    }
}

/// The message that says what was copied.
pub open spec fn confirmation(text: Seq<char>) -> Seq<char> {
    "Copied "@ + decimal(line_count(text) as nat) + (if line_count(text) == 1 {
        " line, "@
    } else {
        " lines, "@
    }) + decimal(text.len()) + (if text.len() == 1 {
        " character"@
    } else {
        " characters"@
    })
}

proof fn lemma_newlines(text: Seq<char>, n: int)
    requires
        0 <= n <= text.len(),
    ensures
        0 <= newlines(text, n) <= n,
    decreases n,
{
    if n > 0 {
        lemma_newlines(text, n - 1);
    }
}

/// The message that says how many lines and characters of `text` were copied.
pub fn copy_confirmation(text: &str) -> (r: String)
    ensures
        r@ == confirmation(text@),
{
    let chars = chars_of(text);
    let total: usize = chars.len();
    let mut lines: usize = 0;
    let mut i: usize = 0;
    while i < total
        invariant
            i <= total,
            total == chars@.len(),
            lines == newlines(chars@, i as int),
            lines <= i,
        decreases total - i,
    {
        if chars[i] == '\n' {
            lines = lines + 1;
        }
        i = i + 1;
    }
    if total > 0 && chars[total - 1] != '\n' {
        proof {
            lemma_newlines(chars@, total - 1);
        }
        lines = lines + 1;
    }
    let mut out: Vec<char> = Vec::new();
    append_str(&mut out, "Copied ");
    append_chars(&mut out, &decimal_chars(lines as u64));
    append_str(
        &mut out,
        if lines == 1 {
            " line, "
        } else {
            " lines, "
        },
    );
    append_chars(&mut out, &decimal_chars(total as u64));
    append_str(
        &mut out,
        if total == 1 {
            " character"
        } else {
            " characters"
        },
    );
    assert(out@ =~= confirmation(text@));
    string_of(&out)
}

/// What tells a program that a paste starts.
pub open spec fn paste_start() -> Seq<u8> {
    seq![27u8, 91, 50, 48, 48, 126]
}

/// What tells a program that a paste has ended.
pub open spec fn paste_end() -> Seq<u8> {
    seq![27u8, 91, 50, 48, 49, 126]
}

/// What a paste of `text` sends: its bytes, between marks for a program that asked
/// for them.
pub open spec fn pasted(text: Seq<char>, bracketed: bool) -> Seq<u8> {
    if bracketed {
        paste_start() + vstd::utf8::encode_utf8(text) + paste_end()
    } else {
        vstd::utf8::encode_utf8(text)
    }
}

/// What a paste of `text` sends.
pub fn paste_bytes(text: &str, bracketed: bool) -> (r: Vec<u8>)
    ensures
        r@ == pasted(text@, bracketed),
{
    let mut bytes: Vec<u8> = Vec::new();
    if bracketed {
        append_bytes(&mut bytes, &[27u8, 91, 50, 48, 48, 126]);
    }
    append_bytes(&mut bytes, text.as_bytes());
    if bracketed {
        append_bytes(&mut bytes, &[27u8, 91, 50, 48, 49, 126]);
    }
    assert(bytes@ =~= pasted(text@, bracketed));
    bytes
}

// ------------------------------------------------------------------------
// Laws
// ------------------------------------------------------------------------

/// The cells of row `row` from column `a` to column `b`.
pub open spec fn cells(grid: Grid, row: int, a: int, b: int) -> Seq<char> {
    Seq::new((b - a + 1) as nat, |i: int| grid.cell_at(row, a + i).ch)
}

/// A selection over two rows takes the first from where it starts to the end of the row, and
/// the second up to where it ends. Where the first row goes on in the second, the two join,
/// without the indent; else a line break parts them. The blanks past the text of the first
/// row are left out.
pub proof fn law_two_rows_are_joined_or_parted(grid: Grid, sel: Selection)
    requires
        grid.wf(),
        !sel.block,
        sel.start_row + 1 == sel.end_row,
        sel.end_row < grid.total(),
        sel.start_col < grid.width(),
        sel.end_col + 1 < grid.width(),
        grid.wraps_at(sel.start_row as int) ==> grid.indent_at(sel.end_row as int) <= sel.end_col,
    ensures
        ({
            let r = sel.start_row as int;
            let one = end_trimmed(cells(grid, r, sel.start_col as int, grid.width() - 1));
            let wraps = grid.wraps_at(r);
            let two = cells(
                grid,
                r + 1,
                if wraps {
                    grid.indent_at(r + 1)
                } else {
                    0
                },
                sel.end_col as int,
            );
            text_under(grid, sel) == end_trimmed(
                if wraps {
                    one + two
                } else {
                    one.push('\n') + two
                },
            )
        }),
{
    let e = ends(sel);
    let r = sel.start_row as int;
    let from = if grid.wraps_at(r) {
        grid.indent_at(r + 1)
    } else {
        0
    };
    assert(0 <= grid.indent_at(r + 1)) by {
        grid.lemma_indent(r + 1);
    }
    assert(row_slice(grid, r, e.first_col, grid.width()) =~= cells(
        grid,
        r,
        sel.start_col as int,
        grid.width() - 1,
    ));
    assert(row_slice(grid, r + 1, from, sel.end_col + 1) =~= cells(
        grid,
        r + 1,
        from,
        sel.end_col as int,
    ));
    assert(lines_before(grid, e, r) =~= Seq::empty());
    let one = end_trimmed(cells(grid, r, sel.start_col as int, grid.width() - 1));
    assert(line_part(grid, e, r) == one);
    assert(Seq::empty() + one =~= one);
    assert(lines_before(grid, e, r + 1) == (if grid.wraps_at(r) {
        one
    } else {
        one.push('\n')
    }));
}

/// A block takes of each of its rows the columns from its left edge to its right one, without
/// the blanks at their end, and parts the rows by line breaks.
pub proof fn law_a_block_is_taken_by_columns(grid: Grid, sel: Selection)
    requires
        grid.wf(),
        sel.block,
        sel.start_row + 1 == sel.end_row || sel.end_row + 1 == sel.start_row,
        sel.start_row < grid.total(),
        sel.end_row < grid.total(),
        sel.start_col < grid.width(),
        sel.end_col < grid.width(),
    ensures
        ({
            let r = if sel.start_row < sel.end_row {
                sel.start_row as int
            } else {
                sel.end_row as int
            };
            let (a, b) = if sel.start_col < sel.end_col {
                (sel.start_col as int, sel.end_col as int)
            } else {
                (sel.end_col as int, sel.start_col as int)
            };
            text_under(grid, sel) == end_trimmed(
                end_trimmed(cells(grid, r, a, b)).push('\n') + end_trimmed(
                    cells(grid, r + 1, a, b),
                ),
            )
        }),
{
    let r = least(sel.start_row as int, sel.end_row as int);
    let a = least(sel.start_col as int, sel.end_col as int);
    let b = greatest(sel.start_col as int, sel.end_col as int);
    assert(row_slice(grid, r, a, stop_col(grid, b)) =~= cells(grid, r, a, b));
    assert(row_slice(grid, r + 1, a, stop_col(grid, b)) =~= cells(grid, r + 1, a, b));
    assert(block_rows(grid, sel, r) == block_row(grid, sel, r));
    assert(block_rows(grid, sel, r + 1) == block_rows(grid, sel, r).push('\n') + block_row(
        grid,
        sel,
        r + 1,
    ));
}

/// A double click takes the whole of a word: every cell of it is part of a word, and the cells
/// to either side are not. Off a word it takes the one cell.
pub proof fn law_a_double_click_takes_the_whole_word(
    grid: Grid,
    pane: PaneId,
    row: int,
    col: usize,
)
    requires
        grid.wf(),
        0 <= row < grid.height(),
        col < grid.width(),
    ensures
        ({
            let abs = grid.top() + row;
            let sel = word_at(grid, pane, row, col);
            let (a, b) = (sel.start_col as int, sel.end_col as int);
            &&& sel.start_row == abs && sel.end_row == abs && sel.pane == pane && !sel.block
            &&& a <= col <= b < grid.width()
            &&& is_word_char(grid.cell_at(abs, col as int).ch) ==> {
                &&& forall|k: int| a <= k <= b ==> is_word_char((#[trigger] grid.cell_at(abs, k)).ch)
                &&& a > 0 ==> !is_word_char(grid.cell_at(abs, a - 1).ch)
                &&& b + 1 < grid.width() ==> !is_word_char(grid.cell_at(abs, b + 1).ch)
            }
            &&& !is_word_char(grid.cell_at(abs, col as int).ch) ==> a == col && b == col
        }),
{
    let abs = grid.top() + row;
    lemma_word_from(grid, abs, col as int);
    lemma_word_to(grid, abs, col as int);
}

proof fn lemma_word_from(grid: Grid, row: int, col: int)
    requires
        0 <= col < grid.width(),
    ensures
        0 <= word_from(grid, row, col) <= col,
        forall|k: int|
            word_from(grid, row, col) <= k < col ==> is_word_char(
                (#[trigger] grid.cell_at(row, k)).ch,
            ),
        word_from(grid, row, col) > 0 ==> !is_word_char(
            grid.cell_at(row, word_from(grid, row, col) - 1).ch,
        ),
    decreases col,
{
    if 0 < col && is_word_char(grid.cell_at(row, col - 1).ch) {
        lemma_word_from(grid, row, col - 1);
    }
}

proof fn lemma_word_to(grid: Grid, row: int, col: int)
    requires
        0 <= col < grid.width(),
    ensures
        col <= word_to(grid, row, col) < grid.width(),
        forall|k: int|
            col < k <= word_to(grid, row, col) ==> is_word_char(
                (#[trigger] grid.cell_at(row, k)).ch,
            ),
        word_to(grid, row, col) + 1 < grid.width() ==> !is_word_char(
            grid.cell_at(row, word_to(grid, row, col) + 1).ch,
        ),
    decreases grid.width() - col,
{
    if col + 1 < grid.width() && is_word_char(grid.cell_at(row, col + 1).ch) {
        lemma_word_to(grid, row, col + 1);
    }
}

proof fn lemma_newlines_in_turn(a: Seq<char>, b: Seq<char>, n: int)
    requires
        0 <= n <= b.len(),
    ensures
        newlines(a + b, a.len() + n) == newlines(a, a.len() as int) + newlines(b, n),
    decreases n,
{
    if n > 0 {
        lemma_newlines_in_turn(a, b, n - 1);
    } else {
        lemma_newlines_prefix(a, b, a.len() as int);
    }
}

proof fn lemma_newlines_prefix(a: Seq<char>, b: Seq<char>, n: int)
    requires
        0 <= n <= a.len(),
    ensures
        newlines(a + b, n) == newlines(a, n),
    decreases n,
{
    if n > 0 {
        lemma_newlines_prefix(a, b, n - 1);
    }
}

/// Lines are counted one by one: a line that ends adds one to those after it, and text without
/// a line break is one line, or none when there is no text.
pub proof fn law_lines_are_counted_one_by_one(line: Seq<char>, rest: Seq<char>)
    requires
        forall|i: int| 0 <= i < line.len() ==> #[trigger] line[i] != '\n',
    ensures
        line_count(line.push('\n') + rest) == 1 + line_count(rest),
        line_count(line) == (if line.len() == 0 {
            0int
        } else {
            1
        }),
{
    let first = line.push('\n');
    lemma_no_newlines(line, line.len() as int);
    lemma_newlines_prefix(line, seq!['\n'], line.len() as int);
    assert(line + seq!['\n'] =~= first);
    assert(newlines(first, first.len() as int) == 1);
    lemma_newlines_in_turn(first, rest, rest.len() as int);
    if rest.len() > 0 {
        assert((first + rest).last() == rest.last());
    } else {
        assert((first + rest).last() == '\n');
    }
}

proof fn lemma_no_newlines(line: Seq<char>, n: int)
    requires
        0 <= n <= line.len(),
        forall|i: int| 0 <= i < line.len() ==> #[trigger] line[i] != '\n',
    ensures
        newlines(line, n) == 0,
    decreases n,
{
    if n > 0 {
        lemma_no_newlines(line, n - 1);
    }
}

} // verus!
