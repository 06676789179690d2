//! A terminal's cells: the scrollback, the screen, and how far the view has been
//! scrolled back.

use vstd::prelude::*;
use crate::text::{is_white, least, minus};

verus! {

// ------------------------------------------------------------------------
// Cells
// ------------------------------------------------------------------------

/// A cell's color.
#[derive(Clone, Copy, Debug, PartialEq, Eq, Structural)]
pub enum Color {
    Default,
    Indexed(u8),
    Rgb { r: u8, g: u8, b: u8 },
}

/// How a cell is drawn.
#[derive(Clone, Copy, Debug, PartialEq, Eq, Structural)]
pub struct Style {
    pub background: Color,
    pub bold: bool,
    pub foreground: Color,
    pub italic: bool,
    pub reversed: bool,
    pub underline: bool,
}

/// The style of a cell nothing was printed in.
pub open spec fn plain_style() -> Style {
    Style {
        background: Color::Default,
        bold: false,
        foreground: Color::Default,
        italic: false,
        reversed: false,
        underline: false,
    }
}

impl Default for Style {
    fn default() -> (r: Self)
        ensures
            r == plain_style(),
    {
        Style {
            background: Color::Default,
            bold: false,
            foreground: Color::Default,
            italic: false,
            reversed: false,
            underline: false,
        }
    }
}

/// One cell of the grid.
#[derive(Clone, Copy, Debug, PartialEq, Eq, Structural)]
pub struct Cell {
    pub ch: char,
    pub style: Style,
}

/// A run of cells that carries a hyperlink, from `start_col` up to `end_col`.
#[derive(Debug)]
pub struct Link {
    pub end_col: usize,
    pub start_col: usize,
    pub url: String,
}

/// One row of cells.
#[derive(Debug)]
pub struct Row {
    pub cells: Vec<Cell>,
    /// How far a continuation of a wrapped line is indented.
    pub indent: usize,
    pub links: Vec<Link>,
    /// The line goes on in the next row.
    pub wraps: bool,
}

/// What a cell shows: a cell nothing was printed in shows a blank.
pub open spec fn shown(ch: char) -> char {
    if ch == '\0' {
        ' '
    } else {
        ch
    }
}

/// What a cell shows.
pub fn shown_char(ch: char) -> (r: char)
    ensures
        r == shown(ch),
{
    if ch == '\0' {
        ' '
    } else {
        ch
    }
}

/// Whether a cell looks empty.
pub open spec fn is_blank(ch: char) -> bool {
    ch == '\0' || is_white(ch)
}

/// Whether a cell looks empty.
pub fn blank_char(ch: char) -> (r: bool)
    ensures
        r == is_blank(ch),
{
    ch == '\0' || ch.is_whitespace()
}

// ------------------------------------------------------------------------
// The grid
// ------------------------------------------------------------------------

/// The rows a terminal holds, oldest first: the scrollback, then the screen. Rows
/// are named two ways: absolutely, from the oldest, or within the view, from its
/// top row.
pub struct Grid {
    cols: usize,
    cursor_col: usize,
    cursor_row: usize,
    lines: Vec<Row>,
    rows: usize,
    scroll_offset: usize,
}

impl Grid {
    /// There is a screen, every row is as wide as it, the cursor is on it, and the
    /// view reaches back no further than the oldest row.
    pub closed spec fn wf(self) -> bool {
        &&& 1 <= self.rows <= self.lines@.len()
        &&& 1 <= self.cols < usize::MAX
        &&& self.lines@.len() < usize::MAX
        &&& self.cursor_row < self.rows
        &&& self.cursor_col <= self.cols
        &&& self.scroll_offset <= self.lines@.len() - self.rows
        &&& self.lines@.len() * self.cols < usize::MAX
        &&& forall|i: int|
            0 <= i < self.lines@.len() ==> (#[trigger] self.lines@[i]).cells@.len() == self.cols
    }

    pub closed spec fn width(self) -> int {
        self.cols as int
    }

    pub closed spec fn height(self) -> int {
        self.rows as int
    }

    /// How many rows there are in all.
    pub closed spec fn total(self) -> int {
        self.lines@.len() as int
    }

    /// How many rows lie above the screen.
    pub open spec fn history(self) -> int {
        self.total() - self.height()
    }

    /// How many rows the view has been scrolled back.
    pub closed spec fn offset(self) -> int {
        self.scroll_offset as int
    }

    /// The absolute row at the top of the view.
    pub open spec fn top(self) -> int {
        self.history() - self.offset()
    }

    /// Where the terminal's cursor is: the row of the screen, and the column.
    pub closed spec fn cursor_at(self) -> (usize, usize) {
        (self.cursor_row, self.cursor_col)
    }

    /// The cell at absolute row `row`.
    pub closed spec fn cell_at(self, row: int, col: int) -> Cell {
        self.lines@[row].cells@[col]
    }

    /// Whether the line of absolute row `row` goes on in the next.
    pub closed spec fn wraps_at(self, row: int) -> bool {
        self.lines@[row].wraps
    }

    /// How far absolute row `row` is indented as a continuation.
    pub closed spec fn indent_at(self, row: int) -> int {
        self.lines@[row].indent as int
    }

    /// The links of absolute row `row`.
    pub closed spec fn links_at(self, row: int) -> Seq<Link> {
        self.lines@[row].links@
    }

    /// What absolute row `row` shows; blanks where there is no such row.
    pub open spec fn row_text(self, row: int) -> Seq<char> {
        Seq::new(
            self.width() as nat,
            |col: int|
                if 0 <= row < self.total() {
                    shown(self.cell_at(row, col).ch)
                } else {
                    ' '
                },
        )
    }

    /// Whether absolute row `row` shows nothing.
    pub open spec fn row_is_blank(self, row: int) -> bool {
        forall|col: int|
            0 <= col < self.width() && 0 <= row < self.total() ==> is_blank(
                (#[trigger] self.cell_at(row, col)).ch,
            )
    }

    /// The view scrolled back by `offset` rows, as far as there are any.
    pub closed spec fn scrolled(self, offset: int) -> Grid {
        Grid { scroll_offset: least(offset, self.history()) as usize, ..self }
    }

    /// What the invariant says, and what scrolling leaves alone.
    pub broadcast proof fn lemma_bounds(self)
        requires
            #[trigger] self.wf(),
        ensures
            1 <= self.height() <= self.total() < usize::MAX,
            1 <= self.width() < usize::MAX,
            0 <= self.offset() <= self.history(),
            0 <= self.cursor_at().0 < self.height(),
            0 <= self.cursor_at().1 <= self.width(),
            self.total() * self.width() < usize::MAX,
    {
    }

    /// An indent is no less than nothing.
    pub proof fn lemma_indent(self, row: int)
        ensures
            0 <= self.indent_at(row) <= usize::MAX,
    {
    }

    /// Only the last of two scrolls tells.
    pub proof fn lemma_scrolled_twice(self, one: int, other: int)
        requires
            self.wf(),
            0 <= one,
            0 <= other,
        ensures
            self.scrolled(one).scrolled(other) == self.scrolled(other),
    {
    }

    /// Scrolling keeps the rows and the cursor.
    pub broadcast proof fn lemma_scrolled(self, offset: int)
        requires
            self.wf(),
            0 <= offset,
        ensures
            #![trigger self.scrolled(offset)]
            self.scrolled(offset).wf(),
            self.scrolled(offset).offset() == least(offset, self.history()),
            self.scrolled(offset).width() == self.width(),
            self.scrolled(offset).height() == self.height(),
            self.scrolled(offset).total() == self.total(),
            self.scrolled(offset).cursor_at() == self.cursor_at(),
            forall|row: int, col: int| #[trigger]
                self.scrolled(offset).cell_at(row, col) == self.cell_at(row, col),
            forall|row: int| #[trigger] self.scrolled(offset).wraps_at(row) == self.wraps_at(row),
            forall|row: int| #[trigger] self.scrolled(offset).indent_at(row) == self.indent_at(row),
            forall|row: int| #[trigger] self.scrolled(offset).links_at(row) == self.links_at(row),
            offset == self.offset() ==> self.scrolled(offset) == self,
            forall|again: int| 0 <= again ==> #[trigger] self.scrolled(offset).scrolled(again)
                == self.scrolled(again),
    {
    }

    /// A grid over `lines`, oldest first, of which the last `rows` are the screen.
    /// `None` unless there is at least one row and one column, the cells can be
    /// counted, every line is `cols` wide, and the cursor is on the screen or just
    /// past a row's end.
    pub fn from_lines(lines: Vec<Row>, cols: usize, rows: usize, cursor: (usize, usize)) -> (r:
        Option<Grid>)
        ensures
            r is Some <==> {
                &&& 1 <= rows <= lines@.len() < usize::MAX
                &&& 1 <= cols < usize::MAX
                &&& cursor.0 < rows
                &&& cursor.1 <= cols
                &&& lines@.len() * cols < usize::MAX
                &&& forall|i: int|
                    0 <= i < lines@.len() ==> (#[trigger] lines@[i]).cells@.len() == cols
            },
            r matches Some(grid) ==> {
                &&& grid.wf()
                &&& grid.width() == cols
                &&& grid.height() == rows
                &&& grid.total() == lines@.len()
                &&& grid.offset() == 0
                &&& grid.cursor_at() == cursor
                &&& forall|row: int, col: int|
                    0 <= row < lines@.len() && 0 <= col < cols ==> #[trigger] grid.cell_at(row, col)
                        == lines@[row].cells@[col]
                &&& forall|row: int|
                    0 <= row < lines@.len() ==> #[trigger] grid.wraps_at(row) == lines@[row].wraps
                &&& forall|row: int|
                    0 <= row < lines@.len() ==> #[trigger] grid.indent_at(row)
                        == lines@[row].indent
                &&& forall|row: int|
                    0 <= row < lines@.len() ==> #[trigger] grid.links_at(row) == lines@[row].links@
            },
    {
        if rows < 1 || lines.len() < rows || lines.len() == usize::MAX || cols < 1 || cols
            == usize::MAX || cursor.0 >= rows || cursor.1 > cols {
            return None;
        }
        match lines.len().checked_mul(cols) {
            Some(cells) => {
                if cells == usize::MAX {
                    return None;
                }
            },
            None => {
                return None;
            },
        }
        let mut i: usize = 0;
        while i < lines.len()
            invariant
                i <= lines@.len(),
                forall|j: int| 0 <= j < i ==> (#[trigger] lines@[j]).cells@.len() == cols,
            decreases lines@.len() - i,
        {
            if lines[i].cells.len() != cols {
                assert(lines@[i as int].cells@.len() != cols);
                return None;
            }
            i = i + 1;
        }
        Some(
            Grid {
                cols,
                cursor_col: cursor.1,
                cursor_row: cursor.0,
                lines,
                rows,
                scroll_offset: 0,
            },
        )
    }

    pub fn rows(&self) -> (r: usize)
        ensures
            r == self.height(),
    {
        self.rows
    }

    pub fn cols(&self) -> (r: usize)
        ensures
            r == self.width(),
    {
        self.cols
    }

    /// How many rows lie above the screen.
    pub fn scrollback_len(&self) -> (r: usize)
        requires
            self.wf(),
        ensures
            r == self.history(),
    {
        self.lines.len() - self.rows
    }

    /// How many rows the view has been scrolled back.
    pub fn scroll_offset(&self) -> (r: usize)
        ensures
            r == self.offset(),
    {
        self.scroll_offset
    }

    /// Where the terminal's cursor is on the screen.
    pub fn cursor(&self) -> (r: (usize, usize))
        ensures
            r == self.cursor_at(),
    {
        (self.cursor_row, self.cursor_col)
    }

    /// The absolute row of row `row` of the view, in view or not, as far as there
    /// are numbers for rows.
    pub open spec fn absolute(self, row: int) -> int {
        least(self.top() + row, usize::MAX as int)
    }

    /// The absolute row of row `row` of the view.
    pub fn to_absolute_row(&self, row: usize) -> (r: usize)
        requires
            self.wf(),
        ensures
            r == self.absolute(row as int),
    {
        (self.lines.len() - self.rows - self.scroll_offset).saturating_add(row)
    }

    /// The cell at an absolute position.
    pub fn absolute_cell(&self, row: usize, col: usize) -> (r: Option<Cell>)
        requires
            self.wf(),
        ensures
            r is Some <==> row < self.total() && col < self.width(),
            r matches Some(cell) ==> cell == self.cell_at(row as int, col as int),
    {
        if row < self.lines.len() && col < self.cols {
            Some(self.lines[row].cells[col])
        } else {
            None
        }
    }

    /// The cell at a position of the view.
    pub fn visible_cell(&self, row: usize, col: usize) -> (r: Option<Cell>)
        requires
            self.wf(),
        ensures
            r is Some <==> row < self.height() && col < self.width(),
            r matches Some(cell) ==> cell == self.cell_at(self.top() + row, col as int),
    {
        if row < self.rows && col < self.cols {
            let abs: usize = self.to_absolute_row(row);
            Some(self.lines[abs].cells[col])
        } else {
            None
        }
    }

    /// The cell at a position of the screen, however the view is scrolled.
    pub fn cell(&self, row: usize, col: usize) -> (r: Option<Cell>)
        requires
            self.wf(),
        ensures
            r is Some <==> row < self.height() && col < self.width(),
            r matches Some(cell) ==> cell == self.cell_at(self.history() + row, col as int),
    {
        if row < self.rows && col < self.cols {
            let abs: usize = self.lines.len() - self.rows + row;
            Some(self.lines[abs].cells[col])
        } else {
            None
        }
    }

    /// Whether the line of absolute row `row` goes on in the next row.
    pub fn absolute_row_wraps(&self, row: usize) -> (r: bool)
        requires
            self.wf(),
        ensures
            r == (row < self.total() && self.wraps_at(row as int)),
    {
        row < self.lines.len() && self.lines[row].wraps
    }

    /// How far absolute row `row` is indented as a continuation.
    pub fn absolute_row_wrap_indent(&self, row: usize) -> (r: usize)
        requires
            self.wf(),
        ensures
            r == (if row < self.total() {
                self.indent_at(row as int)
            } else {
                0
            }),
    {
        if row < self.lines.len() {
            self.lines[row].indent
        } else {
            0
        }
    }

    /// The first row of the view that holds the line of row `row`: rows whose line
    /// goes on belong with the next.
    pub open spec fn wrap_start(self, row: int) -> int
        decreases row,
    {
        if row > 0 && self.wraps_at(self.top() + row - 1) {
            self.wrap_start(row - 1)
        } else {
            row
        }
    }

    /// The last row of the view that holds the line of row `row`.
    pub open spec fn wrap_end(self, row: int) -> int
        decreases self.height() - row,
    {
        if row + 1 < self.height() && self.wraps_at(self.top() + row) {
            self.wrap_end(row + 1)
        } else {
            row
        }
    }

    /// The rows of the view that hold the line of row `row`, first and last.
    pub fn wrapped_row_span(&self, row: usize) -> (r: (usize, usize))
        requires
            self.wf(),
            row < self.height(),
        ensures
            r.0 == self.wrap_start(row as int),
            r.1 == self.wrap_end(row as int),
            r.0 <= row <= r.1 < self.height(),
    {
        let mut first: usize = row;
        while first > 0 && self.absolute_row_wraps(self.to_absolute_row(first - 1))
            invariant
                self.wf(),
                first <= row < self.height(),
                self.wrap_start(row as int) == self.wrap_start(first as int),
            decreases first,
        {
            first = first - 1;
        }
        let mut last: usize = row;
        while last + 1 < self.rows && self.absolute_row_wraps(self.to_absolute_row(last))
            invariant
                self.wf(),
                row <= last < self.height(),
                self.wrap_end(row as int) == self.wrap_end(last as int),
            decreases self.height() - last,
        {
            last = last + 1;
        }
        (first, last)
    }

    /// Scroll the view back by `offset` rows, or to the oldest row.
    pub fn set_scroll_offset(&mut self, offset: usize)
        requires
            old(self).wf(),
        ensures
            *final(self) == old(self).scrolled(offset as int),
            final(self).wf(),
    {
        let limit: usize = self.lines.len() - self.rows;
        self.scroll_offset = if offset <= limit { offset } else { limit };
    }

    /// Scroll `lines` rows further back, or to the oldest row.
    pub fn scroll_up_history(&mut self, lines: usize)
        requires
            old(self).wf(),
        ensures
            *final(self) == old(self).scrolled(old(self).offset() + lines),
            final(self).wf(),
    {
        let limit: usize = self.lines.len() - self.rows;
        self.scroll_offset = if lines <= limit - self.scroll_offset {
            self.scroll_offset + lines
        } else {
            limit
        };
    }

    /// Scroll `lines` rows toward the screen.
    pub fn scroll_down_history(&mut self, lines: usize)
        requires
            old(self).wf(),
        ensures
            *final(self) == old(self).scrolled(minus(old(self).offset(), lines as int)),
            final(self).wf(),
    {
        self.scroll_offset = self.scroll_offset.saturating_sub(lines);
    }

    /// The column of the last printed character of the first `n` columns of an
    /// absolute row, or zero.
    pub open spec fn text_end(self, row: int, n: int) -> int
        decreases n,
    {
        if n <= 1 {
            0
        } else if !is_blank(self.cell_at(row, n - 1).ch) {
            n - 1
        } else {
            self.text_end(row, n - 1)
        }
    }

    /// The column of the last printed character of row `row` of the view, or zero.
    pub open spec fn line_end(self, row: int) -> int {
        self.text_end(self.top() + row, self.width())
    }

    /// The column of the last printed character of row `row` of the view, or zero
    /// when there is none.
    pub fn visible_line_end(&self, row: usize) -> (r: usize)
        requires
            self.wf(),
            row < self.height(),
        ensures
            r == self.line_end(row as int),
            r < self.width(),
    {
        let abs: usize = self.to_absolute_row(row);
        let mut n: usize = self.cols;
        while n > 1 && blank_char(self.lines[abs].cells[n - 1].ch)
            invariant
                self.wf(),
                abs == self.top() + row,
                abs < self.total(),
                1 <= n <= self.width(),
                self.text_end(abs as int, self.width()) == self.text_end(abs as int, n as int),
            decreases n,
        {
            n = n - 1;
        }
        n - 1
    }

    /// Whether row `row` of the view holds something: a printed character, or the
    /// cursor when the view is not scrolled.
    pub open spec fn has_content(self, row: int) -> bool {
        ||| !self.row_is_blank(self.top() + row)
        ||| self.offset() == 0 && row == self.cursor_at().0
    }

    /// The last row below `n` of the view that holds something, or zero.
    pub open spec fn content_end(self, n: int) -> int
        decreases n,
    {
        if n <= 1 {
            0
        } else if self.has_content(n - 1) {
            n - 1
        } else {
            self.content_end(n - 1)
        }
    }

    /// Whether an absolute row shows nothing.
    pub fn row_blank(&self, row: usize) -> (r: bool)
        requires
            self.wf(),
        ensures
            r == self.row_is_blank(row as int),
    {
        if row >= self.lines.len() {
            return true;
        }
        let mut col: usize = 0;
        while col < self.cols
            invariant
                self.wf(),
                row < self.total(),
                col <= self.width(),
                forall|c: int| 0 <= c < col ==> is_blank((#[trigger] self.cell_at(row as int, c)).ch),
            decreases self.width() - col,
        {
            if !blank_char(self.lines[row].cells[col].ch) {
                assert(!is_blank(self.cell_at(row as int, col as int).ch));
                return false;
            }
            col = col + 1;
        }
        true
    }

    /// The last row of the view that holds something, or the first.
    pub fn last_content_row(&self) -> (r: usize)
        requires
            self.wf(),
        ensures
            r == self.content_end(self.height()),
            r < self.height(),
    {
        let mut n: usize = self.rows;
        while n > 1
            invariant
                self.wf(),
                1 <= n <= self.height(),
                self.content_end(self.height()) == self.content_end(n as int),
            decreases n,
        {
            let abs: usize = self.to_absolute_row(n - 1);
            let blank = self.row_blank(abs);
            if !blank || (self.scroll_offset == 0 && n - 1 == self.cursor_row) {
                return n - 1;
            }
            n = n - 1;
        }
        0
    }

    /// The link that covers a position of the view, if any: the first of the row's
    /// links whose columns hold `col`.
    pub fn cell_link(&self, row: usize, col: usize) -> (r: Option<&String>)
        requires
            self.wf(),
        ensures
            match r {
                Some(url) => row < self.height() && exists|i: int|
                    #![trigger self.links_at(self.top() + row)[i]]
                    link_hit(self.links_at(self.top() + row), i, col as int)
                        && *url == self.links_at(self.top() + row)[i].url,
                None => row < self.height() ==> forall|i: int|
                    !(#[trigger] link_hit(self.links_at(self.top() + row), i, col as int)),
            },
    {
        if row >= self.rows {
            return None;
        }
        let abs: usize = self.to_absolute_row(row);
        let links = &self.lines[abs].links;
        let mut i: usize = 0;
        while i < links.len()
            invariant
                i <= links@.len(),
                links@ == self.links_at(self.top() + row),
                row < self.height(),
                forall|j: int|
                    0 <= j < i ==> !(links@[j].start_col <= col < (#[trigger] links@[j]).end_col),
            decreases links@.len() - i,
        {
            if links[i].start_col <= col && col < links[i].end_col {
                assert(link_hit(links@, i as int, col as int));
                return Some(&links[i].url);
            }
            i = i + 1;
        }
        None
    }
}

/// Link `i` is the first that covers column `col`.
pub open spec fn link_hit(links: Seq<Link>, i: int, col: int) -> bool {
    &&& 0 <= i < links.len()
    &&& links[i].start_col <= col < links[i].end_col
    &&& forall|j: int| 0 <= j < i ==> !(links[j].start_col <= col < (#[trigger] links[j]).end_col)
}

} // verus!
