//! The buffer as text: plain, with ANSI escapes, and as an HTML document.

use vstd::prelude::*;
use crate::grid::{Cell, Color, Grid, Style};
use crate::text::{append_chars, append_str, chars_of, decimal, decimal_chars, is_white, string_of};

verus! {

broadcast use {Grid::lemma_bounds, Grid::lemma_scrolled};

// ------------------------------------------------------------------------
// Theme
// ------------------------------------------------------------------------

/// A color by its parts.
#[derive(Clone, Copy, Debug, PartialEq, Eq, Structural)]
pub struct Rgb {
    pub r: u8,
    pub g: u8,
    pub b: u8,
}

/// The colors a terminal draws in.
#[derive(Clone, Copy, Debug)]
pub struct Theme {
    pub ansi: [Rgb; 16],
    pub background: Rgb,
    pub foreground: Rgb,
}

/// A value below 16 as a hexadecimal digit.
pub open spec fn hex_digit(d: int) -> char {
    if d < 10 {
        ('0' as int + d) as char
    } else {
        ('a' as int + d - 10) as char
    }
}

/// A byte as two hexadecimal digits.
pub open spec fn hex_byte(b: u8) -> Seq<char> {
    seq![hex_digit(b as int / 16), hex_digit(b as int % 16)]
}

/// A color as `#rrggbb`.
pub open spec fn hex_color(c: Rgb) -> Seq<char> {
    "#"@ + hex_byte(c.r) + hex_byte(c.g) + hex_byte(c.b)
}

fn hex_char(d: u8) -> (r: char)
    requires
        d < 16,
    ensures
        r == hex_digit(d as int),
{
    if d < 10 {
        (48u8 + d) as char
    } else {
        (97u8 + (d - 10)) as char
    }
}

fn push_hex_byte(out: &mut Vec<char>, b: u8)
    ensures
        final(out)@ == old(out)@ + hex_byte(b),
{
    out.push(hex_char(b / 16));
    out.push(hex_char(b % 16));
    assert(out@ =~= old(out)@ + hex_byte(b));
}

impl Rgb {
    /// Append the color as `#rrggbb`.
    fn push_hex(self, out: &mut Vec<char>)
        ensures
            final(out)@ == old(out)@ + hex_color(self),
    {
        append_str(out, "#");
        push_hex_byte(out, self.r);
        push_hex_byte(out, self.g);
        push_hex_byte(out, self.b);
        assert(out@ =~= old(out)@ + hex_color(self));
    }

    /// The color as `#rrggbb`.
    pub fn to_hex(self) -> (r: String)
        ensures
            r@ == hex_color(self),
    {
        let mut out: Vec<char> = Vec::new();
        self.push_hex(&mut out);
        assert(out@ =~= hex_color(self));
        string_of(&out)
    }
}

// ------------------------------------------------------------------------
// Rows
// ------------------------------------------------------------------------

/// Whether a row holds a character that is not white space. A cell that is the
/// second half of a wide character holds none.
pub open spec fn has_text(grid: Grid, row: int) -> bool {
    exists|col: int|
        #![trigger grid.cell_at(row, col)]
        0 <= col < grid.width() && grid.cell_at(row, col).ch != '\0' && !is_white(
            grid.cell_at(row, col).ch,
        )
}

/// How many of the first `n` rows there are up to the last that holds text.
pub open spec fn text_rows(grid: Grid, n: int) -> int
    decreases n,
{
    if n <= 0 {
        0
    } else if has_text(grid, n - 1) {
        n
    } else {
        text_rows(grid, n - 1)
    }
}

fn row_has_text(grid: &Grid, row: usize) -> (r: bool)
    requires
        grid.wf(),
        row < grid.total(),
    ensures
        r == has_text(*grid, row as int),
{
    let cols: usize = grid.cols();
    let mut col: usize = 0;
    while col < cols
        invariant
            grid.wf(),
            cols == grid.width(),
            row < grid.total(),
            col <= cols,
            forall|c: int|
                0 <= c < col ==> (#[trigger] grid.cell_at(row as int, c)).ch == '\0' || is_white(
                    grid.cell_at(row as int, c).ch,
                ),
        decreases cols - col,
    {
        if let Some(cell) = grid.absolute_cell(row, col) {
            if cell.ch != '\0' && !cell.ch.is_whitespace() {
                assert(!is_white(grid.cell_at(row as int, col as int).ch));
                return true;
            }
        }
        col = col + 1;
    }
    false
}

/// How many rows there are up to the last that holds text.
fn count_text_rows(grid: &Grid) -> (r: usize)
    requires
        grid.wf(),
    ensures
        r == text_rows(*grid, grid.total()),
        r <= grid.total(),
{
    let mut n: usize = grid.scrollback_len() + grid.rows();
    while n > 0
        invariant
            grid.wf(),
            n <= grid.total(),
            text_rows(*grid, grid.total()) == text_rows(*grid, n as int),
        decreases n,
    {
        if row_has_text(grid, n - 1) {
            return n;
        }
        n = n - 1;
    }
    0
}

// ------------------------------------------------------------------------
// Plain text
// ------------------------------------------------------------------------

/// The characters of the first `n` cells of a row.
pub open spec fn cell_text(grid: Grid, row: int, n: int) -> Seq<char>
    decreases n,
{
    if n <= 0 {
        Seq::empty()
    } else if grid.cell_at(row, n - 1).ch == '\0' {
        cell_text(grid, row, n - 1)
    } else {
        cell_text(grid, row, n - 1).push(grid.cell_at(row, n - 1).ch)
    }
}

/// `text` without the white space at its end.
pub open spec fn end_trimmed(text: Seq<char>) -> Seq<char>
    decreases text.len(),
{
    if text.len() > 0 && is_white(text.last()) {
        end_trimmed(text.drop_last())
    } else {
        text
    }
}

/// What a row holds, without the white space at its end.
pub open spec fn plain_row(grid: Grid, row: int) -> Seq<char> {
    end_trimmed(cell_text(grid, row, grid.width()))
}

/// The first `n` rows, a line break between each and the next.
pub open spec fn plain_rows(grid: Grid, n: int) -> Seq<char>
    decreases n,
{
    if n <= 0 {
        Seq::empty()
    } else if n == 1 {
        plain_row(grid, 0)
    } else {
        plain_rows(grid, n - 1).push('\n') + plain_row(grid, n - 1)
    }
}

/// Drop the white space at the end of `text`.
pub fn trim_end_chars(text: &mut Vec<char>)
    ensures
        final(text)@ == end_trimmed(old(text)@),
{
    while text.len() > 0 && text[text.len() - 1].is_whitespace()
        invariant
            end_trimmed(old(text)@) == end_trimmed(text@),
        decreases text@.len(),
    {
        text.pop();
    }
}

/// What a row holds, without the white space at its end.
pub fn plain_row_chars(grid: &Grid, row: usize) -> (r: Vec<char>)
    requires
        grid.wf(),
        row < grid.total(),
    ensures
        r@ == plain_row(*grid, row as int),
{
    let cols: usize = grid.cols();
    let mut line: Vec<char> = Vec::new();
    let mut col: usize = 0;
    while col < cols
        invariant
            grid.wf(),
            cols == grid.width(),
            row < grid.total(),
            col <= cols,
            line@ == cell_text(*grid, row as int, col as int),
        decreases cols - col,
    {
        if let Some(cell) = grid.absolute_cell(row, col) {
            if cell.ch != '\0' {
                line.push(cell.ch);
            }
        }
        col = col + 1;
    }
    trim_end_chars(&mut line);
    line
}

proof fn lemma_plain_row_empty(grid: Grid, row: int, n: int)
    requires
        0 <= n <= grid.width(),
        forall|col: int|
            0 <= col < n ==> (#[trigger] grid.cell_at(row, col)).ch == '\0' || is_white(
                grid.cell_at(row, col).ch,
            ),
    ensures
        end_trimmed(cell_text(grid, row, n)) == Seq::<char>::empty(),
    decreases n,
{
    if n > 0 {
        lemma_plain_row_empty(grid, row, n - 1);
        if grid.cell_at(row, n - 1).ch != '\0' {
            assert(cell_text(grid, row, n).drop_last() =~= cell_text(grid, row, n - 1));
        }
    }
}

/// A row holds text exactly when something is left of it without the white space
/// at its end.
pub proof fn law_blank_rows_are_empty_lines(grid: Grid, row: int)
    requires
        grid.wf(),
        !has_text(grid, row),
    ensures
        plain_row(grid, row) == Seq::<char>::empty(),
{
    lemma_plain_row_empty(grid, row, grid.width());
}

/// The whole buffer as plain text: rows without the white space at their end, and
/// none of the empty rows at the bottom.
pub fn export_scrollback_plain(grid: &Grid) -> (r: String)
    requires
        grid.wf(),
    ensures
        r@ == plain_rows(*grid, text_rows(*grid, grid.total())),
{
    let n: usize = count_text_rows(grid);
    let mut out: Vec<char> = Vec::new();
    let mut row: usize = 0;
    while row < n
        invariant
            grid.wf(),
            row <= n <= grid.total(),
            out@ == plain_rows(*grid, row as int),
        decreases n - row,
    {
        if row > 0 {
            out.push('\n');
        }
        let line = plain_row_chars(grid, row);
        append_chars(&mut out, &line);
        assert(out@ =~= plain_rows(*grid, row + 1));
        row = row + 1;
    }
    string_of(&out)
}

// ------------------------------------------------------------------------
// ANSI
// ------------------------------------------------------------------------

/// `text` if `on`, and nothing otherwise.
pub open spec fn when(on: bool, text: Seq<char>) -> Seq<char> {
    if on {
        text
    } else {
        Seq::empty()
    }
}

/// The escape that selects a color, as foreground (`38`) or background (`48`).
pub open spec fn color_escape(lead: Seq<char>, color: Color) -> Seq<char> {
    match color {
        Color::Default => Seq::empty(),
        Color::Indexed(i) => lead + ";5;"@ + decimal(i as nat) + "m"@,
        Color::Rgb { r, g, b } => lead + ";2;"@ + decimal(r as nat) + ";"@ + decimal(g as nat)
            + ";"@ + decimal(b as nat) + "m"@,
    }
}

/// The escapes that select a style, from whatever is selected.
pub open spec fn style_escapes(style: Style) -> Seq<char> {
    "\x1b[0m"@ + when(style.bold, "\x1b[1m"@) + when(style.italic, "\x1b[3m"@) + when(
        style.underline,
        "\x1b[4m"@,
    ) + when(style.reversed, "\x1b[7m"@) + color_escape("\x1b[38"@, style.foreground)
        + color_escape("\x1b[48"@, style.background)
}

/// The style selected after the first `n` cells of a row.
pub open spec fn style_after(grid: Grid, row: int, n: int) -> Style
    decreases n,
{
    if n <= 0 {
        crate::grid::plain_style()
    } else if grid.cell_at(row, n - 1).ch == '\0' {
        style_after(grid, row, n - 1)
    } else {
        grid.cell_at(row, n - 1).style
    }
}

/// The first `n` cells of a row, each after the escapes that select its style
/// where that differs from the style of the cell before.
pub open spec fn ansi_cells(grid: Grid, row: int, n: int) -> Seq<char>
    decreases n,
{
    if n <= 0 {
        Seq::empty()
    } else {
        let cell = grid.cell_at(row, n - 1);
        let before = ansi_cells(grid, row, n - 1);
        if cell.ch == '\0' {
            before
        } else {
            (before + when(
                cell.style != style_after(grid, row, n - 1),
                style_escapes(cell.style),
            )).push(cell.ch)
        }
    }
}

/// A row with its escapes: the style is reset at the end where it is not plain.
pub open spec fn ansi_row(grid: Grid, row: int) -> Seq<char> {
    (ansi_cells(grid, row, grid.width()) + when(
        style_after(grid, row, grid.width()) != crate::grid::plain_style(),
        "\x1b[0m"@,
    )).push('\n')
}

/// The first `n` rows with their escapes.
pub open spec fn ansi_rows(grid: Grid, n: int) -> Seq<char>
    decreases n,
{
    if n <= 0 {
        Seq::empty()
    } else {
        ansi_rows(grid, n - 1) + ansi_row(grid, n - 1)
    }
}

fn push_color_escape(out: &mut Vec<char>, lead: &str, color: Color)
    ensures
        final(out)@ == old(out)@ + color_escape(lead@, color),
{
    match color {
        Color::Default => {},
        Color::Indexed(i) => {
            append_str(out, lead);
            append_str(out, ";5;");
            append_chars(out, &decimal_chars(i as u64));
            append_str(out, "m");
        },
        Color::Rgb { r, g, b } => {
            append_str(out, lead);
            append_str(out, ";2;");
            append_chars(out, &decimal_chars(r as u64));
            append_str(out, ";");
            append_chars(out, &decimal_chars(g as u64));
            append_str(out, ";");
            append_chars(out, &decimal_chars(b as u64));
            append_str(out, "m");
        },
    }
    assert(out@ =~= old(out)@ + color_escape(lead@, color));
}

fn push_style_escapes(out: &mut Vec<char>, style: Style)
    ensures
        final(out)@ == old(out)@ + style_escapes(style),
{
    append_str(out, "\x1b[0m");
    if style.bold {
        append_str(out, "\x1b[1m");
    }
    if style.italic {
        append_str(out, "\x1b[3m");
    }
    if style.underline {
        append_str(out, "\x1b[4m");
    }
    if style.reversed {
        append_str(out, "\x1b[7m");
    }
    push_color_escape(out, "\x1b[38", style.foreground);
    push_color_escape(out, "\x1b[48", style.background);
    assert(out@ =~= old(out)@ + style_escapes(style));
}

fn push_ansi_row(grid: &Grid, row: usize, out: &mut Vec<char>)
    requires
        grid.wf(),
        row < grid.total(),
    ensures
        final(out)@ == old(out)@ + ansi_row(*grid, row as int),
{
    let cols: usize = grid.cols();
    let mut last: Style = Style::default();
    let mut col: usize = 0;
    assert(out@ =~= old(out)@ + ansi_cells(*grid, row as int, 0));
    while col < cols
        invariant
            grid.wf(),
            cols == grid.width(),
            row < grid.total(),
            col <= cols,
            last == style_after(*grid, row as int, col as int),
            out@ == old(out)@ + ansi_cells(*grid, row as int, col as int),
        decreases cols - col,
    {
        if let Some(cell) = grid.absolute_cell(row, col) {
            if cell.ch != '\0' {
                if cell.style != last {
                    push_style_escapes(out, cell.style);
                    last = cell.style;
                }
                out.push(cell.ch);
            }
        }
        assert(out@ =~= old(out)@ + ansi_cells(*grid, row as int, col + 1));
        col = col + 1;
    }
    if last != Style::default() {
        append_str(out, "\x1b[0m");
    }
    out.push('\n');
    assert(out@ =~= old(out)@ + ansi_row(*grid, row as int));
}

/// The whole buffer with ANSI escapes for colors and styles, without the empty
/// rows at the bottom.
pub fn export_scrollback_ansi(grid: &Grid) -> (r: String)
    requires
        grid.wf(),
    ensures
        r@ == ansi_rows(*grid, text_rows(*grid, grid.total())),
{
    let n: usize = count_text_rows(grid);
    let mut out: Vec<char> = Vec::new();
    let mut row: usize = 0;
    while row < n
        invariant
            grid.wf(),
            row <= n <= grid.total(),
            out@ == ansi_rows(*grid, row as int),
        decreases n - row,
    {
        push_ansi_row(grid, row, &mut out);
        row = row + 1;
    }
    string_of(&out)
}

/// Where in the escapes of a text its reading has got to.
pub enum Place {
    /// After the character that starts an escape.
    Escape,
    /// Within an escape.
    Parameters,
    /// Between escapes.
    Text,
}

/// What has been read of a text with escapes.
pub struct Reading {
    pub place: Place,
    pub text: Seq<char>,
}

/// With one more character read.
pub open spec fn char_read(r: Reading, c: char) -> Reading {
    match r.place {
        Place::Escape => if c == '[' {
            Reading { place: Place::Parameters, ..r }
        } else {
            Reading { place: Place::Text, text: r.text.push('\x1b').push(c) }
        },
        Place::Parameters => if c == 'm' {
            Reading { place: Place::Text, ..r }
        } else {
            r
        },
        Place::Text => if c == '\x1b' {
            Reading { place: Place::Escape, ..r }
        } else {
            Reading { text: r.text.push(c), ..r }
        },
    }
}

/// With more text read.
pub open spec fn all_read(r: Reading, more: Seq<char>) -> Reading
    decreases more.len(),
{
    if more.len() == 0 {
        r
    } else {
        char_read(all_read(r, more.drop_last()), more.last())
    }
}

/// `text` without its escapes: without all that goes from an escape character and a bracket
/// up to an `m`.
pub open spec fn without_escapes(text: Seq<char>) -> Seq<char> {
    all_read(Reading { place: Place::Text, text: Seq::empty() }, text).text
}

/// The lines of a text that are done, and the one that is not.
pub struct Lines {
    pub done: Seq<char>,
    pub line: Seq<char>,
}

/// With more text, of which each line that ends loses the white space at its end.
pub open spec fn lines_ended(l: Lines, more: Seq<char>) -> Lines
    decreases more.len(),
{
    if more.len() == 0 {
        l
    } else {
        let before = lines_ended(l, more.drop_last());
        if more.last() == '\n' {
            Lines { done: (before.done + end_trimmed(before.line)).push('\n'), line: Seq::empty() }
        } else {
            Lines { line: before.line.push(more.last()), ..before }
        }
    }
}

/// `text` with each of its lines without the white space at its end.
pub open spec fn each_line_trimmed(text: Seq<char>) -> Seq<char> {
    let l = lines_ended(Lines { done: Seq::empty(), line: Seq::empty() }, text);
    l.done + end_trimmed(l.line)
}

/// The first `n` rows as they are, a line each.
spec fn raw_rows(grid: Grid, n: int) -> Seq<char>
    decreases n,
{
    if n <= 0 {
        Seq::empty()
    } else {
        (raw_rows(grid, n - 1) + cell_text(grid, n - 1, grid.width())).push('\n')
    }
}

/// An escape that has not ended.
spec fn open_escape(s: Seq<char>) -> bool {
    &&& s.len() >= 2
    &&& s[0] == '\x1b'
    &&& s[1] == '['
    &&& forall|i: int| 2 <= i < s.len() ==> #[trigger] s[i] != 'm'
}

/// Something that ends no escape.
spec fn within_escape(s: Seq<char>) -> bool {
    forall|i: int| 0 <= i < s.len() ==> #[trigger] s[i] != 'm'
}

proof fn lemma_read_in_turn(r: Reading, a: Seq<char>, b: Seq<char>)
    ensures
        all_read(r, a + b) == all_read(all_read(r, a), b),
    decreases b.len(),
{
    if b.len() == 0 {
        assert(a + b =~= a);
    } else {
        lemma_read_in_turn(r, a, b.drop_last());
        assert((a + b).drop_last() =~= a + b.drop_last());
    }
}

proof fn lemma_read_char(r: Reading, a: Seq<char>, c: char)
    ensures
        all_read(r, a.push(c)) == char_read(all_read(r, a), c),
{
    assert(a.push(c).drop_last() =~= a);
}

proof fn lemma_open_escape(s: Seq<char>, more: Seq<char>)
    requires
        open_escape(s),
        within_escape(more),
    ensures
        open_escape(s + more),
{
    assert forall|i: int| 2 <= i < (s + more).len() implies #[trigger] (s + more)[i] != 'm' by {
        if i >= s.len() {
            assert((s + more)[i] == more[i - s.len()]);
        }
    }
}

proof fn lemma_open_escape_read(r: Reading, s: Seq<char>)
    requires
        r.place is Text,
        open_escape(s),
    ensures
        all_read(r, s) == (Reading { place: Place::Parameters, ..r }),
    decreases s.len(),
{
    if s.len() == 2 {
        reveal_with_fuel(all_read, 3);
        assert(s.drop_last().drop_last() =~= Seq::empty());
    } else {
        lemma_open_escape_read(r, s.drop_last());
    }
}

proof fn lemma_escape_read(r: Reading, s: Seq<char>)
    requires
        r.place is Text,
        open_escape(s),
    ensures
        all_read(r, s + "m"@) == r,
{
    reveal_strlit("m");
    lemma_open_escape_read(r, s);
    assert(s + "m"@ =~= s.push('m'));
    lemma_read_char(r, s, 'm');
}

proof fn lemma_decimal_within(n: nat)
    ensures
        within_escape(decimal(n)),
    decreases n,
{
    if n >= 10 {
        lemma_decimal_within(n / 10);
    }
}

proof fn lemma_color_read(r: Reading, lead: Seq<char>, color: Color)
    requires
        r.place is Text,
        open_escape(lead),
    ensures
        all_read(r, color_escape(lead, color)) == r,
{
    reveal_strlit(";5;");
    reveal_strlit(";2;");
    reveal_strlit(";");
    match color {
        Color::Default => {},
        Color::Indexed(i) => {
            lemma_decimal_within(i as nat);
            lemma_open_escape(lead, ";5;"@);
            lemma_open_escape(lead + ";5;"@, decimal(i as nat));
            lemma_escape_read(r, lead + ";5;"@ + decimal(i as nat));
        },
        Color::Rgb { r: red, g, b } => {
            lemma_decimal_within(red as nat);
            lemma_decimal_within(g as nat);
            lemma_decimal_within(b as nat);
            let one = lead + ";2;"@;
            lemma_open_escape(lead, ";2;"@);
            let two = one + decimal(red as nat);
            lemma_open_escape(one, decimal(red as nat));
            let three = two + ";"@;
            lemma_open_escape(two, ";"@);
            let four = three + decimal(g as nat);
            lemma_open_escape(three, decimal(g as nat));
            let five = four + ";"@;
            lemma_open_escape(four, ";"@);
            lemma_open_escape(five, decimal(b as nat));
            lemma_escape_read(r, five + decimal(b as nat));
        },
    }
}

proof fn lemma_short_escape_read(r: Reading, s: Seq<char>)
    requires
        r.place is Text,
        s.len() == 4,
        s[0] == '\x1b',
        s[1] == '[',
        s[2] != 'm',
        s[3] == 'm',
    ensures
        all_read(r, s) == r,
{
    reveal_strlit("m");
    lemma_escape_read(r, s.take(3));
    assert(s.take(3) + "m"@ =~= s);
}

proof fn lemma_style_read(r: Reading, style: Style)
    requires
        r.place is Text,
    ensures
        all_read(r, style_escapes(style)) == r,
{
    reveal_strlit("\x1b[0m");
    reveal_strlit("\x1b[1m");
    reveal_strlit("\x1b[3m");
    reveal_strlit("\x1b[4m");
    reveal_strlit("\x1b[7m");
    reveal_strlit("\x1b[38");
    reveal_strlit("\x1b[48");
    let one = "\x1b[0m"@;
    lemma_short_escape_read(r, one);
    let bold = when(style.bold, "\x1b[1m"@);
    lemma_short_escape_read(r, "\x1b[1m"@);
    lemma_read_in_turn(r, one, bold);
    let two = one + bold;
    let italic = when(style.italic, "\x1b[3m"@);
    lemma_short_escape_read(r, "\x1b[3m"@);
    lemma_read_in_turn(r, two, italic);
    let three = two + italic;
    let underline = when(style.underline, "\x1b[4m"@);
    lemma_short_escape_read(r, "\x1b[4m"@);
    lemma_read_in_turn(r, three, underline);
    let four = three + underline;
    let reversed = when(style.reversed, "\x1b[7m"@);
    lemma_short_escape_read(r, "\x1b[7m"@);
    lemma_read_in_turn(r, four, reversed);
    let five = four + reversed;
    lemma_color_read(r, "\x1b[38"@, style.foreground);
    lemma_read_in_turn(r, five, color_escape("\x1b[38"@, style.foreground));
    let six = five + color_escape("\x1b[38"@, style.foreground);
    lemma_color_read(r, "\x1b[48"@, style.background);
    lemma_read_in_turn(r, six, color_escape("\x1b[48"@, style.background));
}

proof fn lemma_cells_read(r: Reading, grid: Grid, row: int, n: int)
    requires
        r.place is Text,
        0 <= n <= grid.width(),
        forall|col: int| 0 <= col < n ==> (#[trigger] grid.cell_at(row, col)).ch != '\x1b',
    ensures
        all_read(r, ansi_cells(grid, row, n)) == (Reading {
            text: r.text + cell_text(grid, row, n),
            ..r
        }),
    decreases n,
{
    if n <= 0 {
        assert(r.text + Seq::<char>::empty() =~= r.text);
    } else {
        lemma_cells_read(r, grid, row, n - 1);
        let cell = grid.cell_at(row, n - 1);
        if cell.ch != '\0' {
            let before = ansi_cells(grid, row, n - 1);
            let read = all_read(r, before);
            let style = when(
                cell.style != style_after(grid, row, n - 1),
                style_escapes(cell.style),
            );
            lemma_style_read(read, cell.style);
            lemma_read_in_turn(r, before, style);
            lemma_read_char(r, before + style, cell.ch);
            assert((r.text + cell_text(grid, row, n - 1)).push(cell.ch) =~= r.text + cell_text(
                grid,
                row,
                n,
            ));
        }
    }
}

proof fn lemma_rows_read(r: Reading, grid: Grid, n: int)
    requires
        r.place is Text,
        r.text.len() == 0,
        grid.wf(),
        0 <= n <= grid.total(),
        forall|row: int, col: int|
            0 <= row < n && 0 <= col < grid.width() ==> (#[trigger] grid.cell_at(row, col)).ch
                != '\x1b',
    ensures
        all_read(r, ansi_rows(grid, n)) == (Reading { text: raw_rows(grid, n), ..r }),
    decreases n,
{
    if n <= 0 {
        assert(r.text =~= Seq::<char>::empty());
    } else {
        lemma_rows_read(r, grid, n - 1);
        let before = ansi_rows(grid, n - 1);
        let read = all_read(r, before);
        let cells = ansi_cells(grid, n - 1, grid.width());
        let reset = when(
            style_after(grid, n - 1, grid.width()) != crate::grid::plain_style(),
            "\x1b[0m"@,
        );
        reveal_strlit("\x1b[0m");
        lemma_cells_read(read, grid, n - 1, grid.width());
        lemma_read_in_turn(read, cells, reset);
        lemma_short_escape_read(all_read(read, cells), "\x1b[0m"@);
        lemma_read_char(read, cells + reset, '\n');
        lemma_read_in_turn(r, before, ansi_row(grid, n - 1));
    }
}

proof fn lemma_line_goes_on(l: Lines, grid: Grid, row: int, before: Seq<char>, n: int)
    requires
        0 <= n <= grid.width(),
        forall|col: int| 0 <= col < n ==> (#[trigger] grid.cell_at(row, col)).ch != '\n',
        lines_ended(l, before).line.len() == 0,
    ensures
        lines_ended(l, before + cell_text(grid, row, n)) == (Lines {
            line: cell_text(grid, row, n),
            ..lines_ended(l, before)
        }),
    decreases n,
{
    if n <= 0 {
        assert(before + Seq::<char>::empty() =~= before);
        assert(lines_ended(l, before).line =~= Seq::<char>::empty());
    } else {
        lemma_line_goes_on(l, grid, row, before, n - 1);
        if grid.cell_at(row, n - 1).ch != '\0' {
            assert((before + cell_text(grid, row, n)).drop_last() =~= before + cell_text(
                grid,
                row,
                n - 1,
            ));
        }
    }
}

proof fn lemma_raw_rows_trimmed(l: Lines, grid: Grid, n: int)
    requires
        l.done.len() == 0,
        l.line.len() == 0,
        grid.wf(),
        0 <= n <= grid.total(),
        forall|row: int, col: int|
            0 <= row < n && 0 <= col < grid.width() ==> (#[trigger] grid.cell_at(row, col)).ch
                != '\n',
    ensures
        lines_ended(l, raw_rows(grid, n)) == (Lines {
            done: if n == 0 {
                Seq::empty()
            } else {
                plain_rows(grid, n).push('\n')
            },
            line: Seq::empty(),
        }),
    decreases n,
{
    if n <= 0 {
        assert(l.done =~= Seq::<char>::empty());
        assert(l.line =~= Seq::<char>::empty());
    } else {
        lemma_raw_rows_trimmed(l, grid, n - 1);
        let before = raw_rows(grid, n - 1);
        lemma_line_goes_on(l, grid, n - 1, before, grid.width());
        assert(raw_rows(grid, n).drop_last() =~= before + cell_text(grid, n - 1, grid.width()));
        assert((lines_ended(l, before).done + plain_row(grid, n - 1)).push('\n') =~= plain_rows(
            grid,
            n,
        ).push('\n'));
    }
}

/// The two exports of a buffer that holds neither escapes nor line breaks of its own say the
/// same: without its escapes, and without the white space at the end of each line, the one
/// with escapes is the plain one, with a line break after its last row too. What colors a
/// theme has makes no difference to either.
pub proof fn law_both_exports_say_the_same(grid: Grid)
    requires
        grid.wf(),
        forall|row: int, col: int|
            0 <= row < grid.total() && 0 <= col < grid.width() ==> (#[trigger] grid.cell_at(
                row,
                col,
            )).ch != '\x1b' && grid.cell_at(row, col).ch != '\n',
    ensures
        ({
            let n = text_rows(grid, grid.total());
            each_line_trimmed(without_escapes(ansi_rows(grid, n))) == (if n == 0 {
                plain_rows(grid, n)
            } else {
                plain_rows(grid, n).push('\n')
            })
        }),
{
    let n = text_rows(grid, grid.total());
    lemma_text_rows(grid, grid.total());
    let start = Reading { place: Place::Text, text: Seq::empty() };
    let none = Lines { done: Seq::empty(), line: Seq::empty() };
    lemma_rows_read(start, grid, n);
    lemma_raw_rows_trimmed(none, grid, n);
    let l = lines_ended(none, raw_rows(grid, n));
    assert(l.done + end_trimmed(l.line) =~= l.done);
}

proof fn lemma_text_rows(grid: Grid, n: int)
    requires
        0 <= n,
    ensures
        0 <= text_rows(grid, n) <= n,
    decreases n,
{
    if n > 0 {
        lemma_text_rows(grid, n - 1);
    }
}

// ------------------------------------------------------------------------
// HTML
// ------------------------------------------------------------------------

/// A character as HTML text.
pub open spec fn escaped_char(c: char) -> Seq<char> {
    if c == '&' {
        "&amp;"@
    } else if c == '<' {
        "&lt;"@
    } else if c == '>' {
        "&gt;"@
    } else if c == '"' {
        "&quot;"@
    } else if c == '\'' {
        "&#39;"@
    } else {
        seq![c]
    }
}

/// `text` as HTML text.
pub open spec fn escaped(text: Seq<char>) -> Seq<char>
    decreases text.len(),
{
    if text.len() == 0 {
        Seq::empty()
    } else {
        escaped(text.drop_last()) + escaped_char(text.last())
    }
}

fn push_escaped(out: &mut Vec<char>, c: char)
    ensures
        final(out)@ == old(out)@ + escaped_char(c),
{
    match c {
        '&' => append_str(out, "&amp;"),
        '<' => append_str(out, "&lt;"),
        '>' => append_str(out, "&gt;"),
        '"' => append_str(out, "&quot;"),
        '\'' => append_str(out, "&#39;"),
        _ => {
            out.push(c);
            assert(out@ =~= old(out)@ + seq![c]);
        },
    }
}

/// Escape text for HTML.
pub fn html_escape(s: &str) -> (r: String)
    ensures
        r@ == escaped(s@),
{
    let chars = chars_of(s);
    let mut out: Vec<char> = Vec::new();
    let mut i: usize = 0;
    while i < chars.len()
        invariant
            i <= chars@.len(),
            out@ == escaped(chars@.take(i as int)),
        decreases chars@.len() - i,
    {
        push_escaped(&mut out, chars[i]);
        assert(chars@.take(i + 1).drop_last() =~= chars@.take(i as int));
        i = i + 1;
    }
    assert(chars@.take(chars@.len() as int) =~= chars@);
    string_of(&out)
}

/// Whether `c` means something to HTML where text stands.
pub open spec fn is_markup(c: char) -> bool {
    c == '<' || c == '>' || c == '"' || c == '\''
}

/// Escaped text holds no character that would be read as markup.
pub proof fn law_escaped_text_is_inert(text: Seq<char>, i: int)
    requires
        0 <= i < escaped(text).len(),
    ensures
        !is_markup(escaped(text)[i]),
    decreases text.len(),
{
    reveal_strlit("&amp;");
    reveal_strlit("&lt;");
    reveal_strlit("&gt;");
    reveal_strlit("&quot;");
    reveal_strlit("&#39;");
    if text.len() > 0 {
        let before = escaped(text.drop_last());
        if i < before.len() {
            law_escaped_text_is_inert(text.drop_last(), i);
        } else {
            assert(escaped(text)[i] == escaped_char(text.last())[i - before.len()]);
        }
    }
}

/// A declaration of a color, when the cell has one of its own.
pub open spec fn css_color(property: Seq<char>, color: Color, theme: Theme) -> Seq<char> {
    match color {
        Color::Default => Seq::empty(),
        Color::Indexed(i) => property + hex_color(theme.ansi[i as int % 16]) + ";"@,
        Color::Rgb { r, g, b } => property + hex_color(Rgb { r, g, b }) + ";"@,
    }
}

/// The declarations that draw a style.
pub open spec fn css_style(style: Style, theme: Theme) -> Seq<char> {
    when(style.bold, "font-weight:bold;"@) + when(style.italic, "font-style:italic;"@) + when(
        style.underline,
        "text-decoration:underline;"@,
    ) + css_color("color:"@, style.foreground, theme) + css_color(
        "background-color:"@,
        style.background,
        theme,
    )
}

/// A cell as HTML: in a span of its own where it has a style.
pub open spec fn html_cell(cell: Cell, theme: Theme) -> Seq<char> {
    let css = css_style(cell.style, theme);
    if cell.ch == '\0' {
        Seq::empty()
    } else if css.len() == 0 {
        escaped_char(cell.ch)
    } else {
        "<span style=\""@ + css + "\">"@ + escaped_char(cell.ch) + "</span>"@
    }
}

/// The first `n` cells of a row as HTML.
pub open spec fn html_cells(grid: Grid, theme: Theme, row: int, n: int) -> Seq<char>
    decreases n,
{
    if n <= 0 {
        Seq::empty()
    } else {
        html_cells(grid, theme, row, n - 1) + html_cell(grid.cell_at(row, n - 1), theme)
    }
}

/// The first `n` rows as HTML.
pub open spec fn html_rows(grid: Grid, theme: Theme, n: int) -> Seq<char>
    decreases n,
{
    if n <= 0 {
        Seq::empty()
    } else {
        (html_rows(grid, theme, n - 1) + html_cells(grid, theme, n - 1, grid.width())).push('\n')
    }
}

/// The document around the rows.
pub open spec fn html_document(body: Seq<char>, theme: Theme) -> Seq<char> {
    "<!DOCTYPE html>\n<html>\n<head>\n<meta charset=\"utf-8\">\n<title>Winter Terminal Scrollback Export</title>\n<style>\nbody {\n  background-color: "@
        + hex_color(theme.background) + ";\n  color: "@ + hex_color(theme.foreground)
        + ";\n  font-family: monospace;\n  margin: 16px;\n  line-height: 1.2;\n}\npre {\n  margin: 0;\n  white-space: pre-wrap;\n  word-break: break-all;\n}\n</style>\n</head>\n<body>\n<pre>"@
        + body + "</pre>\n</body>\n</html>\n"@
}

fn push_css_color(out: &mut Vec<char>, property: &str, color: Color, theme: &Theme)
    ensures
        final(out)@ == old(out)@ + css_color(property@, color, *theme),
{
    match color {
        Color::Default => {},
        Color::Indexed(i) => {
            append_str(out, property);
            let slot: usize = i as usize % 16;
            theme.ansi[slot].push_hex(out);
            append_str(out, ";");
        },
        Color::Rgb { r, g, b } => {
            append_str(out, property);
            Rgb { r, g, b }.push_hex(out);
            append_str(out, ";");
        },
    }
    assert(out@ =~= old(out)@ + css_color(property@, color, *theme));
}

fn css_chars(style: Style, theme: &Theme) -> (r: Vec<char>)
    ensures
        r@ == css_style(style, *theme),
{
    let mut css: Vec<char> = Vec::new();
    if style.bold {
        append_str(&mut css, "font-weight:bold;");
    }
    if style.italic {
        append_str(&mut css, "font-style:italic;");
    }
    if style.underline {
        append_str(&mut css, "text-decoration:underline;");
    }
    push_css_color(&mut css, "color:", style.foreground, theme);
    push_css_color(&mut css, "background-color:", style.background, theme);
    assert(css@ =~= css_style(style, *theme));
    css
}

fn push_html_cell(out: &mut Vec<char>, cell: Cell, theme: &Theme)
    ensures
        final(out)@ == old(out)@ + html_cell(cell, *theme),
{
    if cell.ch == '\0' {
        assert(out@ =~= old(out)@ + Seq::empty());
        return;
    }
    let css = css_chars(cell.style, theme);
    if css.len() == 0 {
        push_escaped(out, cell.ch);
    } else {
        append_str(out, "<span style=\"");
        append_chars(out, &css);
        append_str(out, "\">");
        push_escaped(out, cell.ch);
        append_str(out, "</span>");
    }
    assert(out@ =~= old(out)@ + html_cell(cell, *theme));
}

fn push_html_row(grid: &Grid, theme: &Theme, row: usize, out: &mut Vec<char>)
    requires
        grid.wf(),
        row < grid.total(),
    ensures
        final(out)@ == (old(out)@ + html_cells(*grid, *theme, row as int, grid.width())).push('\n'),
{
    let cols: usize = grid.cols();
    let mut col: usize = 0;
    assert(out@ =~= old(out)@ + html_cells(*grid, *theme, row as int, 0));
    while col < cols
        invariant
            grid.wf(),
            cols == grid.width(),
            row < grid.total(),
            col <= cols,
            out@ == old(out)@ + html_cells(*grid, *theme, row as int, col as int),
        decreases cols - col,
    {
        if let Some(cell) = grid.absolute_cell(row, col) {
            push_html_cell(out, cell, theme);
        }
        assert(out@ =~= old(out)@ + html_cells(*grid, *theme, row as int, col + 1));
        col = col + 1;
    }
    out.push('\n');
}

/// The whole buffer as a standalone HTML document, without the empty rows at the
/// bottom.
pub fn export_scrollback_html(grid: &Grid, theme: &Theme) -> (r: String)
    requires
        grid.wf(),
    ensures
        r@ == html_document(
            html_rows(*grid, *theme, text_rows(*grid, grid.total())),
            *theme,
        ),
{
    let n: usize = count_text_rows(grid);
    let mut body: Vec<char> = Vec::new();
    let mut row: usize = 0;
    while row < n
        invariant
            grid.wf(),
            row <= n <= grid.total(),
            body@ == html_rows(*grid, *theme, row as int),
        decreases n - row,
    {
        push_html_row(grid, theme, row, &mut body);
        row = row + 1;
    }
    let mut out: Vec<char> = Vec::new();
    append_str(
        &mut out,
        "<!DOCTYPE html>\n<html>\n<head>\n<meta charset=\"utf-8\">\n<title>Winter Terminal Scrollback Export</title>\n<style>\nbody {\n  background-color: ",
    );
    theme.background.push_hex(&mut out);
    append_str(&mut out, ";\n  color: ");
    theme.foreground.push_hex(&mut out);
    append_str(
        &mut out,
        ";\n  font-family: monospace;\n  margin: 16px;\n  line-height: 1.2;\n}\npre {\n  margin: 0;\n  white-space: pre-wrap;\n  word-break: break-all;\n}\n</style>\n</head>\n<body>\n<pre>",
    );
    append_chars(&mut out, &body);
    append_str(&mut out, "</pre>\n</body>\n</html>\n");
    assert(out@ =~= html_document(body@, *theme));
    string_of(&out)
}

} // verus!
