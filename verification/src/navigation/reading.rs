//! Reading aids: alternating bands, one for each sentence, and the nesting depth
//! of brackets.

use vstd::prelude::*;
use crate::grid::Grid;
use crate::navigation::export::{Rgb, Theme};
use crate::navigation::vim::{absolute_row_chars, printed_row, printed_row_chars};
use crate::text::{greatest, is_digit, is_uppercase_char, is_white, max_of, minus};

verus! {

broadcast use {Grid::lemma_bounds, Grid::lemma_scrolled};

/// How many rows above the view are scanned, so that a sentence begun there or a bracket
/// opened there tells on what is in view.
pub const LOOKBACK_ROWS: usize = 40;

/// The depth of a closing bracket that closes nothing.
pub const UNMATCHED_DEPTH: usize = usize::MAX;

// ------------------------------------------------------------------------
// Sentences
// ------------------------------------------------------------------------

/// One row's share of a sentence's band: columns `col_start` up to `col_end` of
/// row `row` of the view. The tone alternates from each sentence to the next.
#[derive(Clone, Copy, Debug, PartialEq, Eq, Structural)]
pub struct SentenceSpan {
    pub col_end: usize,
    pub col_start: usize,
    pub row: usize,
    pub tone: u8,
}

/// A character and the row and column it is at, the rows counted from some first one.
#[derive(Clone, Copy, Debug, PartialEq, Eq, Structural)]
pub struct PlacedChar {
    pub ch: char,
    pub row: usize,
    pub col: usize,
}

/// Whether `c` ends a sentence.
pub open spec fn is_terminator(c: char) -> bool {
    c == '.' || c == '!' || c == '?'
}

/// Whether `c` closes what a sentence stands in.
pub open spec fn is_wrap(c: char) -> bool {
    c == '"' || c == '\'' || c == '`' || c == ')' || c == ']' || c == '}' || c == '\u{bb}' || c
        == '\u{2026}'
}

/// Whether `c` can start a sentence that follows another.
pub open spec fn is_opening(c: char) -> bool {
    is_uppercase_char(c) || is_digit(c)
}

/// Where the blanks before index `i` start.
pub open spec fn blanks_start(chars: Seq<PlacedChar>, i: int) -> int
    decreases i,
{
    if 0 < i <= chars.len() && is_white(chars[i - 1].ch) {
        blanks_start(chars, i - 1)
    } else {
        i
    }
}

/// Whether the run of terminators and closing marks that ends before `i` holds a
/// terminator.
pub open spec fn terminated(chars: Seq<PlacedChar>, i: int) -> bool
    decreases i,
{
    0 < i <= chars.len() && (is_terminator(chars[i - 1].ch) || is_wrap(chars[i - 1].ch)
        && terminated(chars, i - 1))
}

/// Whether something parts index `i` from what is printed before it: blanks, or the end of
/// a row, whose own blanks are left out.
pub open spec fn parted_at(chars: Seq<PlacedChar>, i: int) -> bool {
    blanks_start(chars, i) < i || chars[i].row != chars[i - 1].row
}

/// A new sentence starts at `i`: an uppercase letter or a digit, after a terminator
/// with whatever marks close after it, and parted from them.
pub open spec fn breaks_at(chars: Seq<PlacedChar>, i: int) -> bool {
    &&& 0 < i < chars.len()
    &&& !is_white(chars[i].ch)
    &&& is_opening(chars[i].ch)
    &&& parted_at(chars, i)
    &&& terminated(chars, blanks_start(chars, i))
}

/// The first index from `i` on at which a new sentence starts, or the end.
pub open spec fn next_break(chars: Seq<PlacedChar>, i: int) -> int
    decreases chars.len() - i,
{
    if i < 0 || i >= chars.len() {
        chars.len() as int
    } else if breaks_at(chars, i) {
        i
    } else {
        next_break(chars, i + 1)
    }
}

/// The first index from `i` on that is not blank, or the end.
pub open spec fn next_printed(chars: Seq<PlacedChar>, i: int) -> int
    decreases chars.len() - i,
{
    if 0 <= i < chars.len() && is_white(chars[i].ch) {
        next_printed(chars, i + 1)
    } else {
        i
    }
}

/// Where the characters from `i` up to `end` that share row `row` end.
pub open spec fn row_run_end(chars: Seq<PlacedChar>, i: int, end: int, row: usize) -> int
    decreases end - i,
{
    if 0 <= i < end && chars[i].row == row {
        row_run_end(chars, i + 1, end, row)
    } else {
        i
    }
}

/// The column after the rightmost of the characters from `i` up to `end`, and at
/// least `so_far`.
pub open spec fn right_edge(chars: Seq<PlacedChar>, i: int, end: int, so_far: int) -> int
    decreases end - i,
{
    if i >= end {
        so_far
    } else {
        right_edge(chars, i + 1, end, greatest(so_far, chars[i].col + 1))
    }
}

/// A band by its parts.
pub struct Band {
    pub row: int,
    pub col_start: int,
    pub col_end: int,
    pub tone: int,
}

/// The bands of the characters from `i` up to `end`, one for each row.
pub open spec fn bands(chars: Seq<PlacedChar>, i: int, end: int, tone: int) -> Seq<Band>
    decreases end - i,
{
    if i < 0 || i >= end {
        Seq::empty()
    } else {
        proof {
            lemma_row_run_end(chars, i + 1, end, chars[i].row);
        }
        let stop = row_run_end(chars, i + 1, end, chars[i].row);
        let first = Band {
            row: chars[i].row as int,
            col_start: chars[i].col as int,
            col_end: right_edge(chars, i + 1, stop, chars[i].col + 1),
            tone,
        };
        seq![first] + bands(chars, stop, end, tone)
    }
}

/// The bands of the sentence from `start` up to `end`, without the blanks at its
/// end.
pub open spec fn sentence_bands(chars: Seq<PlacedChar>, start: int, end: int, tone: int) -> Seq<
    Band,
> {
    bands(chars, start, greatest(start, blanks_start(chars, end)), tone)
}

/// The bands of the sentences from the one that starts at `start` on.
pub open spec fn paragraph_bands(chars: Seq<PlacedChar>, start: int, tone: int) -> Seq<Band>
    decreases chars.len() - start,
{
    if start < 0 || start >= chars.len() {
        Seq::empty()
    } else {
        proof {
            lemma_next_break(chars, start + 1);
        }
        let next = next_break(chars, start + 1);
        sentence_bands(chars, start, next, tone) + paragraph_bands(chars, next, 1 - tone)
    }
}

impl View for SentenceSpan {
    type V = Band;

    open spec fn view(&self) -> Band {
        Band {
            row: self.row as int,
            col_start: self.col_start as int,
            col_end: self.col_end as int,
            tone: self.tone as int,
        }
    }
}

/// Spans by their views.
pub open spec fn span_views(spans: Seq<SentenceSpan>) -> Seq<Band> {
    Seq::new(spans.len(), |i: int| spans[i]@)
}

/// The tone of the sentence after those already banded: the other one.
pub open spec fn tone_after(spans: Seq<Band>) -> int {
    if spans.len() == 0 || spans.last().tone == 1 {
        0
    } else {
        1
    }
}

/// The bands after another paragraph.
pub open spec fn with_paragraph(spans: Seq<Band>, chars: Seq<PlacedChar>) -> Seq<Band> {
    spans + paragraph_bands(chars, next_printed(chars, 0), tone_after(spans))
}

/// No character is in the last column a number can name.
pub open spec fn columns_fit(chars: Seq<PlacedChar>) -> bool {
    forall|i: int| 0 <= i < chars.len() ==> (#[trigger] chars[i]).col < usize::MAX
}

pub proof fn lemma_row_run_end(chars: Seq<PlacedChar>, i: int, end: int, row: usize)
    requires
        0 <= i <= end,
    ensures
        i <= row_run_end(chars, i, end, row) <= end,
    decreases end - i,
{
    if i < end && chars[i].row == row {
        lemma_row_run_end(chars, i + 1, end, row);
    }
}

proof fn lemma_blanks_start(chars: Seq<PlacedChar>, i: int)
    requires
        0 <= i <= chars.len(),
    ensures
        0 <= blanks_start(chars, i) <= i,
    decreases i,
{
    if i > 0 && is_white(chars[i - 1].ch) {
        lemma_blanks_start(chars, i - 1);
    }
}

pub proof fn lemma_next_break(chars: Seq<PlacedChar>, i: int)
    requires
        0 <= i <= chars.len(),
    ensures
        i <= next_break(chars, i) <= chars.len(),
    decreases chars.len() - i,
{
    if i < chars.len() && !breaks_at(chars, i) {
        lemma_next_break(chars, i + 1);
    }
}

/// Append the bands of one sentence, `chars[start..end)`, one for each row and
/// without the blanks at its end. Without a start there is no sentence.
pub fn close_span(
    chars: &Vec<PlacedChar>,
    start: Option<usize>,
    end: usize,
    tone: u8,
    spans: &mut Vec<SentenceSpan>,
)
    requires
        end <= chars@.len(),
        columns_fit(chars@),
    ensures
        span_views(final(spans)@) == (match start {
            Some(start) => span_views(old(spans)@) + sentence_bands(
                chars@,
                start as int,
                end as int,
                tone as int,
            ),
            None => span_views(old(spans)@),
        }),
{
    let first: usize = match start {
        Some(start) => start,
        None => {
            return;
        },
    };
    let mut stop: usize = end;
    while stop > 0 && chars[stop - 1].ch.is_whitespace()
        invariant
            stop <= end <= chars@.len(),
            blanks_start(chars@, end as int) == blanks_start(chars@, stop as int),
        decreases stop,
    {
        stop = stop - 1;
    }
    assert(stop == blanks_start(chars@, end as int));
    if stop <= first {
        assert(span_views(spans@) =~= span_views(spans@) + Seq::empty());
        return;
    }
    let mut i: usize = first;
    let ghost before = span_views(spans@);
    let ghost whole = bands(chars@, first as int, stop as int, tone as int);
    assert(before + whole =~= span_views(spans@) + whole);
    while i < stop
        invariant
            first <= i <= stop <= chars@.len(),
            columns_fit(chars@),
            whole == bands(chars@, first as int, stop as int, tone as int),
            before + whole == span_views(spans@) + bands(
                chars@,
                i as int,
                stop as int,
                tone as int,
            ),
        decreases stop - i,
    {
        let row: usize = chars[i].row;
        let col_start: usize = chars[i].col;
        assert(columns_fit(chars@) ==> chars@[i as int].col < usize::MAX);
        let mut col_end: usize = col_start + 1;
        let mut j: usize = i + 1;
        proof {
            lemma_row_run_end(chars@, i + 1, stop as int, row);
        }
        let ghost edge = row_run_end(chars@, i + 1, stop as int, row);
        let ghost right = right_edge(chars@, i + 1, edge, col_start + 1);
        while j < stop && chars[j].row == row
            invariant
                i < j <= edge <= stop <= chars@.len(),
                columns_fit(chars@),
                edge == row_run_end(chars@, j as int, stop as int, row),
                right == right_edge(chars@, j as int, edge, col_end as int),
            decreases stop - j,
        {
            assert(chars@[j as int].col < usize::MAX);
            proof {
                lemma_row_run_end(chars@, j + 1, stop as int, row);
            }
            col_end = max_of(col_end, chars[j].col + 1);
            j = j + 1;
        }
        let ghost mid = spans@;
        spans.push(SentenceSpan { col_end, col_start, row, tone });
        proof {
            let added = Band {
                row: row as int,
                col_start: col_start as int,
                col_end: col_end as int,
                tone: tone as int,
            };
            assert(span_views(spans@) =~= span_views(mid).push(added));
            assert(bands(chars@, i as int, stop as int, tone as int) =~= seq![added] + bands(
                chars@,
                j as int,
                stop as int,
                tone as int,
            ));
            assert(span_views(mid) + (seq![added] + bands(
                chars@,
                j as int,
                stop as int,
                tone as int,
            )) =~= span_views(spans@) + bands(chars@, j as int, stop as int, tone as int));
        }
        i = j;
    }
    assert(span_views(spans@) + bands(chars@, i as int, stop as int, tone as int) =~= span_views(
        spans@,
    ));
}

/// Whether a new sentence starts at `i`.
fn starts_sentence(chars: &Vec<PlacedChar>, i: usize) -> (r: bool)
    requires
        i < chars@.len(),
    ensures
        r == breaks_at(chars@, i as int),
{
    let ch: char = chars[i].ch;
    if i == 0 || ch.is_whitespace() {
        return false;
    }
    if !(ch.is_uppercase() || ('0' <= ch && ch <= '9')) {
        return false;
    }
    let mut b: usize = i;
    while b > 0 && chars[b - 1].ch.is_whitespace()
        invariant
            b <= i < chars@.len(),
            blanks_start(chars@, i as int) == blanks_start(chars@, b as int),
        decreases b,
    {
        b = b - 1;
    }
    if b == i && chars[i].row == chars[i - 1].row {
        return false;
    }
    let ghost bound = b as int;
    while b > 0
        invariant
            b <= i < chars@.len(),
            terminated(chars@, bound) == terminated(chars@, b as int),
            bound == blanks_start(chars@, i as int),
            breaks_at(chars@, i as int) == terminated(chars@, bound),
        decreases b,
    {
        let c: char = chars[b - 1].ch;
        if c == '.' || c == '!' || c == '?' {
            return true;
        }
        if !(c == '"' || c == '\'' || c == '`' || c == ')' || c == ']' || c == '}' || c == '\u{bb}'
            || c == '\u{2026}') {
            return false;
        }
        b = b - 1;
    }
    false
}

/// Append the bands of each sentence of one paragraph. A terminator, with whatever
/// marks close after it, ends a sentence only when blanks or the end of its row follow,
/// and then an uppercase letter or a digit; anything else goes on with the sentence.
pub fn emit_sentence_spans(chars: &Vec<PlacedChar>, spans: &mut Vec<SentenceSpan>)
    requires
        columns_fit(chars@),
    ensures
        span_views(final(spans)@) == with_paragraph(span_views(old(spans)@), chars@),
{
    let mut tone: u8 = if spans.len() == 0 || spans[spans.len() - 1].tone == 1 {
        0
    } else {
        1
    };
    let mut start: usize = 0;
    while start < chars.len() && chars[start].ch.is_whitespace()
        invariant
            start <= chars@.len(),
            next_printed(chars@, 0) == next_printed(chars@, start as int),
        decreases chars@.len() - start,
    {
        start = start + 1;
    }
    let ghost whole = span_views(spans@) + paragraph_bands(chars@, start as int, tone as int);
    while start < chars.len()
        invariant
            start <= chars@.len(),
            columns_fit(chars@),
            tone == 0 || tone == 1,
            whole == span_views(spans@) + paragraph_bands(chars@, start as int, tone as int),
        decreases chars@.len() - start,
    {
        let mut next: usize = start + 1;
        proof {
            lemma_next_break(chars@, start + 1);
        }
        while next < chars.len() && !starts_sentence(chars, next)
            invariant
                start < next <= chars@.len(),
                next_break(chars@, start + 1) == next_break(chars@, next as int),
            decreases chars@.len() - next,
        {
            next = next + 1;
        }
        let ghost mid = span_views(spans@);
        close_span(chars, Some(start), next, tone, spans);
        proof {
            assert(mid + paragraph_bands(chars@, start as int, tone as int) =~= span_views(spans@)
                + paragraph_bands(chars@, next as int, 1 - tone));
        }
        tone = 1 - tone;
        start = next;
    }
    assert(span_views(spans@) + paragraph_bands(chars@, start as int, tone as int) =~= span_views(
        spans@,
    ));
}

// ------------------------------------------------------------------------
// The printed text of rows
// ------------------------------------------------------------------------

/// A character at a row and column.
pub open spec fn placed(ch: char, row: int, col: int) -> PlacedChar {
    PlacedChar { ch, row: row as usize, col: col as usize }
}

/// The printed characters of absolute row `row`, with their places from row `base` on.
pub open spec fn placed_row(grid: Grid, base: int, row: int) -> Seq<PlacedChar> {
    Seq::new(
        printed_row(grid, row).len(),
        |col: int| placed(printed_row(grid, row)[col], row - base, col),
    )
}

/// The printed characters of absolute rows `first` up to `end`, with their places from
/// row `base` on.
pub open spec fn placed_rows(grid: Grid, base: int, first: int, end: int) -> Seq<PlacedChar>
    decreases end - first,
{
    if end <= first {
        Seq::empty()
    } else {
        placed_rows(grid, base, first, end - 1) + placed_row(grid, base, end - 1)
    }
}

/// No character of `chars` is printed.
pub open spec fn all_white(chars: Seq<PlacedChar>) -> bool {
    forall|i: int| 0 <= i < chars.len() ==> is_white((#[trigger] chars[i]).ch)
}

/// The row after the last that the line of absolute row `row` is on, up to `stop`.
pub open spec fn line_stop(grid: Grid, row: int, stop: int) -> int
    decreases stop - row,
{
    if row + 1 < stop && grid.wraps_at(row) {
        line_stop(grid, row + 1, stop)
    } else {
        row + 1
    }
}

/// The bands of absolute rows `row` up to `stop`, after `spans`, with the paragraph so far
/// in `pending`: a blank line ends a paragraph, and other lines go on with it. Rows are
/// counted from `base`.
pub open spec fn bands_from(
    grid: Grid,
    base: int,
    row: int,
    stop: int,
    pending: Seq<PlacedChar>,
    spans: Seq<Band>,
) -> Seq<Band>
    decreases stop - row,
{
    if row >= stop {
        with_paragraph(spans, pending)
    } else {
        proof {
            lemma_line_stop(grid, row, stop);
        }
        let end = line_stop(grid, row, stop);
        let line = placed_rows(grid, base, row, end);
        if all_white(line) {
            bands_from(grid, base, end, stop, Seq::empty(), with_paragraph(spans, pending))
        } else {
            bands_from(grid, base, end, stop, pending + line, spans)
        }
    }
}

/// The bands from row `above` on, with rows counted from there.
pub open spec fn bands_below(spans: Seq<Band>, above: int) -> Seq<Band>
    decreases spans.len(),
{
    if spans.len() == 0 {
        Seq::empty()
    } else {
        let before = bands_below(spans.drop_last(), above);
        let last = spans.last();
        if last.row >= above {
            before.push(Band { row: last.row - above, ..last })
        } else {
            before
        }
    }
}

/// The first of the rows above the view that are scanned.
pub open spec fn lookback_start(grid: Grid) -> int {
    minus(grid.top(), LOOKBACK_ROWS as int)
}

/// The bands over the view. Sentences are followed from the rows just above it on, so that
/// one begun there goes on, and the first tone in view is the one that is due.
pub open spec fn view_bands(grid: Grid) -> Seq<Band> {
    let from = lookback_start(grid);
    bands_below(
        bands_from(
            grid,
            from,
            from,
            grid.top() + grid.height(),
            Seq::empty(),
            Seq::empty(),
        ),
        grid.top() - from,
    )
}

pub proof fn lemma_line_stop(grid: Grid, row: int, stop: int)
    requires
        row < stop,
    ensures
        row < line_stop(grid, row, stop) <= stop,
    decreases stop - row,
{
    if row + 1 < stop && grid.wraps_at(row) {
        lemma_line_stop(grid, row + 1, stop);
    }
}

fn find_line_stop(grid: &Grid, row: usize, stop: usize) -> (r: usize)
    requires
        grid.wf(),
        row < stop <= grid.total(),
    ensures
        r == line_stop(*grid, row as int, stop as int),
        row < r <= stop,
{
    let mut last: usize = row;
    while last + 1 < stop && grid.absolute_row_wraps(last)
        invariant
            grid.wf(),
            row <= last < stop <= grid.total(),
            line_stop(*grid, row as int, stop as int) == line_stop(*grid, last as int, stop as int),
        decreases stop - last,
    {
        last = last + 1;
    }
    last + 1
}

fn place(ch: char, row: usize, col: usize) -> (r: PlacedChar)
    ensures
        r == placed(ch, row as int, col as int),
{
    PlacedChar { ch, row, col }
}

/// Append the printed characters of absolute row `row` to `chars`.
fn push_row(grid: &Grid, base: usize, row: usize, chars: &mut Vec<PlacedChar>)
    requires
        grid.wf(),
        base <= row < grid.total(),
        columns_fit(old(chars)@),
    ensures
        final(chars)@ == old(chars)@ + placed_row(*grid, base as int, row as int),
        columns_fit(final(chars)@),
        final(chars)@.len() <= old(chars)@.len() + grid.width(),
{
    let line = printed_row_chars(grid, row);
    let ghost whole = placed_row(*grid, base as int, row as int);
    let mut col: usize = 0;
    while col < line.len()
        invariant
            grid.wf(),
            base <= row,
            col <= line@.len() <= grid.width(),
            line@ == printed_row(*grid, row as int),
            whole == placed_row(*grid, base as int, row as int),
            chars@ == old(chars)@ + whole.take(col as int),
            columns_fit(chars@),
        decreases line@.len() - col,
    {
        chars.push(place(line[col], row - base, col));
        assert(whole.take(col + 1) =~= whole.take(col as int).push(whole[col as int]));
        assert(chars@ =~= old(chars)@ + whole.take(col + 1));
        col = col + 1;
    }
    assert(whole.take(col as int) =~= whole);
}

/// The printed characters of absolute rows `first` up to `end`.
fn place_rows(grid: &Grid, base: usize, first: usize, end: usize) -> (chars: Vec<PlacedChar>)
    requires
        grid.wf(),
        base <= first <= end <= grid.total(),
    ensures
        chars@ == placed_rows(*grid, base as int, first as int, end as int),
        columns_fit(chars@),
        chars@.len() <= (end - first) * grid.width(),
{
    let mut chars: Vec<PlacedChar> = Vec::new();
    let mut row: usize = first;
    while row < end
        invariant
            grid.wf(),
            base <= first <= row <= end <= grid.total(),
            chars@ == placed_rows(*grid, base as int, first as int, row as int),
            columns_fit(chars@),
            chars@.len() <= (row - first) * grid.width(),
        decreases end - row,
    {
        push_row(grid, base, row, &mut chars);
        assert((row + 1 - first) * grid.width() == (row - first) * grid.width() + grid.width())
            by (nonlinear_arith);
        row = row + 1;
    }
    chars
}

/// Whether no character of `chars` is printed.
fn nothing_printed(chars: &Vec<PlacedChar>) -> (r: bool)
    ensures
        r == all_white(chars@),
{
    let mut i: usize = 0;
    while i < chars.len()
        invariant
            i <= chars@.len(),
            forall|j: int| 0 <= j < i ==> is_white((#[trigger] chars@[j]).ch),
        decreases chars@.len() - i,
    {
        if !chars[i].ch.is_whitespace() {
            assert(!is_white(chars@[i as int].ch));
            return false;
        }
        i = i + 1;
    }
    true
}

fn append_placed(chars: &mut Vec<PlacedChar>, more: &Vec<PlacedChar>)
    requires
        columns_fit(old(chars)@),
        columns_fit(more@),
    ensures
        final(chars)@ == old(chars)@ + more@,
        columns_fit(final(chars)@),
{
    let mut i: usize = 0;
    while i < more.len()
        invariant
            i <= more@.len(),
            chars@ == old(chars)@ + more@.take(i as int),
            columns_fit(chars@),
            columns_fit(more@),
        decreases more@.len() - i,
    {
        let p: PlacedChar = more[i];
        assert(more@[i as int].col < usize::MAX);
        chars.push(p);
        assert(more@.take(i + 1) =~= more@.take(i as int).push(more@[i as int]));
        assert(chars@ =~= old(chars)@ + more@.take(i + 1));
        i = i + 1;
    }
    assert(more@.take(i as int) =~= more@);
}

fn keep_below(spans: &Vec<SentenceSpan>, above: usize) -> (r: Vec<SentenceSpan>)
    ensures
        span_views(r@) == bands_below(span_views(spans@), above as int),
{
    let ghost all = span_views(spans@);
    let mut kept: Vec<SentenceSpan> = Vec::new();
    let mut i: usize = 0;
    assert(span_views(kept@) =~= Seq::empty());
    while i < spans.len()
        invariant
            i <= spans@.len(),
            all == span_views(spans@),
            span_views(kept@) == bands_below(all.take(i as int), above as int),
        decreases spans@.len() - i,
    {
        let span: SentenceSpan = spans[i];
        let ghost before = kept@;
        assert(all.take(i + 1).drop_last() =~= all.take(i as int));
        assert(all.take(i + 1).last() == span@);
        if span.row >= above {
            let shown = SentenceSpan { row: span.row - above, ..span };
            kept.push(shown);
            assert(span_views(kept@) =~= span_views(before).push(shown@));
        }
        i = i + 1;
    }
    assert(all.take(all.len() as int) =~= all);
    kept
}

fn find_lookback_start(grid: &Grid) -> (r: usize)
    requires
        grid.wf(),
    ensures
        r == lookback_start(*grid),
        r <= grid.top(),
{
    let top: usize = grid.to_absolute_row(0);
    if top > LOOKBACK_ROWS {
        top - LOOKBACK_ROWS
    } else {
        0
    }
}

/// The bands of the sentences in view, one for each row a sentence is on. Lines
/// run together into paragraphs, which blank lines part, so a sentence may go on
/// over several rows. Rows just above the view are followed too, so that a sentence
/// begun there goes on.
pub fn sentence_spans(grid: &Grid) -> (spans: Vec<SentenceSpan>)
    requires
        grid.wf(),
    ensures
        span_views(spans@) == view_bands(*grid),
{
    let mut spans: Vec<SentenceSpan> = Vec::new();
    let mut pending: Vec<PlacedChar> = Vec::new();
    let top: usize = grid.to_absolute_row(0);
    let from: usize = find_lookback_start(grid);
    let stop: usize = top + grid.rows();
    let ghost whole = bands_from(
        *grid,
        from as int,
        from as int,
        stop as int,
        Seq::empty(),
        Seq::empty(),
    );
    let mut row: usize = from;
    assert(span_views(spans@) =~= Seq::empty());
    while row < stop
        invariant
            grid.wf(),
            from <= row <= stop <= grid.total(),
            columns_fit(pending@),
            bands_from(
                *grid,
                from as int,
                row as int,
                stop as int,
                pending@,
                span_views(spans@),
            ) == whole,
        decreases stop - row,
    {
        let end: usize = find_line_stop(grid, row, stop);
        let line = place_rows(grid, from, row, end);
        if nothing_printed(&line) {
            emit_sentence_spans(&pending, &mut spans);
            pending = Vec::new();
        } else {
            append_placed(&mut pending, &line);
        }
        row = end;
    }
    emit_sentence_spans(&pending, &mut spans);
    keep_below(&spans, top - from)
}

/// The first sentence of a paragraph has the other tone than the last sentence
/// before it.
pub proof fn law_the_next_paragraph_flips_the_tone(spans: Seq<Band>, chars: Seq<PlacedChar>)
    requires
        spans.len() > 0,
        spans.last().tone == 0 || spans.last().tone == 1,
        !all_white(chars),
    ensures
        with_paragraph(spans, chars).len() > spans.len(),
        with_paragraph(spans, chars).take(spans.len() as int) == spans,
        with_paragraph(spans, chars)[spans.len() as int].tone == 1 - spans.last().tone,
{
    let start = next_printed(chars, 0);
    lemma_next_printed(chars, 0);
    lemma_first_band(chars, start, tone_after(spans));
    assert(with_paragraph(spans, chars).take(spans.len() as int) =~= spans);
}

/// Within a paragraph each sentence has the other tone than the one before it: the
/// bands from a sentence on start with its tone, and those from the next sentence
/// on with the other.
pub proof fn law_sentences_alternate(chars: Seq<PlacedChar>, start: int, tone: int)
    requires
        0 <= start < chars.len(),
        !is_white(chars[start].ch),
        next_break(chars, start + 1) < chars.len(),
    ensures
        ({
            let next = next_break(chars, start + 1);
            let rest = paragraph_bands(chars, next, 1 - tone);
            &&& paragraph_bands(chars, start, tone) == sentence_bands(chars, start, next, tone)
                + rest
            &&& paragraph_bands(chars, start, tone)[0].tone == tone
            &&& rest.len() > 0
            &&& rest[0].tone == 1 - tone
        }),
{
    lemma_next_break(chars, start + 1);
    lemma_first_band(chars, start, tone);
    lemma_breaks_at(chars, start + 1);
    lemma_first_band(chars, next_break(chars, start + 1), 1 - tone);
}

proof fn lemma_breaks_at(chars: Seq<PlacedChar>, i: int)
    requires
        0 <= i,
        next_break(chars, i) < chars.len(),
    ensures
        breaks_at(chars, next_break(chars, i)),
    decreases chars.len() - i,
{
    if i < chars.len() && !breaks_at(chars, i) {
        lemma_breaks_at(chars, i + 1);
    }
}

proof fn lemma_next_printed(chars: Seq<PlacedChar>, i: int)
    requires
        0 <= i <= chars.len(),
        exists|k: int| i <= k < chars.len() && !is_white((#[trigger] chars[k]).ch),
    ensures
        i <= next_printed(chars, i) < chars.len(),
        !is_white(chars[next_printed(chars, i)].ch),
    decreases chars.len() - i,
{
    let k = choose|k: int| i <= k < chars.len() && !is_white((#[trigger] chars[k]).ch);
    if is_white(chars[i].ch) {
        assert(i + 1 <= k);
        lemma_next_printed(chars, i + 1);
    }
}

proof fn lemma_blanks_after(chars: Seq<PlacedChar>, k: int, i: int)
    requires
        0 <= k < i <= chars.len(),
        !is_white(chars[k].ch),
    ensures
        k < blanks_start(chars, i),
    decreases i,
{
    if is_white(chars[i - 1].ch) {
        lemma_blanks_after(chars, k, i - 1);
    }
}

proof fn lemma_first_band(chars: Seq<PlacedChar>, start: int, tone: int)
    requires
        0 <= start < chars.len(),
        !is_white(chars[start].ch),
    ensures
        paragraph_bands(chars, start, tone).len() > 0,
        paragraph_bands(chars, start, tone)[0].tone == tone,
{
    lemma_next_break(chars, start + 1);
    let next = next_break(chars, start + 1);
    lemma_blanks_after(chars, start, next);
    assert(sentence_bands(chars, start, next, tone).len() > 0);
    assert(sentence_bands(chars, start, next, tone)[0].tone == tone);
}

/// Whether a sentence starts at `i` that follows another: an uppercase letter or a digit,
/// before it blanks or the end of a row, before those closing marks, however many, and before
/// those a full stop, an exclamation mark or a question mark, which is at `t`. The blanks
/// start at `j`.
pub open spec fn follows_sentence(chars: Seq<PlacedChar>, t: int, j: int, i: int) -> bool {
    &&& 0 <= t < j <= i < chars.len()
    &&& chars[t].ch == '.' || chars[t].ch == '!' || chars[t].ch == '?'
    &&& forall|k: int| t < k < j ==> closes_quote((#[trigger] chars[k]).ch)
    &&& forall|k: int| j <= k < i ==> is_white((#[trigger] chars[k]).ch)
    &&& j < i || chars[i - 1].row < chars[i].row
    &&& !is_white(chars[i].ch)
    &&& is_uppercase_char(chars[i].ch) || '0' <= chars[i].ch <= '9'
}

/// Whether `c` closes a quotation or brackets, or is an ellipsis.
pub open spec fn closes_quote(c: char) -> bool {
    ||| c == '"'
    ||| c == '\''
    ||| c == '`'
    ||| c == ')'
    ||| c == ']'
    ||| c == '}'
    ||| c == '»'
    ||| c == '…'
}

/// Whether a sentence starts at `i` that follows another.
pub open spec fn new_sentence(chars: Seq<PlacedChar>, i: int) -> bool {
    exists|t: int, j: int| follows_sentence(chars, t, j, i)
}

/// The characters are in the order in which they are read.
pub open spec fn in_reading_order(chars: Seq<PlacedChar>) -> bool {
    forall|i: int, j: int|
        0 <= i < j < chars.len() ==> (#[trigger] chars[i]).row < (#[trigger] chars[j]).row
            || chars[i].row == chars[j].row && chars[i].col < chars[j].col
}

/// Whether a band is behind a character.
pub open spec fn is_behind(band: Band, p: PlacedChar) -> bool {
    band.row == p.row && band.col_start <= p.col < band.col_end
}

/// The tone of the sentence that `i` is in, when that of the sentence at `start` is `tone`:
/// it turns wherever a new sentence starts.
pub open spec fn tone_at(chars: Seq<PlacedChar>, start: int, i: int, tone: int) -> int
    decreases i - start,
{
    if i <= start {
        tone
    } else if new_sentence(chars, i) {
        1 - tone_at(chars, start, i - 1, tone)
    } else {
        tone_at(chars, start, i - 1, tone)
    }
}

/// Whether something is printed at `i`, or after it in the same sentence.
pub open spec fn within_sentence(chars: Seq<PlacedChar>, i: int) -> bool {
    exists|m: int| printed_on(chars, i, m)
}

/// Whether something is printed at `m`, and no sentence starts after `i` up to there.
pub open spec fn printed_on(chars: Seq<PlacedChar>, i: int, m: int) -> bool {
    &&& 0 <= i <= m < chars.len()
    &&& !is_white(chars[m].ch)
    &&& forall|k: int| i < k <= m ==> !(#[trigger] new_sentence(chars, k))
}

proof fn lemma_terminated(chars: Seq<PlacedChar>, j: int)
    requires
        0 <= j <= chars.len(),
    ensures
        terminated(chars, j) ==> exists|t: int|
            0 <= t < j && #[trigger] is_terminator(chars[t].ch) && forall|k: int|
                t < k < j ==> is_wrap((#[trigger] chars[k]).ch),
    decreases j,
{
    if terminated(chars, j) {
        if is_terminator(chars[j - 1].ch) {
            let t = j - 1;
            assert(is_terminator(chars[t].ch));
        } else {
            lemma_terminated(chars, j - 1);
            let t = choose|t: int|
                0 <= t < j - 1 && #[trigger] is_terminator(chars[t].ch) && forall|k: int|
                    t < k < j - 1 ==> is_wrap((#[trigger] chars[k]).ch);
            assert(is_terminator(chars[t].ch));
        }
    }
}

proof fn lemma_is_terminated(chars: Seq<PlacedChar>, t: int, j: int)
    requires
        0 <= t < j <= chars.len(),
        is_terminator(chars[t].ch),
        forall|k: int| t < k < j ==> is_wrap((#[trigger] chars[k]).ch),
    ensures
        terminated(chars, j),
    decreases j,
{
    if t < j - 1 {
        lemma_is_terminated(chars, t, j - 1);
    }
}

proof fn lemma_blanks(chars: Seq<PlacedChar>, i: int)
    requires
        0 <= i <= chars.len(),
    ensures
        0 <= blanks_start(chars, i) <= i,
        forall|k: int| blanks_start(chars, i) <= k < i ==> is_white((#[trigger] chars[k]).ch),
        blanks_start(chars, i) > 0 ==> !is_white(chars[blanks_start(chars, i) - 1].ch),
    decreases i,
{
    if i > 0 && is_white(chars[i - 1].ch) {
        lemma_blanks(chars, i - 1);
    }
}

proof fn lemma_new_sentence(chars: Seq<PlacedChar>, i: int)
    requires
        in_reading_order(chars),
        0 <= i < chars.len(),
    ensures
        breaks_at(chars, i) == new_sentence(chars, i),
{
    lemma_blanks(chars, i);
    let start = blanks_start(chars, i);
    if breaks_at(chars, i) {
        lemma_terminated(chars, start);
        let t = choose|t: int|
            0 <= t < start && #[trigger] is_terminator(chars[t].ch) && forall|k: int|
                t < k < start ==> is_wrap((#[trigger] chars[k]).ch);
        if start == i {
            assert(chars[i - 1].row < chars[i].row);
        }
        assert(follows_sentence(chars, t, start, i));
    }
    if new_sentence(chars, i) {
        let (t, j) = choose|t: int, j: int| follows_sentence(chars, t, j, i);
        if t == j - 1 {
            assert(!is_white(chars[j - 1].ch));
        } else {
            assert(closes_quote(chars[j - 1].ch));
        }
        if start > j {
            assert(is_white(chars[start - 1].ch));
        }
        if start < j {
            assert(is_white(chars[j - 1].ch));
        }
        assert(start == j);
        lemma_is_terminated(chars, t, j);
    }
}

proof fn lemma_right_edge(chars: Seq<PlacedChar>, i: int, stop: int, so_far: int)
    requires
        in_reading_order(chars),
        0 < i <= stop <= chars.len(),
        so_far == chars[i - 1].col + 1,
        forall|k: int| i - 1 <= k < stop ==> (#[trigger] chars[k]).row == chars[i - 1].row,
    ensures
        right_edge(chars, i, stop, so_far) == chars[stop - 1].col + 1,
    decreases stop - i,
{
    if i < stop {
        assert(chars[i - 1].row == chars[i].row);
        lemma_right_edge(chars, i + 1, stop, chars[i].col + 1);
    }
}

proof fn lemma_row_run(chars: Seq<PlacedChar>, i: int, end: int, row: usize)
    requires
        0 <= i <= end <= chars.len(),
    ensures
        i <= row_run_end(chars, i, end, row) <= end,
        forall|k: int|
            i <= k < row_run_end(chars, i, end, row) ==> (#[trigger] chars[k]).row == row,
    decreases end - i,
{
    if i < end && chars[i].row == row {
        lemma_row_run(chars, i + 1, end, row);
    }
}

proof fn lemma_bands(chars: Seq<PlacedChar>, i: int, end: int, tone: int)
    requires
        in_reading_order(chars),
        0 <= i <= end <= chars.len(),
    ensures
        forall|n: int|
            0 <= n < bands(chars, i, end, tone).len() ==> (#[trigger] bands(
                chars,
                i,
                end,
                tone,
            )[n]).tone == tone,
        forall|n: int, p: int|
            0 <= n < bands(chars, i, end, tone).len() && 0 <= p < chars.len()
                && #[trigger] is_behind(bands(chars, i, end, tone)[n], chars[p]) ==> i <= p < end,
        forall|p: int|
            #![trigger chars[p]]
            i <= p < end ==> exists|n: int|
                0 <= n < bands(chars, i, end, tone).len() && #[trigger] is_behind(
                    bands(chars, i, end, tone)[n],
                    chars[p],
                ),
    decreases end - i,
{
    if i < end {
        let stop = row_run_end(chars, i + 1, end, chars[i].row);
        lemma_row_run(chars, i + 1, end, chars[i].row);
        lemma_right_edge(chars, i + 1, stop, chars[i].col + 1);
        lemma_bands(chars, stop, end, tone);
        let all = bands(chars, i, end, tone);
        let rest = bands(chars, stop, end, tone);
        assert forall|n: int| 0 <= n < all.len() implies (#[trigger] all[n]).tone == tone by {
            if n > 0 {
                assert(all[n] == rest[n - 1]);
            }
        }
        assert forall|n: int, p: int|
            0 <= n < all.len() && 0 <= p < chars.len() && #[trigger] is_behind(
                all[n],
                chars[p],
            ) implies i <= p < end by {
            if n > 0 {
                assert(is_behind(rest[n - 1], chars[p]));
            } else {
                if p < i {
                    assert(chars[p].row < chars[i].row || chars[p].col < chars[i].col);
                }
                if p >= stop {
                    assert(chars[stop - 1].row < chars[p].row || chars[stop - 1].col
                        < chars[p].col);
                }
            }
        }
        assert forall|p: int| #![trigger chars[p]] i <= p < end implies exists|n: int|
            0 <= n < all.len() && #[trigger] is_behind(all[n], chars[p]) by {
            if p < stop {
                if i < p {
                    assert(chars[i].col < chars[p].col);
                }
                if p < stop - 1 {
                    assert(chars[p].col < chars[stop - 1].col);
                }
                assert(is_behind(all[0], chars[p]));
            } else {
                let n = choose|n: int|
                    0 <= n < rest.len() && #[trigger] is_behind(rest[n], chars[p]);
                assert(all[n + 1] == rest[n]);
                assert(is_behind(all[n + 1], chars[p]));
            }
        }
    }
}

proof fn lemma_no_break_before(chars: Seq<PlacedChar>, i: int)
    requires
        0 <= i <= chars.len(),
    ensures
        i <= next_break(chars, i) <= chars.len(),
        forall|k: int| i <= k < next_break(chars, i) ==> !(#[trigger] breaks_at(chars, k)),
        next_break(chars, i) < chars.len() ==> breaks_at(chars, next_break(chars, i)),
    decreases chars.len() - i,
{
    if i < chars.len() && !breaks_at(chars, i) {
        lemma_no_break_before(chars, i + 1);
    }
}

proof fn lemma_tone_goes_on(chars: Seq<PlacedChar>, start: int, mid: int, i: int, tone: int)
    requires
        start <= mid <= i,
    ensures
        tone_at(chars, start, i, tone) == tone_at(
            chars,
            mid,
            i,
            tone_at(chars, start, mid, tone),
        ),
    decreases i - mid,
{
    if mid < i {
        lemma_tone_goes_on(chars, start, mid, i - 1, tone);
    }
}

proof fn lemma_tone_stays(chars: Seq<PlacedChar>, start: int, i: int, tone: int)
    requires
        start <= i,
        forall|k: int| start < k <= i ==> !(#[trigger] new_sentence(chars, k)),
    ensures
        tone_at(chars, start, i, tone) == tone,
    decreases i - start,
{
    if start < i {
        lemma_tone_stays(chars, start, i - 1, tone);
        assert(!new_sentence(chars, i));
    }
}

/// A sentence has a band of one tone behind it, from its first character to its last that is
/// printed, and behind nothing else: the blanks between two sentences have none. The tone
/// turns at every new sentence, and only there.
pub proof fn law_each_sentence_has_its_band(chars: Seq<PlacedChar>, start: int, tone: int)
    requires
        in_reading_order(chars),
        0 <= start <= chars.len(),
    ensures
        forall|n: int, p: int|
            0 <= n < paragraph_bands(chars, start, tone).len() && 0 <= p < chars.len()
                && #[trigger] is_behind(paragraph_bands(chars, start, tone)[n], chars[p])
                ==> start <= p && paragraph_bands(chars, start, tone)[n].tone == tone_at(
                chars,
                start,
                p,
                tone,
            ) && within_sentence(chars, p),
        forall|p: int|
            start <= p < chars.len() && #[trigger] within_sentence(chars, p) ==> exists|n: int|
                0 <= n < paragraph_bands(chars, start, tone).len() && #[trigger] is_behind(
                    paragraph_bands(chars, start, tone)[n],
                    chars[p],
                ),
    decreases chars.len() - start,
{
    if start < chars.len() {
        lemma_next_break(chars, start + 1);
        lemma_no_break_before(chars, start + 1);
        let next = next_break(chars, start + 1);
        lemma_blanks(chars, next);
        let end = greatest(start, blanks_start(chars, next));
        lemma_bands(chars, start, end, tone);
        law_each_sentence_has_its_band(chars, next, 1 - tone);
        let all = paragraph_bands(chars, start, tone);
        let first = sentence_bands(chars, start, next, tone);
        let rest = paragraph_bands(chars, next, 1 - tone);
        assert forall|k: int| start < k < next implies !(#[trigger] new_sentence(chars, k)) by {
            lemma_new_sentence(chars, k);
        }
        if next < chars.len() {
            lemma_new_sentence(chars, next);
            lemma_tone_stays(chars, start, next - 1, tone);
            assert(tone_at(chars, start, next, tone) == 1 - tone);
            assert(!is_white(chars[next].ch));
        }
        assert forall|n: int, p: int|
            0 <= n < all.len() && 0 <= p < chars.len() && #[trigger] is_behind(
                all[n],
                chars[p],
            ) implies start <= p && all[n].tone == tone_at(chars, start, p, tone)
            && within_sentence(chars, p) by {
            if n < first.len() {
                assert(is_behind(first[n], chars[p]));
                lemma_tone_stays(chars, start, p, tone);
                assert(printed_on(chars, p, end - 1));
            } else {
                assert(all[n] == rest[n - first.len()]);
                assert(is_behind(rest[n - first.len()], chars[p]));
                lemma_tone_goes_on(chars, start, next, p, tone);
                if p == next {
                    assert(printed_on(chars, p, p));
                }
            }
        }
        assert forall|p: int|
            start <= p < chars.len() && #[trigger] within_sentence(chars, p) implies exists|n: int|
            0 <= n < all.len() && #[trigger] is_behind(all[n], chars[p]) by {
            if p < next {
                let m = choose|m: int| printed_on(chars, p, m);
                if m >= next {
                    assert(new_sentence(chars, next));
                }
                assert(m < end);
                let n = choose|n: int| 0 <= n < first.len() && #[trigger] is_behind(
                    first[n],
                    chars[p],
                );
                assert(is_behind(all[n], chars[p]));
            } else {
                let n = choose|n: int| 0 <= n < rest.len() && #[trigger] is_behind(
                    rest[n],
                    chars[p],
                );
                assert(all[n + first.len()] == rest[n]);
                assert(is_behind(all[n + first.len()], chars[p]));
            }
        }
    }
}

/// A full stop, an exclamation mark and a question mark end a sentence alike: what is printed
/// before one has another tone than an uppercase letter or a digit that a blank parts from it.
pub proof fn law_each_end_mark_turns_the_tone(
    chars: Seq<PlacedChar>,
    start: int,
    t: int,
    i: int,
    tone: int,
    a: int,
    b: int,
)
    requires
        in_reading_order(chars),
        0 <= start <= t,
        t + 1 < i < chars.len(),
        chars[t].ch == '.' || chars[t].ch == '!' || chars[t].ch == '?',
        forall|k: int| t < k < i ==> is_white((#[trigger] chars[k]).ch),
        !is_white(chars[i].ch),
        is_uppercase_char(chars[i].ch) || '0' <= chars[i].ch <= '9',
        0 <= a < paragraph_bands(chars, start, tone).len(),
        0 <= b < paragraph_bands(chars, start, tone).len(),
        is_behind(paragraph_bands(chars, start, tone)[a], chars[t]),
        is_behind(paragraph_bands(chars, start, tone)[b], chars[i]),
    ensures
        paragraph_bands(chars, start, tone)[b].tone == 1 - paragraph_bands(
            chars,
            start,
            tone,
        )[a].tone,
{
    law_each_sentence_has_its_band(chars, start, tone);
    assert(follows_sentence(chars, t, t + 1, i));
    assert(new_sentence(chars, i));
    lemma_no_start_in_blanks(chars, start, t, i - 1, tone);
}

proof fn lemma_no_start_in_blanks(
    chars: Seq<PlacedChar>,
    start: int,
    t: int,
    i: int,
    tone: int,
)
    requires
        0 <= start <= t <= i < chars.len(),
        forall|k: int| t < k <= i ==> is_white((#[trigger] chars[k]).ch),
    ensures
        tone_at(chars, start, i, tone) == tone_at(chars, start, t, tone),
    decreases i - t,
{
    if t < i {
        lemma_no_start_in_blanks(chars, start, t, i - 1, tone);
        assert(is_white(chars[i].ch));
    }
}

// ------------------------------------------------------------------------
// Brackets
// ------------------------------------------------------------------------

/// A bracket in view and how deep it is nested, from 0.
#[derive(Clone, Copy, Debug, PartialEq, Eq, Structural)]
pub struct BracketMark {
    pub col: usize,
    pub depth: usize,
    pub row: usize,
}

/// Whether `c` is an opening bracket.
pub open spec fn is_opener(c: char) -> bool {
    c == '(' || c == '[' || c == '{'
}

/// The bracket that `c` closes.
pub open spec fn opener_of(c: char) -> Option<char> {
    if c == ')' {
        Some('(')
    } else if c == ']' {
        Some('[')
    } else if c == '}' {
        Some('{')
    } else {
        None
    }
}

fn opens(c: char) -> (r: bool)
    ensures
        r == is_opener(c),
{
    c == '(' || c == '[' || c == '{'
}

fn closed_by(c: char) -> (r: Option<char>)
    ensures
        r == opener_of(c),
{
    if c == ')' {
        Some('(')
    } else if c == ']' {
        Some('[')
    } else if c == '}' {
        Some('{')
    } else {
        None
    }
}

/// How deep the nesting is after the first `n` characters of `text`, when it was
/// `depth` before them. A bracket that closes nothing leaves it at 0.
pub open spec fn depth_after(text: Seq<char>, n: int, depth: int) -> int
    decreases n,
{
    if n <= 0 {
        depth
    } else {
        let before = depth_after(text, n - 1, depth);
        if is_opener(text[n - 1]) {
            before + 1
        } else if opener_of(text[n - 1]) is Some {
            minus(before, 1)
        } else {
            before
        }
    }
}

/// How deep the nesting is after rows `from` up to `row`, counted from `from`.
pub open spec fn depth_before_row(grid: Grid, from: int, row: int) -> int
    decreases row - from,
{
    if row <= from {
        0
    } else {
        depth_after(
            grid.row_text(row - 1),
            grid.width(),
            depth_before_row(grid, from, row - 1),
        )
    }
}

/// How deep the nesting is where the view starts, counted over the rows just above
/// it.
pub open spec fn depth_above(grid: Grid) -> int {
    depth_before_row(grid, lookback_start(grid), grid.top())
}

/// An open bracket and its depth.
pub struct Opened {
    pub ch: char,
    pub depth: int,
}

/// How many brackets from above are still open, those open since, and the marks given.
pub struct BracketScan {
    pub base: int,
    pub stack: Seq<Opened>,
    pub marks: Seq<BracketMark>,
}

impl BracketScan {
    /// Whether `c` closes the last bracket that was opened since the scan started.
    pub open spec fn closes_own(self, c: char) -> bool {
        self.stack.len() > 0 && Some(self.stack.last().ch) == opener_of(c)
    }

    /// Whether `c` closes a bracket from above: nothing opened since is open.
    pub open spec fn closes_above(self, c: char) -> bool {
        opener_of(c) is Some && self.stack.len() == 0 && self.base > 0
    }
}

/// The depth of `c` after a scan: an opener's is the number of brackets around it, a
/// closer's is that of the bracket it closes.
pub open spec fn bracket_depth(scan: BracketScan, c: char) -> int {
    if is_opener(c) {
        scan.stack.len() + scan.base
    } else if scan.closes_own(c) {
        scan.stack.last().depth
    } else if scan.closes_above(c) {
        scan.base - 1
    } else {
        UNMATCHED_DEPTH as int
    }
}

/// The brackets opened since the scan started that are open after `c`.
pub open spec fn stack_after(scan: BracketScan, c: char) -> Seq<Opened> {
    if is_opener(c) {
        scan.stack.push(Opened { ch: c, depth: scan.stack.len() + scan.base })
    } else if scan.closes_own(c) {
        scan.stack.drop_last()
    } else {
        scan.stack
    }
}

/// The scan after one more character.
pub open spec fn scan_step(scan: BracketScan, p: PlacedChar) -> BracketScan {
    BracketScan {
        base: if scan.closes_above(p.ch) {
            scan.base - 1
        } else {
            scan.base
        },
        stack: stack_after(scan, p.ch),
        marks: if is_opener(p.ch) || opener_of(p.ch) is Some {
            scan.marks.push(
                BracketMark {
                    col: p.col,
                    depth: bracket_depth(scan, p.ch) as usize,
                    row: p.row,
                },
            )
        } else {
            scan.marks
        },
    }
}

/// The scan of the first `n` characters, which start `base` brackets deep.
pub open spec fn scanned(chars: Seq<PlacedChar>, n: int, base: int) -> BracketScan
    decreases n,
{
    if n <= 0 {
        BracketScan { base, stack: Seq::empty(), marks: Seq::empty() }
    } else {
        scan_step(scanned(chars, n - 1, base), chars[n - 1])
    }
}

/// The marks of the brackets in view.
pub open spec fn view_marks(grid: Grid) -> Seq<BracketMark> {
    let top = grid.top();
    let chars = placed_rows(grid, top, top, top + grid.height());
    scanned(chars, chars.len() as int, depth_above(grid)).marks
}

/// A closing bracket carries the depth of the bracket it closes: where everything
/// opened between the two has been closed again, both have the same depth.
pub proof fn law_a_pair_shares_its_depth(chars: Seq<PlacedChar>, base: int, i: int, j: int)
    requires
        0 <= i < j < chars.len(),
        is_opener(chars[i].ch),
        opener_of(chars[j].ch) == Some(chars[i].ch),
        scanned(chars, j, base).stack == scanned(chars, i + 1, base).stack,
    ensures
        bracket_depth(scanned(chars, i, base), chars[i].ch) == bracket_depth(
            scanned(chars, j, base),
            chars[j].ch,
        ),
{
    let before = scanned(chars, i, base);
    assert(scanned(chars, i + 1, base).stack == stack_after(before, chars[i].ch));
    assert(!is_opener(chars[j].ch));
}

/// The characters alone.
pub open spec fn chars_alone(chars: Seq<PlacedChar>) -> Seq<char> {
    Seq::new(chars.len(), |i: int| chars[i].ch)
}

/// Every closing bracket of the first `n` characters closes something.
pub open spec fn all_closers_close(chars: Seq<PlacedChar>, n: int, base: int) -> bool {
    forall|i: int|
        0 <= i < n && opener_of((#[trigger] chars[i]).ch) is Some ==> scanned(
            chars,
            i,
            base,
        ).closes_own(chars[i].ch) || scanned(chars, i, base).closes_above(chars[i].ch)
}

/// Brackets opened above the view tell: as long as every closing bracket closes something,
/// an opening one is as deep as the count from the rows above on makes it, whether those
/// around it were opened in view or above.
pub proof fn law_depth_goes_on_from_above(chars: Seq<PlacedChar>, n: int, base: int)
    requires
        0 <= n <= chars.len(),
        0 <= base,
        all_closers_close(chars, n, base),
    ensures
        scanned(chars, n, base).stack.len() + scanned(chars, n, base).base == depth_after(
            chars_alone(chars),
            n,
            base,
        ),
        scanned(chars, n, base).base >= 0,
        forall|c: char| is_opener(c) ==> #[trigger] bracket_depth(scanned(chars, n, base), c)
            == depth_after(chars_alone(chars), n, base),
    decreases n,
{
    if n > 0 {
        assert(all_closers_close(chars, n - 1, base));
        law_depth_goes_on_from_above(chars, n - 1, base);
        assert(chars_alone(chars)[n - 1] == chars[n - 1].ch);
    }
}

/// Each open bracket's depth is the number of brackets around it.
pub proof fn law_depth_counts_what_is_open(chars: Seq<PlacedChar>, n: int, base: int, k: int)
    requires
        0 <= k < scanned(chars, n, base).stack.len(),
    ensures
        scanned(chars, n, base).stack[k].depth == scanned(chars, n, base).base + k,
    decreases n,
{
    if n > 0 {
        let before = scanned(chars, n - 1, base).stack;
        if k < before.len() {
            law_depth_counts_what_is_open(chars, n - 1, base, k);
        }
    }
}

struct OpenBracket {
    ch: char,
    depth: usize,
}

/// Open brackets by character and depth.
spec fn opened(stack: Seq<OpenBracket>) -> Seq<Opened> {
    Seq::new(stack.len(), |i: int| opened_one(stack[i]))
}

spec fn opened_one(b: OpenBracket) -> Opened {
    Opened { ch: b.ch, depth: b.depth as int }
}

fn open_bracket(ch: char, depth: usize) -> (r: OpenBracket)
    ensures
        opened_one(r) == (Opened { ch, depth: depth as int }),
{
    OpenBracket { ch, depth }
}

fn mark(row: usize, col: usize, depth: usize) -> (r: BracketMark)
    ensures
        r == (BracketMark { col, depth, row }),
{
    BracketMark { col, depth, row }
}

/// Take one character into the scan.
fn scan_char(
    p: PlacedChar,
    base: &mut usize,
    stack: &mut Vec<OpenBracket>,
    marks: &mut Vec<BracketMark>,
)
    requires
        old(stack)@.len() + *old(base) < usize::MAX,
    ensures
        ({
            let before = BracketScan {
                base: *old(base) as int,
                stack: opened(old(stack)@),
                marks: old(marks)@,
            };
            let after = scan_step(before, p);
            &&& *final(base) == after.base
            &&& opened(final(stack)@) == after.stack
            &&& final(marks)@ == after.marks
        }),
        final(stack)@.len() <= old(stack)@.len() + 1,
        *final(base) <= *old(base),
{
    let ghost before = stack@;
    if opens(p.ch) {
        let at: usize = stack.len() + *base;
        stack.push(open_bracket(p.ch, at));
        marks.push(mark(p.row, p.col, at));
        assert(opened(stack@) =~= opened(before).push(Opened { ch: p.ch, depth: at as int }));
    } else if let Some(open) = closed_by(p.ch) {
        let n: usize = stack.len();
        if n > 0 && stack[n - 1].ch == open {
            assert(opened(before).last() == opened_one(before.last()));
            let at: usize = stack[n - 1].depth;
            stack.pop();
            marks.push(mark(p.row, p.col, at));
            assert(opened(stack@) =~= opened(before).drop_last());
        } else {
            assert(n > 0 ==> opened(before).last() == opened_one(before.last()));
            if n == 0 && *base > 0 {
                *base = *base - 1;
                marks.push(mark(p.row, p.col, *base));
            } else {
                marks.push(mark(p.row, p.col, UNMATCHED_DEPTH));
            }
        }
    } else {
    }
}

proof fn lemma_depth_after(text: Seq<char>, n: int, depth: int)
    requires
        0 <= n,
        0 <= depth,
    ensures
        0 <= depth_after(text, n, depth) <= depth + n,
    decreases n,
{
    if n > 0 {
        lemma_depth_after(text, n - 1, depth);
    }
}

/// How deep the nesting is where the view starts.
fn starting_depth(grid: &Grid) -> (r: usize)
    requires
        grid.wf(),
    ensures
        r == depth_above(*grid),
        r <= grid.top() * grid.width(),
{
    let top: usize = grid.to_absolute_row(0);
    let cols: usize = grid.cols();
    let from: usize = find_lookback_start(grid);
    let mut depth: usize = 0;
    let mut row: usize = from;
    while row < top
        invariant
            grid.wf(),
            from <= row <= top,
            top == grid.top(),
            cols == grid.width(),
            depth == depth_before_row(*grid, from as int, row as int),
            depth <= (row - from) * grid.width(),
        decreases top - row,
    {
        let text = absolute_row_chars(grid, row);
        let ghost before = depth as int;
        let mut col: usize = 0;
        proof {
            lemma_cells_fit(*grid, row - from + 1);
            assert((row + 1 - from) * grid.width() == (row - from) * grid.width() + grid.width())
                by (nonlinear_arith);
        }
        while col < cols
            invariant
                col <= cols,
                text@.len() == cols,
                depth == depth_after(text@, col as int, before),
                0 <= before,
                depth <= before + col,
                before + cols < usize::MAX,
            decreases cols - col,
        {
            let c: char = text[col];
            if opens(c) {
                depth = depth + 1;
            } else if closed_by(c).is_some() {
                depth = if depth > 0 {
                    depth - 1
                } else {
                    0
                };
            }
            col = col + 1;
        }
        row = row + 1;
    }
    assert((top - from) * grid.width() <= top * grid.width()) by (nonlinear_arith)
        requires
            0 <= from <= top,
            0 <= grid.width(),
    ;
    depth
}

proof fn lemma_cells_fit(grid: Grid, n: int)
    requires
        grid.wf(),
        0 <= n <= grid.total(),
    ensures
        n * grid.width() < usize::MAX,
{
    assert(n * grid.width() <= grid.total() * grid.width()) by (nonlinear_arith)
        requires
            0 <= n <= grid.total(),
            0 <= grid.width(),
    ;
}

/// The brackets in view, each with its nesting depth: a pair has the depth its
/// opener had, and a closer that closes nothing has `UNMATCHED_DEPTH`. Rows just
/// above the view are counted, so that brackets opened there still tell: what closes one
/// of them in view has its depth.
pub fn bracket_marks(grid: &Grid) -> (marks: Vec<BracketMark>)
    requires
        grid.wf(),
    ensures
        marks@ == view_marks(*grid),
{
    let start: usize = starting_depth(grid);
    let mut base: usize = start;
    let top: usize = grid.to_absolute_row(0);
    let chars = place_rows(grid, top, top, top + grid.rows());
    let mut stack: Vec<OpenBracket> = Vec::new();
    let mut marks: Vec<BracketMark> = Vec::new();
    let mut i: usize = 0;
    proof {
        lemma_cells_fit(*grid, grid.top() + grid.height());
        assert((grid.top() + grid.height()) * grid.width() == grid.top() * grid.width()
            + grid.height() * grid.width()) by (nonlinear_arith);
        assert(opened(stack@) =~= Seq::empty());
    }
    while i < chars.len()
        invariant
            i <= chars@.len(),
            base <= start,
            chars@.len() + start < usize::MAX,
            base == scanned(chars@, i as int, start as int).base,
            opened(stack@) == scanned(chars@, i as int, start as int).stack,
            marks@ == scanned(chars@, i as int, start as int).marks,
            stack@.len() <= i,
        decreases chars@.len() - i,
    {
        let p: PlacedChar = chars[i];
        scan_char(p, &mut base, &mut stack, &mut marks);
        i = i + 1;
    }
    marks
}

/// Which of the theme's colours a bracket of this depth takes.
pub open spec fn bracket_color(depth: usize) -> int {
    if depth == UNMATCHED_DEPTH {
        1
    } else if depth % 5 == 0 {
        3
    } else if depth % 5 == 1 {
        5
    } else if depth % 5 == 2 {
        6
    } else if depth % 5 == 3 {
        2
    } else {
        4
    }
}

/// A colour's parts.
pub open spec fn rgb_parts(c: Rgb) -> (u8, u8, u8) {
    (c.r, c.g, c.b)
}

/// The cell of a mark, with its colour.
pub open spec fn colored(mark: BracketMark, theme: Theme) -> (usize, usize, (u8, u8, u8)) {
    (mark.row, mark.col, rgb_parts(theme.ansi@[bracket_color(mark.depth)]))
}

/// The colour of each marked bracket: depths take yellow, magenta, cyan, green and
/// blue in turn, and a bracket without a partner takes red.
pub fn resolve_bracket_colors(marks: &Vec<BracketMark>, theme: &Theme) -> (r: Vec<
    (usize, usize, (u8, u8, u8)),
>)
    ensures
        r@ == Seq::new(marks@.len(), |i: int| colored(marks@[i], *theme)),
{
    let mut out: Vec<(usize, usize, (u8, u8, u8))> = Vec::new();
    let mut i: usize = 0;
    while i < marks.len()
        invariant
            i <= marks@.len(),
            out@ == Seq::new(i as nat, |k: int| colored(marks@[k], *theme)),
        decreases marks@.len() - i,
    {
        let m: BracketMark = marks[i];
        let turn: usize = m.depth % 5;
        let index: usize = if m.depth == UNMATCHED_DEPTH {
            1
        } else if turn == 0 {
            3
        } else if turn == 1 {
            5
        } else if turn == 2 {
            6
        } else if turn == 3 {
            2
        } else {
            4
        };
        let rgb: Rgb = theme.ansi[index];
        out.push((m.row, m.col, (rgb.r, rgb.g, rgb.b)));
        i = i + 1;
    }
    out
}

} // verus!
