//! Searching the whole buffer of a pane.

use vstd::prelude::*;
use crate::grid::Grid;
use crate::input::{BlockNav, PaneId};
use crate::patterns::{find_matches, in_order, listed, regex_matches};
use crate::text::{
    char_at_byte, char_index, chars_of, least, lemma_char_at_byte, lowered, string_of,
    string_of_range,
};
use crate::words::{
    char_class, class_end, class_of, class_start, lemma_run, lemma_run_back, skip_class,
    skip_class_back, unprinted, wordy,
};

verus! {

broadcast use {Grid::lemma_bounds, Grid::lemma_scrolled};

/// Where a match starts: an absolute row, and a column.
pub type MatchPos = (usize, usize);

/// Where a step of the search starts from: where the search was launched, so that
/// typing the query searches from one spot, or the cursor, so that repeats go from
/// match to match.
#[derive(Clone, Copy, Debug, PartialEq, Eq, Structural)]
pub enum SearchFrom {
    Cursor,
    Origin,
}

/// A search: what is searched for, where it was launched and which match it is on.
#[derive(Debug)]
pub struct SearchState {
    /// The match the search is on, and its pane.
    pub current: Option<(PaneId, MatchPos)>,
    /// The last query, kept when the search is put away, so that a repeat can bring
    /// it back.
    pub last: Option<String>,
    /// The number of the match the search is on, from 1; 0 when there are none.
    pub match_index: usize,
    pub match_total: usize,
    /// Where the search was launched, and in which pane.
    pub origin: Option<(PaneId, MatchPos)>,
    pub query: Option<String>,
    /// Whether repeats go backward.
    pub reverse: bool,
}

impl Default for SearchState {
    fn default() -> (r: Self)
        ensures
            r.current is None,
            r.last is None,
            r.match_index == 0,
            r.match_total == 0,
            r.origin is None,
            r.query is None,
            !r.reverse,
    {
        SearchState {
            current: None,
            last: None,
            match_index: 0,
            match_total: 0,
            origin: None,
            query: None,
            reverse: false,
        }
    }
}

impl SearchState {
    /// Which way a fresh search goes, and each repeat.
    pub open spec fn direction(self) -> BlockNav {
        if self.reverse {
            BlockNav::Previous
        } else {
            BlockNav::Next
        }
    }

    /// Which way a fresh search goes, and each repeat.
    pub fn search_start_direction(&self) -> (r: BlockNav)
        ensures
            r == self.direction(),
    {
        if self.reverse {
            BlockNav::Previous
        } else {
            BlockNav::Next
        }
    }
}

// ------------------------------------------------------------------------
// The word under the cursor
// ------------------------------------------------------------------------

/// The keyword at column `col` of `line`.
pub open spec fn keyword_at(line: Seq<char>, col: int) -> Option<Seq<char>> {
    if 0 <= col < line.len() && class_of(line[col], false) == 1 {
        Some(line.subrange(class_start(line, col, 1, false), class_end(line, col, 1, false)))
    } else {
        None
    }
}

/// A text that may be missing, by its contents.
pub open spec fn string_view(s: Option<String>) -> Option<Seq<char>> {
    match s {
        Some(s) => Some(s@),
        None => None,
    }
}

/// The keyword at column `col` of `line`: letters, digits and underscores. `None` on
/// anything else.
pub fn word_at(line: &Vec<char>, col: usize) -> (r: Option<String>)
    ensures
        string_view(r) == keyword_at(line@, col as int),
{
    if col >= line.len() || char_class(line[col], false) != 1 {
        return None;
    }
    let start: usize = skip_class_back(line, col, 1, false);
    let end: usize = skip_class(line, col, 1, false);
    Some(string_of_range(line, start, end))
}

// ------------------------------------------------------------------------
// Matches on a row
// ------------------------------------------------------------------------

/// What only a regular expression would hold.
pub open spec fn is_regex_char(c: char) -> bool {
    c == '^' || c == '$' || c == '*' || c == '+' || c == '?' || c == '[' || c == ']' || c == '('
        || c == ')' || c == '{' || c == '}' || c == '|' || c == '\\'
}

fn regex_char(c: char) -> (r: bool)
    ensures
        r == is_regex_char(c),
{
    c == '^' || c == '$' || c == '*' || c == '+' || c == '?' || c == '[' || c == ']' || c == '('
        || c == ')' || c == '{' || c == '}' || c == '|' || c == '\\'
}

/// Whether `query` holds anything only a regular expression would.
pub open spec fn explicit_regex(query: Seq<char>) -> bool {
    exists|i: int| 0 <= i < query.len() && is_regex_char(#[trigger] query[i])
}

/// Whether `query` holds anything only a regular expression would.
pub fn is_explicit_regex(query: &str) -> (r: bool)
    ensures
        r == explicit_regex(query@),
{
    let chars = chars_of(query);
    let mut i: usize = 0;
    while i < chars.len()
        invariant
            i <= chars@.len(),
            chars@ == query@,
            forall|j: int| 0 <= j < i ==> !is_regex_char(#[trigger] chars@[j]),
        decreases chars@.len() - i,
    {
        if regex_char(chars[i]) {
            assert(is_regex_char(query@[i as int]));
            return true;
        }
        i = i + 1;
    }
    false
}

/// The columns of a match: the first, and the one after the last.
pub struct Cols {
    pub start: int,
    pub end: int,
}

/// The columns of the first `n` of `matches`, without those that are empty.
pub open spec fn match_cols(row: Seq<char>, matches: Seq<(usize, usize)>, n: int) -> Seq<Cols>
    decreases n,
{
    if n <= 0 {
        Seq::empty()
    } else {
        let before = match_cols(row, matches, n - 1);
        let start = char_at_byte(row, matches[n - 1].0 as int);
        let end = char_at_byte(row, matches[n - 1].1 as int);
        if end > start {
            before.push(Cols { start, end })
        } else {
            before
        }
    }
}

/// `word` stands at column `at` of `row`.
pub open spec fn stands_at(row: Seq<char>, word: Seq<char>, at: int) -> bool {
    0 <= at <= row.len() - word.len() && row.subrange(at, at + word.len()) == word
}

/// Where what column `col` of `row` becomes in lower case starts, in the row in lower case
/// and never past its end. A character may become several.
pub open spec fn lower_start(row: Seq<char>, col: int) -> int
    decreases col,
{
    if col <= 0 {
        0
    } else {
        least(
            lower_start(row, col - 1) + lowered(seq![row[col - 1]]).len(),
            lowered(row).len() as int,
        )
    }
}

/// The first column of `row` from `col` on that starts at index `at` of the row in lower
/// case or past it, or the row's end.
pub open spec fn col_from(row: Seq<char>, at: int, col: int) -> int
    decreases row.len() - col,
{
    if col >= row.len() || lower_start(row, col) >= at {
        col
    } else {
        col_from(row, at, col + 1)
    }
}

/// The first index from `from` up to `to` at which `word` stands in `text`, or `to`.
pub open spec fn first_stand(text: Seq<char>, word: Seq<char>, from: int, to: int) -> int
    decreases to - from,
{
    if from >= to {
        to
    } else if stands_at(text, word, from) {
        from
    } else {
        first_stand(text, word, from + 1, to)
    }
}

/// Where `word`, in lower case, stands on `row` from a column before `n` on, in any case
/// of letters: up to the column with which the last of it ends.
pub open spec fn word_cols(row: Seq<char>, word: Seq<char>, n: int) -> Seq<Cols>
    decreases n,
{
    if n <= 0 {
        Seq::empty()
    } else {
        let before = word_cols(row, word, n - 1);
        let at = first_stand(
            lowered(row),
            word,
            lower_start(row, n - 1),
            lower_start(row, n),
        );
        if at < lower_start(row, n) {
            before.push(Cols { start: n - 1, end: col_from(row, at + word.len(), n) })
        } else {
            before
        }
    }
}

/// Where `query` stands on `row`, in any case of letters.
pub open spec fn plain_cols(row: Seq<char>, query: Seq<char>) -> Seq<Cols> {
    if lowered(query).len() == 0 {
        Seq::empty()
    } else {
        word_cols(row, lowered(query), row.len() as int)
    }
}

/// The matches of `query` on `row`, when the regular expression `query` finds
/// `found`: those, or where the text of the query stands when it is no regular
/// expression or none was meant and nothing was found.
pub open spec fn cols_from(row: Seq<char>, query: Seq<char>, found: Option<Seq<(usize, usize)>>) -> Seq<
    Cols,
> {
    if query.len() == 0 {
        Seq::empty()
    } else {
        match found {
            Some(matches) => {
                let cols = match_cols(row, matches, matches.len() as int);
                if cols.len() > 0 || explicit_regex(query) {
                    cols
                } else {
                    plain_cols(row, query)
                }
            },
            None => plain_cols(row, query),
        }
    }
}

/// The matches of `query` on `row`.
pub open spec fn row_cols(row: Seq<char>, query: Seq<char>) -> Seq<Cols> {
    cols_from(row, query, regex_matches(query, true, row))
}

/// Column pairs by their parts.
pub open spec fn cols_of(spans: Seq<(usize, usize)>) -> Seq<Cols> {
    Seq::new(spans.len(), |i: int| Cols { start: spans[i].0 as int, end: spans[i].1 as int })
}

/// The columns of `matches`, without those that are empty.
fn matches_to_cols(row: &Vec<char>, matches: &Vec<(usize, usize)>) -> (r: Vec<(usize, usize)>)
    ensures
        cols_of(r@) == match_cols(row@, matches@, matches@.len() as int),
{
    let mut spans: Vec<(usize, usize)> = Vec::new();
    let mut i: usize = 0;
    assert(cols_of(spans@) =~= Seq::empty());
    while i < matches.len()
        invariant
            i <= matches@.len(),
            cols_of(spans@) == match_cols(row@, matches@, i as int),
        decreases matches@.len() - i,
    {
        let (from, to) = matches[i];
        let start: usize = char_index(row, from);
        let end: usize = char_index(row, to);
        if end > start {
            let ghost before = spans@;
            spans.push((start, end));
            assert(cols_of(spans@) =~= cols_of(before).push(
                Cols { start: start as int, end: end as int },
            ));
        }
        i = i + 1;
    }
    spans
}

/// Whether `word` stands at column `at` of `row`.
fn word_stands(row: &Vec<char>, word: &Vec<char>, at: usize) -> (r: bool)
    requires
        at < row@.len(),
    ensures
        r == stands_at(row@, word@, at as int),
{
    let total: usize = row.len();
    if word.len() > total - at {
        return false;
    }
    let mut i: usize = 0;
    while i < word.len()
        invariant
            i <= word@.len(),
            total == row@.len(),
            at + word@.len() <= row@.len(),
            forall|j: int| 0 <= j < i ==> row@[at + j] == #[trigger] word@[j],
        decreases word@.len() - i,
    {
        if row[at + i] != word[i] {
            assert(row@.subrange(at as int, at + word@.len())[i as int] != word@[i as int]);
            return false;
        }
        i = i + 1;
    }
    assert(row@.subrange(at as int, at + word@.len()) =~= word@);
    true
}

/// How many characters `c` becomes in lower case.
fn lower_width(c: char) -> (r: usize)
    ensures
        r == lowered(seq![c]).len(),
{
    let mut s = String::new();
    s.push(c);
    assert(s@ =~= seq![c]);
    chars_of(&s.to_lowercase()).len()
}

/// Where each column of `row`, and its end, starts in the row in lower case.
fn lower_starts(row: &Vec<char>, total: usize) -> (r: Vec<usize>)
    requires
        total == lowered(row@).len(),
    ensures
        r@.len() == row@.len() + 1,
        forall|i: int| 0 <= i <= row@.len() ==> #[trigger] r@[i] == lower_start(row@, i),
        forall|i: int| 0 <= i <= row@.len() ==> #[trigger] r@[i] <= total,
{
    let mut starts: Vec<usize> = Vec::new();
    starts.push(0);
    let mut at: usize = 0;
    let mut i: usize = 0;
    while i < row.len()
        invariant
            i <= row@.len(),
            total == lowered(row@).len(),
            starts@.len() == i + 1,
            at == lower_start(row@, i as int),
            at <= total,
            forall|k: int| 0 <= k <= i ==> #[trigger] starts@[k] == lower_start(row@, k),
            forall|k: int| 0 <= k <= i ==> #[trigger] starts@[k] <= total,
        decreases row@.len() - i,
    {
        let width: usize = lower_width(row[i]);
        at = if width > total - at {
            total
        } else {
            at + width
        };
        assert(at == lower_start(row@, i + 1));
        starts.push(at);
        i = i + 1;
    }
    starts
}

proof fn lemma_first_stand(text: Seq<char>, word: Seq<char>, from: int, to: int)
    requires
        0 <= from <= to,
    ensures
        from <= first_stand(text, word, from, to) <= to,
        first_stand(text, word, from, to) < to ==> stands_at(
            text,
            word,
            first_stand(text, word, from, to),
        ),
    decreases to - from,
{
    if from < to && !stands_at(text, word, from) {
        lemma_first_stand(text, word, from + 1, to);
    }
}

proof fn lemma_no_stand(row: Seq<char>, word: Seq<char>, n: int)
    requires
        0 <= n <= row.len(),
        forall|at: int|
            0 <= at < lowered(row).len() ==> !(#[trigger] stands_at(lowered(row), word, at)),
    ensures
        word_cols(row, word, n) == Seq::<Cols>::empty(),
    decreases n,
{
    if n > 0 {
        lemma_no_stand(row, word, n - 1);
        lemma_lower_start(row, n - 1);
        lemma_first_stand(
            lowered(row),
            word,
            lower_start(row, n - 1),
            lower_start(row, n),
        );
    }
}

proof fn lemma_lower_start(row: Seq<char>, col: int)
    requires
        0 <= col,
    ensures
        0 <= lower_start(row, col) <= lower_start(row, col + 1) <= lowered(row).len(),
    decreases col,
{
    if col > 0 {
        lemma_lower_start(row, col - 1);
    }
}

/// Whether `word` stands anywhere in `text`.
fn stands_anywhere(text: &Vec<char>, word: &Vec<char>) -> (r: bool)
    ensures
        !r ==> forall|at: int|
            0 <= at < text@.len() ==> !(#[trigger] stands_at(text@, word@, at)),
{
    let mut i: usize = 0;
    while i < text.len()
        invariant
            i <= text@.len(),
            forall|at: int| 0 <= at < i ==> !(#[trigger] stands_at(text@, word@, at)),
        decreases text@.len() - i,
    {
        if word_stands(text, word, i) {
            return true;
        }
        i = i + 1;
    }
    false
}

/// Where `query` stands on `row`, in any case of letters.
fn find_plain(row: &str, query: &str) -> (r: Vec<(usize, usize)>)
    ensures
        cols_of(r@) == plain_cols(row@, query@),
{
    let word = chars_of(&query.to_lowercase());
    let text = chars_of(&row.to_lowercase());
    let mut spans: Vec<(usize, usize)> = Vec::new();
    assert(cols_of(spans@) =~= Seq::empty());
    if word.len() == 0 {
        return spans;
    }
    let line = chars_of(row);
    if !stands_anywhere(&text, &word) {
        proof {
            lemma_no_stand(line@, word@, line@.len() as int);
        }
        return spans;
    }
    let total: usize = text.len();
    let starts = lower_starts(&line, total);
    let mut col: usize = 0;
    while col < line.len()
        invariant
            col <= line@.len(),
            line@ == row@,
            text@ == lowered(line@),
            total == text@.len(),
            starts@.len() == line@.len() + 1,
            forall|i: int| 0 <= i <= line@.len() ==> #[trigger] starts@[i] == lower_start(line@, i),
            forall|i: int| 0 <= i <= line@.len() ==> #[trigger] starts@[i] <= total,
            cols_of(spans@) == word_cols(line@, word@, col as int),
        decreases line@.len() - col,
    {
        let from: usize = starts[col];
        let to: usize = starts[col + 1];
        let mut at: usize = from;
        proof {
            lemma_lower_start(line@, col as int);
            lemma_first_stand(text@, word@, from as int, to as int);
        }
        while at < to && !word_stands(&text, &word, at)
            invariant
                from <= at <= to <= total,
                total == text@.len(),
                first_stand(text@, word@, from as int, to as int) == first_stand(
                    text@,
                    word@,
                    at as int,
                    to as int,
                ),
            decreases to - at,
        {
            at = at + 1;
        }
        if at < to {
            assert(stands_at(text@, word@, at as int));
            let stop: usize = at + word.len();
            let mut end: usize = col + 1;
            while end < line.len() && starts[end] < stop
                invariant
                    col < end <= line@.len(),
                    starts@.len() == line@.len() + 1,
                    forall|i: int|
                        0 <= i <= line@.len() ==> #[trigger] starts@[i] == lower_start(line@, i),
                    col_from(line@, stop as int, col + 1) == col_from(
                        line@,
                        stop as int,
                        end as int,
                    ),
                decreases line@.len() - end,
            {
                end = end + 1;
            }
            assert(end < line@.len() ==> starts@[end as int] == lower_start(line@, end as int));
            let ghost before = spans@;
            spans.push((col, end));
            assert(cols_of(spans@) =~= cols_of(before).push(
                Cols { start: col as int, end: end as int },
            ));
        }
        col = col + 1;
    }
    spans
}

/// The matches of `query` on `row_str`, given what the regular expression `query`
/// finds there: the first column of each, and the one after its last.
pub fn spans_from_matches(row_str: &str, query: &str, found: &Option<Vec<(usize, usize)>>) -> (r: Vec<
    (usize, usize),
>)
    ensures
        cols_of(r@) == cols_from(row_str@, query@, listed(*found)),
{
    if query.is_empty() {
        let r: Vec<(usize, usize)> = Vec::new();
        assert(cols_of(r@) =~= Seq::empty());
        return r;
    }
    if let Some(matches) = found {
        let spans = matches_to_cols(&chars_of(row_str), matches);
        assert(cols_of(spans@).len() == spans@.len());
        if spans.len() > 0 || is_explicit_regex(query) {
            return spans;
        }
    }
    find_plain(row_str, query)
}

/// The matches of `query` on `row_str`: the first column of each, and the one after
/// its last. A query is a regular expression that ignores case; one that is none, or
/// that finds nothing and does not look like one, is searched for as it is.
pub fn row_match_spans(row_str: &str, query: &str) -> (r: Vec<(usize, usize)>)
    ensures
        cols_of(r@) == row_cols(row_str@, query@),
        cols_ascend(row_cols(row_str@, query@)),
{
    let found = find_matches(query, true, row_str);
    proof {
        law_matches_on_a_row_ascend(row_str@, query@, listed(found));
    }
    spans_from_matches(row_str, query, &found)
}

// ------------------------------------------------------------------------
// Order
// ------------------------------------------------------------------------

/// Each starts after the one before it, and none is empty.
pub open spec fn cols_ascend(cols: Seq<Cols>) -> bool {
    &&& forall|i: int| 0 <= i < cols.len() ==> (#[trigger] cols[i]).start < cols[i].end
    &&& forall|i: int, j: int|
        0 <= i < j < cols.len() ==> (#[trigger] cols[i]).start < (#[trigger] cols[j]).start
}

proof fn lemma_col_from(row: Seq<char>, at: int, col: int)
    requires
        0 <= col <= row.len(),
    ensures
        col <= col_from(row, at, col) <= row.len(),
    decreases row.len() - col,
{
    if col < row.len() && lower_start(row, col) < at {
        lemma_col_from(row, at, col + 1);
    }
}

proof fn lemma_word_cols(row: Seq<char>, word: Seq<char>, n: int)
    requires
        n <= row.len(),
    ensures
        cols_ascend(word_cols(row, word, n)),
        forall|i: int|
            0 <= i < word_cols(row, word, n).len() ==> 0 <= (#[trigger] word_cols(
                row,
                word,
                n,
            )[i]).start < n && word_cols(row, word, n)[i].end <= row.len(),
    decreases n,
{
    if n > 0 {
        lemma_word_cols(row, word, n - 1);
        let at = first_stand(
            lowered(row),
            word,
            lower_start(row, n - 1),
            lower_start(row, n),
        );
        lemma_col_from(row, at + word.len(), n);
    }
}

/// Where the text of a query stands is told in columns of the row, whatever its letters
/// become in lower case.
pub proof fn law_plain_matches_lie_on_the_row(row: Seq<char>, query: Seq<char>, i: int)
    requires
        0 <= i < plain_cols(row, query).len(),
    ensures
        0 <= plain_cols(row, query)[i].start < plain_cols(row, query)[i].end <= row.len(),
{
    lemma_word_cols(row, lowered(query), row.len() as int);
}

proof fn lemma_match_cols(row: Seq<char>, matches: Seq<(usize, usize)>, n: int)
    requires
        0 <= n <= matches.len(),
        in_order(matches),
    ensures
        cols_ascend(match_cols(row, matches, n)),
        forall|i: int|
            0 <= i < match_cols(row, matches, n).len() ==> (#[trigger] match_cols(
                row,
                matches,
                n,
            )[i]).end <= (if n > 0 {
                char_at_byte(row, matches[n - 1].1 as int)
            } else {
                0
            }),
    decreases n,
{
    if n > 0 {
        lemma_match_cols(row, matches, n - 1);
        lemma_char_at_byte(row, matches[n - 1].0 as int, matches[n - 1].1 as int);
        if n > 1 {
            lemma_char_at_byte(row, matches[n - 2].1 as int, matches[n - 1].0 as int);
        } else {
            assert(match_cols(row, matches, 0).len() == 0);
        }
    }
}

/// Matches on a row come in order, and none is empty.
pub proof fn law_matches_on_a_row_ascend(
    row: Seq<char>,
    query: Seq<char>,
    found: Option<Seq<(usize, usize)>>,
)
    requires
        found matches Some(matches) ==> in_order(matches),
    ensures
        cols_ascend(cols_from(row, query, found)),
{
    if let Some(matches) = found {
        lemma_match_cols(row, matches, matches.len() as int);
    }
    if lowered(query).len() > 0 {
        lemma_word_cols(row, lowered(query), row.len() as int);
    }
}

// ------------------------------------------------------------------------
// Matches in the buffer
// ------------------------------------------------------------------------

/// The characters in the cells of absolute row `row`.
pub open spec fn raw_row(grid: Grid, row: int) -> Seq<char> {
    Seq::new(grid.width() as nat, |col: int| grid.cell_at(row, col).ch)
}

/// The characters in the cells of absolute row `row`.
fn absolute_row_string(grid: &Grid, row: usize) -> (r: String)
    requires
        grid.wf(),
        row < grid.total(),
    ensures
        r@ == raw_row(*grid, row as int),
{
    let cols: usize = grid.cols();
    let mut chars: Vec<char> = Vec::new();
    let mut col: usize = 0;
    while col < cols
        invariant
            grid.wf(),
            row < grid.total(),
            cols == grid.width(),
            col <= cols,
            chars@ == raw_row(*grid, row as int).take(col as int),
        decreases cols - col,
    {
        if let Some(cell) = grid.absolute_cell(row, col) {
            chars.push(cell.ch);
        }
        assert(raw_row(*grid, row as int).take(col + 1) =~= raw_row(*grid, row as int).take(
            col as int,
        ).push(grid.cell_at(row as int, col as int).ch));
        col = col + 1;
    }
    assert(raw_row(*grid, row as int).take(col as int) =~= raw_row(*grid, row as int));
    string_of(&chars)
}

/// A match: its row and its columns.
pub struct Hit {
    pub row: int,
    pub start: int,
    pub end: int,
}

pub open spec fn hit(row: int, cols: Cols) -> Hit {
    Hit { row, start: cols.start, end: cols.end }
}

/// The matches on absolute row `row`.
pub open spec fn row_hits(grid: Grid, query: Seq<char>, row: int) -> Seq<Hit> {
    Seq::new(
        row_cols(raw_row(grid, row), query).len(),
        |i: int| hit(row, row_cols(raw_row(grid, row), query)[i]),
    )
}

/// The matches on absolute rows `first` up to `end`.
pub open spec fn hits(grid: Grid, query: Seq<char>, first: int, end: int) -> Seq<Hit>
    decreases end - first,
{
    if end <= first {
        Seq::empty()
    } else {
        hits(grid, query, first, end - 1) + row_hits(grid, query, end - 1)
    }
}

/// The matches in the whole buffer, in order.
pub open spec fn buffer_hits(grid: Grid, query: Seq<char>) -> Seq<Hit> {
    hits(grid, query, 0, grid.total())
}

/// A match as it is found.
#[derive(Clone, Copy, Debug)]
struct Found {
    row: usize,
    start: usize,
    end: usize,
}

spec fn found_hit(f: Found) -> Hit {
    Hit { row: f.row as int, start: f.start as int, end: f.end as int }
}

spec fn found_hits(v: Seq<Found>) -> Seq<Hit> {
    Seq::new(v.len(), |i: int| found_hit(v[i]))
}

fn find_hits(grid: &Grid, query: &str, first: usize, end: usize) -> (r: Vec<Found>)
    requires
        grid.wf(),
        first <= end <= grid.total(),
    ensures
        found_hits(r@) == hits(*grid, query@, first as int, end as int),
        forall|i: int| 0 <= i < r@.len() ==> (#[trigger] r@[i]).start < r@[i].end,
        positions_ascend(starts(hits(*grid, query@, first as int, end as int))),
{
    let mut out: Vec<Found> = Vec::new();
    let mut row: usize = first;
    assert(found_hits(out@) =~= Seq::empty());
    while row < end
        invariant
            grid.wf(),
            first <= row <= end <= grid.total(),
            found_hits(out@) == hits(*grid, query@, first as int, row as int),
            rows_ascend(*grid, query@, first as int, row as int),
            forall|i: int| 0 <= i < out@.len() ==> (#[trigger] out@[i]).start < out@[i].end,
        decreases end - row,
    {
        let line = absolute_row_string(grid, row);
        let spans = row_match_spans(&line, query);
        let ghost before = found_hits(out@);
        let ghost whole = row_hits(*grid, query@, row as int);
        let mut i: usize = 0;
        assert(found_hits(out@) =~= before + whole.take(0));
        while i < spans.len()
            invariant
                i <= spans@.len(),
                whole == row_hits(*grid, query@, row as int),
                cols_of(spans@) == row_cols(raw_row(*grid, row as int), query@),
                cols_ascend(cols_of(spans@)),
                found_hits(out@) == before + whole.take(i as int),
                forall|i: int| 0 <= i < out@.len() ==> (#[trigger] out@[i]).start < out@[i].end,
            decreases spans@.len() - i,
        {
            let (start, stop) = spans[i];
            let ghost mid = out@;
            assert(cols_of(spans@)[i as int].start < cols_of(spans@)[i as int].end);
            assert(cols_of(spans@)[i as int] == (Cols { start: start as int, end: stop as int }));
            out.push(Found { row, start, end: stop });
            assert(found_hits(out@) =~= found_hits(mid).push(whole[i as int]));
            assert(whole.take(i + 1) =~= whole.take(i as int).push(whole[i as int]));
            assert(found_hits(out@) =~= before + whole.take(i + 1));
            i = i + 1;
        }
        assert(whole.take(i as int) =~= whole);
        row = row + 1;
    }
    proof {
        law_matches_in_the_buffer_ascend(*grid, query@, first as int, end as int);
    }
    out
}

/// The first and last cell of each match in the buffer, in order.
pub open spec fn span_cells(hits: Seq<Hit>) -> Seq<((int, int), (int, int))> {
    Seq::new(hits.len(), |i: int| ((hits[i].row, hits[i].start), (hits[i].row, hits[i].end - 1)))
}

/// Pairs of cells as whole numbers.
pub open spec fn cell_pairs(v: Seq<((usize, usize), (usize, usize))>) -> Seq<
    ((int, int), (int, int)),
> {
    Seq::new(
        v.len(),
        |i: int| ((v[i].0.0 as int, v[i].0.1 as int), (v[i].1.0 as int, v[i].1.1 as int)),
    )
}

/// The first and last cell of each match of `query` in the buffer, in order.
pub fn buffer_match_spans(grid: &Grid, query: &str) -> (r: Vec<((usize, usize), (usize, usize))>)
    requires
        grid.wf(),
    ensures
        cell_pairs(r@) == span_cells(buffer_hits(*grid, query@)),
{
    let rows: usize = grid.scrollback_len() + grid.rows();
    let found = find_hits(grid, query, 0, rows);
    let mut out: Vec<((usize, usize), (usize, usize))> = Vec::new();
    let mut i: usize = 0;
    let ghost whole = span_cells(buffer_hits(*grid, query@));
    while i < found.len()
        invariant
            i <= found@.len(),
            whole == span_cells(buffer_hits(*grid, query@)),
            found_hits(found@) == buffer_hits(*grid, query@),
            forall|i: int| 0 <= i < found@.len() ==> (#[trigger] found@[i]).start < found@[i].end,
            cell_pairs(out@) =~= whole.take(i as int),
        decreases found@.len() - i,
    {
        let f: Found = found[i];
        assert(found@[i as int].start < found@[i as int].end);
        assert(found_hits(found@)[i as int] == found_hit(f));
        let ghost before = out@;
        out.push(((f.row, f.start), (f.row, f.end - 1)));
        assert(cell_pairs(out@) =~= cell_pairs(before).push(whole[i as int]));
        assert(whole.take(i + 1) =~= whole.take(i as int).push(whole[i as int]));
        i = i + 1;
    }
    assert(whole.take(i as int) =~= whole);
    out
}

/// Where each of `hits` starts.
pub open spec fn starts(hits: Seq<Hit>) -> Seq<(int, int)> {
    Seq::new(hits.len(), |i: int| (hits[i].row, hits[i].start))
}

/// Cells as whole numbers.
pub open spec fn cells(v: Seq<(usize, usize)>) -> Seq<(int, int)> {
    Seq::new(v.len(), |i: int| (v[i].0 as int, v[i].1 as int))
}

/// Where each match of `query` in the buffer starts, in order: the absolute row, and
/// the column.
pub fn buffer_match_starts(grid: &Grid, query: &str) -> (r: Vec<MatchPos>)
    requires
        grid.wf(),
    ensures
        cells(r@) == starts(buffer_hits(*grid, query@)),
        positions_ascend(cells(r@)),
{
    let rows: usize = grid.scrollback_len() + grid.rows();
    let found = find_hits(grid, query, 0, rows);
    let mut out: Vec<MatchPos> = Vec::new();
    let mut i: usize = 0;
    let ghost whole = starts(buffer_hits(*grid, query@));
    while i < found.len()
        invariant
            i <= found@.len(),
            whole == starts(buffer_hits(*grid, query@)),
            positions_ascend(whole),
            found_hits(found@) == buffer_hits(*grid, query@),
            cells(out@) =~= whole.take(i as int),
        decreases found@.len() - i,
    {
        let f: Found = found[i];
        assert(found_hits(found@)[i as int] == found_hit(f));
        let ghost before = out@;
        out.push((f.row, f.start));
        assert(cells(out@) =~= cells(before).push(whole[i as int]));
        assert(whole.take(i + 1) =~= whole.take(i as int).push(whole[i as int]));
        i = i + 1;
    }
    assert(whole.take(i as int) =~= whole);
    out
}

/// The cells of the columns from `start` up to `end` of row `row`.
pub open spec fn cells_across(row: int, start: int, end: int) -> Seq<(int, int)> {
    Seq::new((end - start) as nat, |i: int| (row, start + i))
}

/// The cells of the first `n` of `hits`, with rows counted from `top`.
pub open spec fn hit_cells(hits: Seq<Hit>, top: int, n: int) -> Seq<(int, int)>
    decreases n,
{
    if n <= 0 {
        Seq::empty()
    } else {
        hit_cells(hits, top, n - 1) + cells_across(
            hits[n - 1].row - top,
            hits[n - 1].start,
            hits[n - 1].end,
        )
    }
}

/// The matches in view.
pub open spec fn view_hits(grid: Grid, query: Seq<char>) -> Seq<Hit> {
    hits(grid, query, grid.top(), grid.top() + grid.height())
}

/// The cells of the view that matches of `query` cover.
pub fn visible_match_cells(grid: &Grid, query: &str) -> (r: Vec<(usize, usize)>)
    requires
        grid.wf(),
    ensures
        cells(r@) == hit_cells(
            view_hits(*grid, query@),
            grid.top(),
            view_hits(*grid, query@).len() as int,
        ),
{
    let top: usize = grid.to_absolute_row(0);
    let found = find_hits(grid, query, top, top + grid.rows());
    let mut out: Vec<(usize, usize)> = Vec::new();
    let mut i: usize = 0;
    let ghost whole = view_hits(*grid, query@);
    proof {
        lemma_hit_rows(*grid, query@, grid.top(), grid.top() + grid.height());
    }
    assert(cells(out@) =~= hit_cells(whole, top as int, 0));
    while i < found.len()
        invariant
            i <= found@.len(),
            found_hits(found@) == whole,
            top == grid.top(),
            forall|k: int| 0 <= k < whole.len() ==> (#[trigger] whole[k]).row >= top,
            forall|i: int| 0 <= i < found@.len() ==> (#[trigger] found@[i]).start < found@[i].end,
            cells(out@) == hit_cells(whole, top as int, i as int),
        decreases found@.len() - i,
    {
        let f: Found = found[i];
        assert(found@[i as int].start < found@[i as int].end);
        assert(whole[i as int] == found_hit(f));
        let ghost before = cells(out@);
        let ghost across = cells_across(f.row - top, f.start as int, f.end as int);
        let mut col: usize = f.start;
        assert(cells(out@) =~= before + across.take(0));
        while col < f.end
            invariant
                f.start <= col <= f.end,
                f.row >= top,
                across == cells_across(f.row - top, f.start as int, f.end as int),
                cells(out@) == before + across.take(col - f.start),
            decreases f.end - col,
        {
            let ghost mid = out@;
            out.push((f.row - top, col));
            assert(cells(out@) =~= cells(mid).push((f.row - top, col as int)));
            assert(across.take(col + 1 - f.start) =~= across.take(col - f.start).push(
                (f.row - top, col as int),
            ));
            assert(cells(out@) =~= before + across.take(col + 1 - f.start));
            col = col + 1;
        }
        assert(across.take(f.end - f.start) =~= across);
        i = i + 1;
    }
    out
}

proof fn lemma_hit_rows(grid: Grid, query: Seq<char>, first: int, end: int)
    ensures
        forall|k: int|
            0 <= k < hits(grid, query, first, end).len() ==> first <= (#[trigger] hits(
                grid,
                query,
                first,
                end,
            )[k]).row < end,
    decreases end - first,
{
    if first < end {
        lemma_hit_rows(grid, query, first, end - 1);
        let before = hits(grid, query, first, end - 1);
        let all = hits(grid, query, first, end);
        assert forall|k: int| 0 <= k < all.len() implies first <= (#[trigger] all[k]).row < end by {
            if k < before.len() {
                assert(all[k] == before[k]);
            } else {
                assert(all[k] == row_hits(grid, query, end - 1)[k - before.len()]);
            }
        }
    }
}

/// The cells highlighted are as many as the matches in view are long, all told: what
/// is highlighted and what is counted are the same matches.
pub proof fn law_highlight_is_what_is_counted(hits: Seq<Hit>, top: int, n: int, len: int)
    requires
        0 <= n <= hits.len(),
        0 <= len,
        forall|i: int| 0 <= i < n ==> (#[trigger] hits[i]).end - hits[i].start == len,
    ensures
        hit_cells(hits, top, n).len() == n * len,
    decreases n,
{
    if n > 0 {
        law_highlight_is_what_is_counted(hits, top, n - 1, len);
        assert(hits[n - 1].end - hits[n - 1].start == len);
        assert(n * len == (n - 1) * len + len) by (nonlinear_arith);
    } else {
        assert(n * len == 0) by (nonlinear_arith)
            requires
                n == 0,
        ;
    }
}

// ------------------------------------------------------------------------
// Stepping
// ------------------------------------------------------------------------

/// Position `a` comes before position `b` in the buffer.
pub open spec fn before(a: (int, int), b: (int, int)) -> bool {
    a.0 < b.0 || (a.0 == b.0 && a.1 < b.1)
}

fn is_before(a: (usize, usize), b: (usize, usize)) -> (r: bool)
    ensures
        r == before((a.0 as int, a.1 as int), (b.0 as int, b.1 as int)),
{
    a.0 < b.0 || (a.0 == b.0 && a.1 < b.1)
}

/// The first of `matches` from index `i` on that comes after `from`, or the first of
/// all.
pub open spec fn match_after(matches: Seq<(int, int)>, from: (int, int), i: int) -> int
    decreases matches.len() - i,
{
    if i < 0 || i >= matches.len() {
        0
    } else if before(from, matches[i]) {
        i
    } else {
        match_after(matches, from, i + 1)
    }
}

/// The last of the first `n` of `matches` that comes before `from`, or the last of
/// all.
pub open spec fn match_before(matches: Seq<(int, int)>, from: (int, int), n: int) -> int
    decreases n,
{
    if n <= 0 {
        matches.len() - 1
    } else if before(matches[n - 1], from) {
        n - 1
    } else {
        match_before(matches, from, n - 1)
    }
}

/// Which match a step from `from` lands on.
pub open spec fn stepped_match(
    matches: Seq<(int, int)>,
    from: (int, int),
    direction: BlockNav,
) -> int {
    match direction {
        BlockNav::Next => match_after(matches, from, 0),
        BlockNav::Previous => match_before(matches, from, matches.len() as int),
    }
}

/// Which match a step from `from` lands on: the next one in `direction`, going round
/// at the end.
pub fn step_match(matches: &Vec<MatchPos>, from: MatchPos, direction: BlockNav) -> (r: usize)
    requires
        matches@.len() > 0,
    ensures
        r == stepped_match(cells(matches@), (from.0 as int, from.1 as int), direction),
        r < matches@.len(),
{
    let ghost all = cells(matches@);
    let ghost at = (from.0 as int, from.1 as int);
    match direction {
        BlockNav::Next => {
            let mut i: usize = 0;
            while i < matches.len()
                invariant
                    i <= matches@.len(),
                    all == cells(matches@),
                    at == (from.0 as int, from.1 as int),
                    direction == BlockNav::Next,
                    match_after(all, at, 0) == match_after(all, at, i as int),
                decreases matches@.len() - i,
            {
                assert(all[i as int] == (matches@[i as int].0 as int, matches@[i as int].1 as int));
                if is_before(from, matches[i]) {
                    return i;
                }
                i = i + 1;
            }
            0
        },
        BlockNav::Previous => {
            let mut n: usize = matches.len();
            while n > 0
                invariant
                    n <= matches@.len(),
                    matches@.len() > 0,
                    all == cells(matches@),
                    at == (from.0 as int, from.1 as int),
                    direction == BlockNav::Previous,
                    match_before(all, at, all.len() as int) == match_before(all, at, n as int),
                decreases n,
            {
                assert(all[n - 1] == (matches@[n - 1].0 as int, matches@[n - 1].1 as int));
                if is_before(matches[n - 1], from) {
                    return n - 1;
                }
                n = n - 1;
            }
            matches.len() - 1
        },
    }
}

/// Positions come in order.
pub open spec fn positions_ascend(matches: Seq<(int, int)>) -> bool {
    forall|i: int, j: int|
        0 <= i < j < matches.len() ==> before(#[trigger] matches[i], #[trigger] matches[j])
}

proof fn lemma_match_after(matches: Seq<(int, int)>, k: int, i: int)
    requires
        positions_ascend(matches),
        0 <= i <= k + 1,
        0 <= k < matches.len(),
    ensures
        match_after(matches, matches[k], i) == if k + 1 < matches.len() {
            k + 1
        } else {
            0
        },
    decreases matches.len() - i,
{
    if i <= k {
        if i < k {
            assert(before(matches[i], matches[k]));
        }
        lemma_match_after(matches, k, i + 1);
    } else if i < matches.len() {
        assert(before(matches[k], matches[i]));
    }
}

proof fn lemma_match_before(matches: Seq<(int, int)>, k: int, n: int)
    requires
        positions_ascend(matches),
        k <= n <= matches.len(),
        0 <= k < matches.len(),
    ensures
        match_before(matches, matches[k], n) == if k > 0 {
            k - 1
        } else {
            matches.len() - 1
        },
    decreases n,
{
    if n > k {
        if n - 1 > k {
            assert(before(matches[k], matches[n - 1]));
        }
        lemma_match_before(matches, k, n - 1);
    } else if n > 0 {
        assert(before(matches[n - 1], matches[k]));
    }
}

/// From one match a step lands on the next, and from the last on the first; a step
/// the other way lands on the one before, and from the first on the last. So repeats
/// visit every match in turn, and one step undoes the other.
pub proof fn law_repeats_visit_each_match_in_turn(matches: Seq<(int, int)>, k: int)
    requires
        positions_ascend(matches),
        0 <= k < matches.len(),
    ensures
        stepped_match(matches, matches[k], BlockNav::Next) == if k + 1 < matches.len() {
            k + 1
        } else {
            0
        },
        stepped_match(matches, matches[k], BlockNav::Previous) == if k > 0 {
            k - 1
        } else {
            matches.len() - 1
        },
        stepped_match(
            matches,
            matches[stepped_match(matches, matches[k], BlockNav::Next)],
            BlockNav::Previous,
        ) == k,
{
    lemma_match_after(matches, k, 0);
    lemma_match_before(matches, k, matches.len() as int);
    let next = stepped_match(matches, matches[k], BlockNav::Next);
    lemma_match_before(matches, next, matches.len() as int);
}

/// The matches on each of the rows `first` up to `end` come in order.
pub open spec fn rows_ascend(grid: Grid, query: Seq<char>, first: int, end: int) -> bool {
    forall|row: int|
        first <= row < end ==> cols_ascend(#[trigger] row_cols(raw_row(grid, row), query))
}

/// Matches in the buffer come in order, when those on each row do.
pub proof fn law_matches_in_the_buffer_ascend(grid: Grid, query: Seq<char>, first: int, end: int)
    requires
        rows_ascend(grid, query, first, end),
    ensures
        positions_ascend(starts(hits(grid, query, first, end))),
    decreases end - first,
{
    if first < end {
        law_matches_in_the_buffer_ascend(grid, query, first, end - 1);
        lemma_hit_rows(grid, query, first, end - 1);
        let before_hits = hits(grid, query, first, end - 1);
        let all = starts(hits(grid, query, first, end));
        let cols = row_cols(raw_row(grid, end - 1), query);
        assert(cols_ascend(cols));
        assert forall|i: int, j: int| 0 <= i < j < all.len() implies before(
            #[trigger] all[i],
            #[trigger] all[j],
        ) by {
            let n = before_hits.len();
            if j < n {
                assert(starts(before_hits)[i] == all[i]);
                assert(starts(before_hits)[j] == all[j]);
            } else {
                assert(all[j] == (end - 1, cols[j - n].start));
                if i < n {
                    assert(all[i].0 == before_hits[i].row);
                } else {
                    assert(all[i] == (end - 1, cols[i - n].start));
                }
            }
        }
    }
}

/// The first span from index `i` on that starts no earlier than `at`, or the first
/// of all.
pub open spec fn span_from(spans: Seq<((int, int), (int, int))>, at: (int, int), i: int) -> int
    decreases spans.len() - i,
{
    if i < 0 || i >= spans.len() {
        0
    } else if !before(spans[i].0, at) {
        i
    } else {
        span_from(spans, at, i + 1)
    }
}

/// The last of the first `n` spans that ends no later than `at`, or the last of all.
pub open spec fn span_until(spans: Seq<((int, int), (int, int))>, at: (int, int), n: int) -> int
    decreases n,
{
    if n <= 0 {
        spans.len() - 1
    } else if !before(at, spans[n - 1].1) {
        n - 1
    } else {
        span_until(spans, at, n - 1)
    }
}

/// Which match is selected from `at`.
pub open spec fn selected_span(
    spans: Seq<((int, int), (int, int))>,
    at: (int, int),
    forward: bool,
) -> int {
    if forward {
        span_from(spans, at, 0)
    } else {
        span_until(spans, at, spans.len() as int)
    }
}

/// Which match is selected from `at`: forward the first that starts there or later,
/// backward the last that ends there or earlier, going round at the end.
pub fn pick_span(
    spans: &Vec<((usize, usize), (usize, usize))>,
    at: (usize, usize),
    forward: bool,
) -> (r: usize)
    requires
        spans@.len() > 0,
    ensures
        r == selected_span(cell_pairs(spans@), (at.0 as int, at.1 as int), forward),
        r < spans@.len(),
{
    let ghost all = cell_pairs(spans@);
    let ghost here = (at.0 as int, at.1 as int);
    if forward {
        let mut i: usize = 0;
        while i < spans.len()
            invariant
                i <= spans@.len(),
                forward,
                all == cell_pairs(spans@),
                here == (at.0 as int, at.1 as int),
                span_from(all, here, 0) == span_from(all, here, i as int),
            decreases spans@.len() - i,
        {
            assert(all[i as int].0 == (spans@[i as int].0.0 as int, spans@[i as int].0.1 as int));
            if !is_before(spans[i].0, at) {
                return i;
            }
            i = i + 1;
        }
        0
    } else {
        let mut n: usize = spans.len();
        while n > 0
            invariant
                n <= spans@.len(),
                spans@.len() > 0,
                !forward,
                all == cell_pairs(spans@),
                here == (at.0 as int, at.1 as int),
                span_until(all, here, all.len() as int) == span_until(all, here, n as int),
            decreases n,
        {
            assert(all[n - 1].1 == (spans@[n - 1].1.0 as int, spans@[n - 1].1.1 as int));
            if !is_before(at, spans[n - 1].1) {
                return n - 1;
            }
            n = n - 1;
        }
        spans.len() - 1
    }
}

/// The first span from index `i` on that starts on row `row`, at column `col` or
/// later.
pub open spec fn on_row_from(
    spans: Seq<((int, int), (int, int))>,
    row: int,
    col: int,
    i: int,
) -> Option<int>
    decreases spans.len() - i,
{
    if i < 0 || i >= spans.len() {
        None
    } else if spans[i].0.0 == row && spans[i].0.1 >= col {
        Some(i)
    } else {
        on_row_from(spans, row, col, i + 1)
    }
}

/// The last of the first `n` spans that ends on row `row`, at column `col` or
/// earlier.
pub open spec fn on_row_until(
    spans: Seq<((int, int), (int, int))>,
    row: int,
    col: int,
    n: int,
) -> Option<int>
    decreases n,
{
    if n <= 0 {
        None
    } else if spans[n - 1].1.0 == row && spans[n - 1].1.1 <= col {
        Some(n - 1)
    } else {
        on_row_until(spans, row, col, n - 1)
    }
}

/// The last of the first `n` spans that starts on row `row`.
pub open spec fn last_on_row(spans: Seq<((int, int), (int, int))>, row: int, n: int) -> Option<int>
    decreases n,
{
    if n <= 0 {
        None
    } else if spans[n - 1].0.0 == row {
        Some(n - 1)
    } else {
        last_on_row(spans, row, n - 1)
    }
}

/// Which match on row `row` is meant from column `col`: the nearest one that way,
/// else the first, or last, on the row.
pub open spec fn row_target(
    spans: Seq<((int, int), (int, int))>,
    row: int,
    col: int,
    forward: bool,
) -> Option<int> {
    if forward {
        match on_row_from(spans, row, col, 0) {
            Some(i) => Some(i),
            None => on_row_from(spans, row, 0, 0),
        }
    } else {
        match on_row_until(spans, row, col, spans.len() as int) {
            Some(i) => Some(i),
            None => last_on_row(spans, row, spans.len() as int),
        }
    }
}

/// An index that may be missing.
pub open spec fn index_of(i: Option<usize>) -> Option<int> {
    match i {
        Some(i) => Some(i as int),
        None => None,
    }
}

fn first_on_row(spans: &Vec<((usize, usize), (usize, usize))>, row: usize, col: usize) -> (r: Option<
    usize,
>)
    ensures
        index_of(r) == on_row_from(cell_pairs(spans@), row as int, col as int, 0),
        r matches Some(i) ==> i < spans@.len(),
{
    let ghost all = cell_pairs(spans@);
    let mut i: usize = 0;
    while i < spans.len()
        invariant
            i <= spans@.len(),
            all == cell_pairs(spans@),
            on_row_from(all, row as int, col as int, 0) == on_row_from(
                all,
                row as int,
                col as int,
                i as int,
            ),
        decreases spans@.len() - i,
    {
        assert(all[i as int].0 == (spans@[i as int].0.0 as int, spans@[i as int].0.1 as int));
        if spans[i].0.0 == row && spans[i].0.1 >= col {
            return Some(i);
        }
        i = i + 1;
    }
    None
}

/// Which match on row `row` is meant from column `col`: the nearest one that way,
/// else the first, or last, on the row.
pub fn pick_on_row(
    spans: &Vec<((usize, usize), (usize, usize))>,
    row: usize,
    col: usize,
    forward: bool,
) -> (r: Option<usize>)
    ensures
        index_of(r) == row_target(cell_pairs(spans@), row as int, col as int, forward),
        r matches Some(i) ==> i < spans@.len(),
{
    if forward {
        return match first_on_row(spans, row, col) {
            Some(i) => Some(i),
            None => first_on_row(spans, row, 0),
        };
    }
    let ghost all = cell_pairs(spans@);
    let mut n: usize = spans.len();
    while n > 0
        invariant
            n <= spans@.len(),
            !forward,
            all == cell_pairs(spans@),
            on_row_until(all, row as int, col as int, all.len() as int) == on_row_until(
                all,
                row as int,
                col as int,
                n as int,
            ),
        decreases n,
    {
        assert(all[n - 1].1 == (spans@[n - 1].1.0 as int, spans@[n - 1].1.1 as int));
        if spans[n - 1].1.0 == row && spans[n - 1].1.1 <= col {
            return Some(n - 1);
        }
        n = n - 1;
    }
    let mut m: usize = spans.len();
    while m > 0
        invariant
            m <= spans@.len(),
            !forward,
            all == cell_pairs(spans@),
            on_row_until(all, row as int, col as int, all.len() as int) is None,
            last_on_row(all, row as int, all.len() as int) == last_on_row(
                all,
                row as int,
                m as int,
            ),
        decreases m,
    {
        assert(all[m - 1].0 == (spans@[m - 1].0.0 as int, spans@[m - 1].0.1 as int));
        if spans[m - 1].0.0 == row {
            return Some(m - 1);
        }
        m = m - 1;
    }
    None
}

// ------------------------------------------------------------------------
// Laws
// ------------------------------------------------------------------------

/// `n` goes to the nearest match after the place it starts from, and round to the first when
/// there is none; `N` goes to the nearest before it, and round to the last.
pub proof fn law_a_step_goes_to_the_nearest_match(matches: Seq<(int, int)>, from: (int, int))
    requires
        matches.len() > 0,
        positions_ascend(matches),
    ensures
        ({
            let on = stepped_match(matches, from, BlockNav::Next);
            let back = stepped_match(matches, from, BlockNav::Previous);
            &&& 0 <= on < matches.len()
            &&& 0 <= back < matches.len()
            &&& forall|k: int|
                0 <= k < matches.len() && before(from, #[trigger] matches[k]) ==> before(
                    from,
                    matches[on],
                ) && on <= k
            &&& (forall|k: int|
                0 <= k < matches.len() ==> !before(from, #[trigger] matches[k])) ==> on == 0
            &&& forall|k: int|
                0 <= k < matches.len() && before(#[trigger] matches[k], from) ==> before(
                    matches[back],
                    from,
                ) && k <= back
            &&& (forall|k: int|
                0 <= k < matches.len() ==> !before(#[trigger] matches[k], from)) ==> back
                == matches.len() - 1
        }),
{
    lemma_nearest_after(matches, from, 0);
    lemma_nearest_before(matches, from, matches.len() as int);
}

proof fn lemma_nearest_after(matches: Seq<(int, int)>, from: (int, int), i: int)
    requires
        0 <= i <= matches.len(),
        matches.len() > 0,
        forall|k: int| 0 <= k < i ==> !before(from, #[trigger] matches[k]),
    ensures
        ({
            let on = match_after(matches, from, i);
            &&& 0 <= on < matches.len()
            &&& (before(from, matches[on]) && forall|k: int|
                0 <= k < on ==> !before(from, #[trigger] matches[k])) || (on == 0 && forall|k: int|
                0 <= k < matches.len() ==> !before(from, #[trigger] matches[k]))
        }),
    decreases matches.len() - i,
{
    if i < matches.len() && !before(from, matches[i]) {
        lemma_nearest_after(matches, from, i + 1);
    }
}

proof fn lemma_nearest_before(matches: Seq<(int, int)>, from: (int, int), n: int)
    requires
        0 <= n <= matches.len(),
        matches.len() > 0,
        forall|k: int| n <= k < matches.len() ==> !before(#[trigger] matches[k], from),
    ensures
        ({
            let back = match_before(matches, from, n);
            &&& 0 <= back < matches.len()
            &&& (before(matches[back], from) && forall|k: int|
                back < k < matches.len() ==> !before(#[trigger] matches[k], from)) || (back
                == matches.len() - 1 && forall|k: int|
                0 <= k < matches.len() ==> !before(#[trigger] matches[k], from))
        }),
    decreases n,
{
    if n > 0 && !before(matches[n - 1], from) {
        lemma_nearest_before(matches, from, n - 1);
    }
}

/// Forward, the match that is taken is the first that starts at the cursor or later, and round
/// the first of all; backward, the last that ends at the cursor or earlier, and round the last
/// of all.
pub proof fn law_the_nearest_match_is_taken(
    spans: Seq<((int, int), (int, int))>,
    at: (int, int),
)
    requires
        spans.len() > 0,
    ensures
        ({
            let on = selected_span(spans, at, true);
            let back = selected_span(spans, at, false);
            &&& 0 <= on < spans.len()
            &&& 0 <= back < spans.len()
            &&& forall|k: int|
                0 <= k < spans.len() && !before((#[trigger] spans[k]).0, at) ==> on <= k && !before(
                    spans[on].0,
                    at,
                )
            &&& (forall|k: int| 0 <= k < spans.len() ==> before((#[trigger] spans[k]).0, at))
                ==> on == 0
            &&& forall|k: int|
                0 <= k < spans.len() && !before(at, (#[trigger] spans[k]).1) ==> k <= back
                    && !before(at, spans[back].1)
            &&& (forall|k: int| 0 <= k < spans.len() ==> before(at, (#[trigger] spans[k]).1))
                ==> back == spans.len() - 1
        }),
{
    lemma_span_from(spans, at, 0);
    lemma_span_until(spans, at, spans.len() as int);
}

proof fn lemma_span_from(spans: Seq<((int, int), (int, int))>, at: (int, int), i: int)
    requires
        0 <= i <= spans.len(),
        spans.len() > 0,
        forall|k: int| 0 <= k < i ==> before((#[trigger] spans[k]).0, at),
    ensures
        ({
            let on = span_from(spans, at, i);
            &&& 0 <= on < spans.len()
            &&& (!before(spans[on].0, at) && forall|k: int|
                0 <= k < on ==> before((#[trigger] spans[k]).0, at)) || (on == 0 && forall|k: int|
                0 <= k < spans.len() ==> before((#[trigger] spans[k]).0, at))
        }),
    decreases spans.len() - i,
{
    if i < spans.len() && before(spans[i].0, at) {
        lemma_span_from(spans, at, i + 1);
    }
}

proof fn lemma_span_until(spans: Seq<((int, int), (int, int))>, at: (int, int), n: int)
    requires
        0 <= n <= spans.len(),
        spans.len() > 0,
        forall|k: int| n <= k < spans.len() ==> before(at, (#[trigger] spans[k]).1),
    ensures
        ({
            let back = span_until(spans, at, n);
            &&& 0 <= back < spans.len()
            &&& (!before(at, spans[back].1) && forall|k: int|
                back < k < spans.len() ==> before(at, (#[trigger] spans[k]).1)) || (back
                == spans.len() - 1 && forall|k: int|
                0 <= k < spans.len() ==> before(at, (#[trigger] spans[k]).1))
        }),
    decreases n,
{
    if n > 0 && before(at, spans[n - 1].1) {
        lemma_span_until(spans, at, n - 1);
    }
}

/// The word that `*` searches for is the whole run of letters, digits and underscores that the
/// cursor is in; there is none elsewhere.
pub proof fn law_the_word_under_the_cursor_is_whole(line: Seq<char>, col: int)
    ensures
        match keyword_at(line, col) {
            Some(word) => exists|a: int, b: int|
                {
                    &&& 0 <= a <= col < b <= line.len()
                    &&& #[trigger] line.subrange(a, b) == word
                    &&& forall|k: int|
                        a <= k < b ==> wordy(#[trigger] line[k]) && !unprinted(line[k])
                    &&& a > 0 ==> !wordy(line[a - 1]) || unprinted(line[a - 1])
                    &&& b < line.len() ==> !wordy(line[b]) || unprinted(line[b])
                },
            None => !(0 <= col < line.len() && wordy(line[col]) && !unprinted(line[col])),
        },
{
    if 0 <= col < line.len() && class_of(line[col], false) == 1 {
        lemma_run(line, col, 1, false);
        lemma_run_back(line, col, 1, false);
        let a = class_start(line, col, 1, false);
        let b = class_end(line, col, 1, false);
        assert(line.subrange(a, b) == keyword_at(line, col)->0);
    }
}

proof fn lemma_start_kept(row: Seq<char>, col: int)
    requires
        0 <= col <= row.len(),
        lowered(row).len() == row.len(),
        forall|k: int| 0 <= k < row.len() ==> lowered(seq![#[trigger] row[k]]).len() == 1,
    ensures
        lower_start(row, col) == col,
    decreases col,
{
    if col > 0 {
        lemma_start_kept(row, col - 1);
        assert(lowered(seq![row[col - 1]]).len() == 1);
    }
}

proof fn lemma_col_kept(row: Seq<char>, at: int, col: int)
    requires
        0 <= col <= at <= row.len(),
        lowered(row).len() == row.len(),
        forall|k: int| 0 <= k < row.len() ==> lowered(seq![#[trigger] row[k]]).len() == 1,
    ensures
        col_from(row, at, col) == at,
    decreases at - col,
{
    lemma_start_kept(row, col);
    if col < at {
        lemma_col_kept(row, at, col + 1);
    }
}

proof fn lemma_all_places(row: Seq<char>, word: Seq<char>, n: int)
    requires
        0 <= n <= row.len(),
        word.len() > 0,
        lowered(row).len() == row.len(),
        forall|k: int| 0 <= k < row.len() ==> lowered(seq![#[trigger] row[k]]).len() == 1,
    ensures
        forall|i: int|
            0 <= i < word_cols(row, word, n).len() ==> {
                let c = #[trigger] word_cols(row, word, n)[i];
                &&& 0 <= c.start < n
                &&& c.end == c.start + word.len()
                &&& c.end <= row.len()
                &&& lowered(row).subrange(c.start, c.end) == word
            },
        forall|at: int|
            0 <= at < n && at + word.len() <= row.len() && #[trigger] lowered(row).subrange(
                at,
                at + word.len(),
            ) == word ==> word_cols(row, word, n).contains(
                Cols { start: at, end: at + word.len() },
            ),
    decreases n,
{
    if n > 0 {
        lemma_all_places(row, word, n - 1);
        lemma_start_kept(row, n - 1);
        lemma_start_kept(row, n);
        let low = lowered(row);
        let all = word_cols(row, word, n);
        let less = word_cols(row, word, n - 1);
        assert(first_stand(low, word, n - 1, n) == (if stands_at(low, word, n - 1) {
            n - 1
        } else {
            n
        })) by {
            assert(first_stand(low, word, n, n) == n);
        }
        if stands_at(low, word, n - 1) {
            lemma_col_kept(row, n - 1 + word.len(), n);
            let last = Cols { start: n - 1, end: n - 1 + word.len() };
            assert(all == less.push(last));
            assert(all[less.len() as int] == last);
            assert forall|at: int|
                0 <= at < n && at + word.len() <= row.len() && #[trigger] low.subrange(
                    at,
                    at + word.len(),
                ) == word implies all.contains(Cols { start: at, end: at + word.len() }) by {
                if at < n - 1 {
                    let i = choose|i: int|
                        0 <= i < less.len() && less[i] == (Cols {
                            start: at,
                            end: at + word.len(),
                        });
                    assert(all[i] == less[i]);
                }
            }
        } else {
            assert(all == less);
        }
    }
}

/// Where each character of a row is one character in lower case, the plain matches of a query
/// are all the places at which the query stands on the row, in any case of letters, and no
/// others.
pub proof fn law_plain_matches_are_all_the_places(row: Seq<char>, query: Seq<char>)
    requires
        lowered(query).len() > 0,
        lowered(row).len() == row.len(),
        forall|k: int| 0 <= k < row.len() ==> lowered(seq![#[trigger] row[k]]).len() == 1,
    ensures
        forall|i: int|
            0 <= i < plain_cols(row, query).len() ==> {
                let c = #[trigger] plain_cols(row, query)[i];
                &&& 0 <= c.start
                &&& c.end == c.start + lowered(query).len()
                &&& c.end <= row.len()
                &&& lowered(row).subrange(c.start, c.end) == lowered(query)
            },
        forall|at: int|
            0 <= at && at + lowered(query).len() <= row.len() && #[trigger] lowered(row).subrange(
                at,
                at + lowered(query).len(),
            ) == lowered(query) ==> plain_cols(row, query).contains(
                Cols { start: at, end: at + lowered(query).len() },
            ),
{
    lemma_all_places(row, lowered(query), row.len() as int);
}

} // verus!
