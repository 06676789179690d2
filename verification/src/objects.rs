//! Vim's text objects: brackets, quotes, words, sentences and paragraphs.

use vstd::prelude::*;
use crate::grid::is_blank;
use crate::words::{
    char_class, class_end, class_of, class_start, lemma_class_end, lemma_classes, lemma_run,
    lemma_run_back, of_one_word, skip_class, skip_class_back, unprinted,
};

verus! {

// ------------------------------------------------------------------------
// Rows of text
// ------------------------------------------------------------------------

/// Rows of characters laid end to end, so that reading order is index order.
pub struct RowText {
    chars: Vec<char>,
    /// Where each row starts, and where the last one ends.
    starts: Vec<usize>,
}

/// The rows laid end to end.
pub open spec fn joined(rows: Seq<Seq<char>>) -> Seq<char>
    decreases rows.len(),
{
    if rows.len() == 0 {
        Seq::empty()
    } else {
        joined(rows.drop_last()) + rows.last()
    }
}

/// The index in the joined text at which row `row` starts.
pub open spec fn row_start(rows: Seq<Seq<char>>, row: int) -> int {
    joined(rows.take(row)).len() as int
}

impl View for RowText {
    type V = Seq<Seq<char>>;

    closed spec fn view(&self) -> Seq<Seq<char>> {
        Seq::new(
            (self.starts@.len() - 1) as nat,
            |r: int| self.chars@.subrange(self.starts@[r] as int, self.starts@[r + 1] as int),
        )
    }
}

proof fn lemma_row_start(rows: Seq<Seq<char>>, row: int)
    requires
        0 <= row < rows.len(),
    ensures
        row_start(rows, row + 1) == row_start(rows, row) + rows[row].len(),
{
    assert(rows.take(row + 1).drop_last() =~= rows.take(row));
}

proof fn lemma_row_start_monotone(rows: Seq<Seq<char>>, a: int, b: int)
    requires
        0 <= a <= b <= rows.len(),
    ensures
        row_start(rows, a) <= row_start(rows, b),
    decreases b - a,
{
    if a < b {
        lemma_row_start(rows, b - 1);
        lemma_row_start_monotone(rows, a, b - 1);
    }
}

impl RowText {
    /// The rows start one after the other, and the starts are those of the joined
    /// text.
    pub closed spec fn wf(self) -> bool {
        &&& self.starts@.len() >= 1
        &&& forall|r: int, s: int|
            0 <= r <= s < self.starts@.len() ==> self.starts@[r] <= self.starts@[s]
        &&& self.starts@.last() == self.chars@.len()
        &&& self.chars@ == joined(self@)
        &&& forall|r: int|
            0 <= r < self.starts@.len() ==> #[trigger] self.starts@[r] == row_start(self@, r)
    }

    /// No rows.
    pub fn new() -> (t: Self)
        ensures
            t.wf(),
            t@ == Seq::<Seq<char>>::empty(),
    {
        let mut starts: Vec<usize> = Vec::new();
        starts.push(0);
        let t = RowText { chars: Vec::new(), starts };
        assert(t@ =~= Seq::<Seq<char>>::empty());
        assert(t@.take(0) =~= Seq::<Seq<char>>::empty());
        t
    }

    /// How many rows there are.
    pub fn row_count(&self) -> (n: usize)
        requires
            self.wf(),
        ensures
            n == self@.len(),
    {
        self.starts.len() - 1
    }

    /// Add a row at the end.
    pub fn push_row(&mut self, row: &Vec<char>)
        requires
            old(self).wf(),
        ensures
            final(self).wf(),
            final(self)@ == old(self)@.push(row@),
    {
        let ghost before = *self;
        crate::text::append_chars(&mut self.chars, row);
        let end: usize = self.chars.len();
        self.starts.push(end);
        proof {
            let n = before@.len() as int;
            assert forall|r: int| 0 <= r < n implies self@[r] =~= before@[r] by {
                assert(before.starts@[r] <= before.starts@[r + 1] <= before.starts@.last());
            }
            assert(self@[n] =~= row@);
            assert(self@ =~= before@.push(row@));
            assert(self@.drop_last() =~= before@);
            assert(self.chars@ =~= joined(self@));
            assert forall|r: int| 0 <= r < self.starts@.len() implies #[trigger] self.starts@[r]
                == row_start(self@, r) by {
                if r <= n {
                    assert(before.starts@[r] == row_start(before@, r));
                    assert(self@.take(r) =~= before@.take(r));
                } else {
                    assert(self@.take(r) =~= self@);
                }
            }
        }
    }

    #[verifier::spinoff_prover]
    #[verifier::rlimit(40)]
    proof fn lemma_place(self, row: int, i: int)
        requires
            self.wf(),
            0 <= row < self.starts@.len() - 1,
            self.starts@[row] <= i < self.starts@[row + 1],
        ensures
            i < joined(self@).len(),
            self@[row].len() == self.starts@[row + 1] - self.starts@[row],
            row_start(self@, row) == self.starts@[row],
            self@[row][i - self.starts@[row]] == joined(self@)[i],
    {
        assert(self.starts@[row] == row_start(self@, row));
        assert(self.starts@[row + 1] <= self.starts@.last());
    }

    /// The index of a position in the joined text; `None` where there is no such
    /// character.
    #[verifier::spinoff_prover]
    #[verifier::rlimit(40)]
    pub fn index_of(&self, row: usize, col: usize) -> (r: Option<usize>)
        requires
            self.wf(),
        ensures
            r is Some <==> row < self@.len() && col < self@[row as int].len(),
            r matches Some(i) ==> {
                &&& i == row_start(self@, row as int) + col
                &&& i < joined(self@).len()
                &&& joined(self@)[i as int] == self@[row as int][col as int]
            },
    {
        if row >= self.starts.len() - 1 {
            return None;
        }
        assert(self.starts@[row as int] <= self.starts@[row + 1] <= self.starts@.last());
        if col >= self.starts[row + 1] - self.starts[row] {
            return None;
        }
        assert(self.starts@[row as int] == row_start(self@, row as int));
        Some(self.starts[row] + col)
    }

    /// The position of index `i` of the joined text.
    #[verifier::spinoff_prover]
    #[verifier::rlimit(40)]
    pub fn position_of(&self, i: usize) -> (r: (usize, usize))
        requires
            self.wf(),
            i < joined(self@).len(),
        ensures
            r.0 < self@.len(),
            r.1 < self@[r.0 as int].len(),
            i == row_start(self@, r.0 as int) + r.1,
            self@[r.0 as int][r.1 as int] == joined(self@)[i as int],
    {
        let n: usize = self.starts.len();
        let mut row: usize = 0;
        assert(self.starts@[0] == row_start(self@, 0));
        assert(self@.take(0) =~= Seq::<Seq<char>>::empty());
        while self.starts[row + 1] <= i
            invariant
                n == self.starts@.len(),
                i < self.starts@[n - 1],
                row + 1 < n,
                self.starts@[row as int] <= i,
            decreases n - row,
        {
            row = row + 1;
        }
        proof {
            self.lemma_place(row as int, i as int);
        }
        (row, i - self.starts[row])
    }
}

// ------------------------------------------------------------------------
// Brackets
// ------------------------------------------------------------------------

/// The closing bracket that `c` opens.
pub open spec fn closer_of(c: char) -> Option<char> {
    if c == '(' {
        Some(')')
    } else if c == '[' {
        Some(']')
    } else if c == '{' {
        Some('}')
    } else {
        None
    }
}

/// The opening bracket that `c` closes.
pub open spec fn opener_of(c: char) -> Option<char> {
    if c == ')' {
        Some('(')
    } else if c == ']' {
        Some('[')
    } else if c == '}' {
        Some('{')
    } else {
        None
    }
}

/// How many more `open` than `close` there are from `i` up to `j`.
pub open spec fn balance(s: Seq<char>, i: int, j: int, open: char, close: char) -> int
    decreases j - i,
{
    if j <= i {
        0
    } else {
        balance(s, i, j - 1, open, close) + if s[j - 1] == open {
            1int
        } else if s[j - 1] == close {
            -1int
        } else {
            0int
        }
    }
}

/// The `open` at `i` is closed by the `close` at `j`: as much is closed as opened
/// between them, and not before. A character that both opens and closes has no partner.
pub open spec fn partners(s: Seq<char>, i: int, j: int, open: char, close: char) -> bool {
    &&& open != close
    &&& 0 <= i < j < s.len()
    &&& s[i] == open
    &&& s[j] == close
    &&& balance(s, i, j + 1, open, close) == 0
    &&& forall|k: int| i < k <= j ==> #[trigger] balance(s, i, k, open, close) > 0
}

proof fn lemma_balance_split(s: Seq<char>, i: int, k: int, j: int, open: char, close: char)
    requires
        i <= k <= j,
    ensures
        balance(s, i, j, open, close) == balance(s, i, k, open, close) + balance(
            s,
            k,
            j,
            open,
            close,
        ),
    decreases j - k,
{
    if k < j {
        lemma_balance_split(s, i, k, j - 1, open, close);
    }
}

/// Seen from the closing bracket: nothing before its partner balances.
proof fn lemma_partners_backward(s: Seq<char>, i: int, j: int, open: char, close: char)
    requires
        open != close,
        0 <= i < j < s.len(),
        s[i] == open,
        s[j] == close,
    ensures
        partners(s, i, j, open, close) <==> {
            &&& balance(s, i, j + 1, open, close) == 0
            &&& forall|k: int|
                i < k <= j ==> #[trigger] balance(s, k, j + 1, open, close) < 0
        },
{
    assert forall|k: int| i < k <= j implies balance(s, i, j + 1, open, close) == #[trigger] balance(
        s,
        i,
        k,
        open,
        close,
    ) + balance(s, k, j + 1, open, close) by {
        lemma_balance_split(s, i, k, j + 1, open, close);
    }
    assert forall|k: int| i < k <= j implies balance(s, i, j + 1, open, close) == balance(
        s,
        i,
        k,
        open,
        close,
    ) + #[trigger] balance(s, k, j + 1, open, close) by {
        lemma_balance_split(s, i, k, j + 1, open, close);
    }
}

/// A bracket has one partner: an opening bracket is closed in one place.
pub proof fn law_one_closer(s: Seq<char>, i: int, j: int, k: int, open: char, close: char)
    requires
        partners(s, i, j, open, close),
        partners(s, i, k, open, close),
    ensures
        j == k,
{
    if j < k {
        assert(balance(s, i, j + 1, open, close) > 0);
    } else if k < j {
        assert(balance(s, i, k + 1, open, close) > 0);
    }
}

/// A bracket has one partner: a closing bracket closes one opening bracket.
pub proof fn law_one_opener(s: Seq<char>, i: int, k: int, j: int, open: char, close: char)
    requires
        partners(s, i, j, open, close),
        partners(s, k, j, open, close),
    ensures
        i == k,
{
    lemma_partners_backward(s, i, j, open, close);
    lemma_partners_backward(s, k, j, open, close);
    if i < k {
        assert(balance(s, k, j + 1, open, close) < 0);
    } else if k < i {
        assert(balance(s, i, j + 1, open, close) < 0);
    }
}

/// The index that closes the `open` at `i`.
fn find_closer(s: &Vec<char>, i: usize, open: char, close: char) -> (r: Option<usize>)
    requires
        open != close,
        i < s@.len(),
        s@[i as int] == open,
    ensures
        match r {
            Some(j) => partners(s@, i as int, j as int, open, close),
            None => forall|j: int| !partners(s@, i as int, j, open, close),
        },
{
    let mut depth: usize = 0;
    let mut j: usize = i;
    while j < s.len()
        invariant
            open != close,
            i <= j <= s@.len(),
            i < s@.len(),
            s@[i as int] == open,
            depth == balance(s@, i as int, j as int, open, close),
            depth <= j - i,
            forall|k: int| i < k <= j ==> #[trigger] balance(s@, i as int, k, open, close) > 0,
        decreases s@.len() - j,
    {
        if s[j] == open {
            depth = depth + 1;
        } else if s[j] == close {
            depth = depth - 1;
            if depth == 0 {
                assert(balance(s@, i as int, j + 1, open, close) == 0);
                return Some(j);
            }
        }
        j = j + 1;
    }
    proof {
        assert forall|k: int| !partners(s@, i as int, k, open, close) by {
            if partners(s@, i as int, k, open, close) {
                assert(balance(s@, i as int, k + 1, open, close) > 0);
            }
        }
    }
    None
}

/// The index that opens what the `close` at `j` closes.
fn find_opener(s: &Vec<char>, j: usize, open: char, close: char) -> (r: Option<usize>)
    requires
        open != close,
        j < s@.len(),
        s@[j as int] == close,
    ensures
        match r {
            Some(i) => partners(s@, i as int, j as int, open, close),
            None => forall|i: int| !partners(s@, i, j as int, open, close),
        },
{
    let n: usize = s.len();
    let mut depth: usize = 0;
    let mut i: usize = j + 1;
    while i > 0
        invariant
            open != close,
            i <= j + 1 <= n,
            n == s@.len(),
            s@[j as int] == close,
            depth == -balance(s@, i as int, j + 1, open, close),
            depth <= j + 1 - i,
            forall|k: int|
                i <= k <= j ==> #[trigger] balance(s@, k, j + 1, open, close) < 0,
        decreases i,
    {
        i = i - 1;
        proof {
            lemma_balance_split(s@, i as int, i + 1, j + 1, open, close);
            assert(balance(s@, i as int, i as int, open, close) == 0);
        }
        if s[i] == close {
            depth = depth + 1;
        } else if s[i] == open {
            depth = depth - 1;
            if depth == 0 {
                proof {
                    lemma_partners_backward(s@, i as int, j as int, open, close);
                }
                return Some(i);
            }
        }
    }
    proof {
        assert forall|k: int| !partners(s@, k, j as int, open, close) by {
            if partners(s@, k, j as int, open, close) {
                lemma_partners_backward(s@, k, j as int, open, close);
                assert(balance(s@, k, j + 1, open, close) < 0);
            }
        }
    }
    None
}

/// The first index from `i` on that is a bracket; the length when none is.
pub open spec fn next_bracket(line: Seq<char>, i: int) -> int
    decreases line.len() - i,
{
    if 0 <= i < line.len() && closer_of(line[i]) is None && opener_of(line[i]) is None {
        next_bracket(line, i + 1)
    } else {
        i
    }
}

/// The bracket at `i` and the one at `j` are partners, whichever opens.
pub open spec fn bracket_pair(s: Seq<char>, i: int, j: int) -> bool {
    ||| closer_of(s[i]) is Some && partners(s, i, j, s[i], closer_of(s[i])->0)
    ||| opener_of(s[i]) is Some && partners(s, j, i, opener_of(s[i])->0, s[i])
}

/// A bracket has one partner.
pub proof fn law_one_partner(s: Seq<char>, i: int, j: int, k: int)
    requires
        bracket_pair(s, i, j),
        bracket_pair(s, i, k),
    ensures
        j == k,
{
    if closer_of(s[i]) is Some {
        law_one_closer(s, i, j, k, s[i], closer_of(s[i])->0);
    } else {
        law_one_opener(s, j, k, i, opener_of(s[i])->0, s[i]);
    }
}

/// The partner of a bracket's partner is the bracket.
pub proof fn law_partners_are_mutual(s: Seq<char>, i: int, j: int)
    requires
        bracket_pair(s, i, j),
    ensures
        bracket_pair(s, j, i),
{
}

/// An index of the joined text is that of one position.
pub proof fn lemma_one_position(rows: Seq<Seq<char>>, a: (int, int), b: (int, int))
    requires
        0 <= a.0 < rows.len(),
        0 <= a.1 < rows[a.0].len(),
        0 <= b.0 < rows.len(),
        0 <= b.1 < rows[b.0].len(),
        row_start(rows, a.0) + a.1 == row_start(rows, b.0) + b.1,
    ensures
        a == b,
{
    if a.0 < b.0 {
        lemma_row_start(rows, a.0);
        lemma_row_start_monotone(rows, a.0 + 1, b.0);
    } else if b.0 < a.0 {
        lemma_row_start(rows, b.0);
        lemma_row_start_monotone(rows, b.0 + 1, a.0);
    }
}

/// `%`: the partner of the first bracket at or right of `col` on row `row`. `None`
/// when the row holds no bracket from `col` on, or the partner is missing.
pub fn matching_bracket(rows: &RowText, row: usize, col: usize) -> (r: Option<(usize, usize)>)
    requires
        rows.wf(),
    ensures
        ({
            let at = row_start(rows@, row as int) + next_bracket(rows@[row as int], col as int);
            match r {
                Some((r1, c1)) => {
                    &&& row < rows@.len()
                    &&& next_bracket(rows@[row as int], col as int) < rows@[row as int].len()
                    &&& r1 < rows@.len()
                    &&& c1 < rows@[r1 as int].len()
                    &&& bracket_pair(joined(rows@), at, row_start(rows@, r1 as int) + c1)
                },
                None => row < rows@.len() && next_bracket(rows@[row as int], col as int)
                    < rows@[row as int].len() ==> forall|j: int|
                    !bracket_pair(joined(rows@), at, j),
            }
        }),
{
    if row >= rows.row_count() {
        return None;
    }
    let mut c: usize = col;
    loop
        invariant
            rows.wf(),
            row < rows@.len(),
            col <= c,
            next_bracket(rows@[row as int], col as int) == next_bracket(
                rows@[row as int],
                c as int,
            ),
        decreases rows@[row as int].len() - c,
    {
        let i: usize = match rows.index_of(row, c) {
            Some(i) => i,
            None => {
                return None;
            },
        };
        let ch: char = rows.chars[i];
        let open_close: Option<(char, char, bool)> = if ch == '(' {
            Some(('(', ')', true))
        } else if ch == '[' {
            Some(('[', ']', true))
        } else if ch == '{' {
            Some(('{', '}', true))
        } else if ch == ')' {
            Some(('(', ')', false))
        } else if ch == ']' {
            Some(('[', ']', false))
        } else if ch == '}' {
            Some(('{', '}', false))
        } else {
            None
        };
        if let Some((open, close, forward)) = open_close {
            let found: Option<usize> = if forward {
                find_closer(&rows.chars, i, open, close)
            } else {
                find_opener(&rows.chars, i, open, close)
            };
            return match found {
                Some(j) => {
                    let (r1, c1) = rows.position_of(j);
                    Some((r1, c1))
                },
                None => None,
            };
        }
        c = c + 1;
    }
}

/// The innermost pair around index `p`: the brackets count as inside.
pub open spec fn encloses(s: Seq<char>, i: int, j: int, p: int, open: char, close: char) -> bool {
    &&& partners(s, i, j, open, close)
    &&& i <= p <= j
    &&& forall|a: int, b: int|
        #[trigger] partners(s, a, b, open, close) && a <= p <= b ==> a <= i
}

/// The innermost pair of `open` and `close` around index `p`.
fn enclosing_pair(s: &Vec<char>, p: usize, open: char, close: char) -> (r: Option<(usize, usize)>)
    requires
        open != close,
        p < s@.len(),
    ensures
        match r {
            Some((i, j)) => encloses(s@, i as int, j as int, p as int, open, close),
            None => forall|i: int, j: int|
                !(#[trigger] partners(s@, i, j, open, close) && i <= p <= j),
        },
{
    let n: usize = s.len();
    let mut i: usize = p + 1;
    while i > 0
        invariant
            open != close,
            i <= p + 1 <= n,
            n == s@.len(),
            forall|a: int, b: int|
                #[trigger] partners(s@, a, b, open, close) && a <= p <= b ==> a < i,
        decreases i,
    {
        i = i - 1;
        if s[i] == open {
            if let Some(j) = find_closer(s, i, open, close) {
                proof {
                    assert forall|a: int, b: int|
                        #[trigger] partners(s@, a, b, open, close) && a <= p <= b && a
                            == i implies b == j by {
                        law_one_closer(s@, i as int, b, j as int, open, close);
                    }
                }
                if j >= p {
                    return Some((i, j));
                }
            }
        }
    }
    None
}

/// A stretch of text from one position to another, both inclusive.
#[derive(Clone, Copy, Debug)]
pub struct Span {
    pub end: (usize, usize),
    pub start: (usize, usize),
}

/// Position `pos` is that of index `i` in the rows.
pub open spec fn is_position(rows: Seq<Seq<char>>, pos: (usize, usize), i: int) -> bool {
    &&& pos.0 < rows.len()
    &&& pos.1 < rows[pos.0 as int].len()
    &&& row_start(rows, pos.0 as int) + pos.1 == i
}

/// The span of the innermost pair of `open` and `close` around a position, with
/// the brackets or without. Without them an empty pair gives a span that ends
/// before it starts. There is no pair of brackets that are the same.
pub fn bracket_object(
    rows: &RowText,
    row: usize,
    col: usize,
    open: char,
    close: char,
    around: bool,
) -> (r: Option<Span>)
    requires
        rows.wf(),
    ensures
        match r {
            Some(span) => {
                &&& row < rows@.len()
                &&& col < rows@[row as int].len()
                &&& exists|i: int, j: int|
                    {
                        &&& #[trigger] encloses(
                            joined(rows@),
                            i,
                            j,
                            row_start(rows@, row as int) + col,
                            open,
                            close,
                        )
                        &&& is_position(rows@, span.start, if around { i } else { i + 1 })
                        &&& is_position(rows@, span.end, if around { j } else { j - 1 })
                    }
            },
            None => row < rows@.len() && col < rows@[row as int].len() ==> forall|i: int, j: int|
                !(#[trigger] partners(joined(rows@), i, j, open, close) && i <= row_start(
                    rows@,
                    row as int,
                ) + col <= j),
        },
{
    if open == close {
        return None;
    }
    let p: usize = match rows.index_of(row, col) {
        Some(p) => p,
        None => {
            return None;
        },
    };
    match enclosing_pair(&rows.chars, p, open, close) {
        Some((i, j)) => {
            let start = rows.position_of(if around { i } else { i + 1 });
            let end = rows.position_of(if around { j } else { j - 1 });
            Some(Span { end, start })
        },
        None => None,
    }
}

// ------------------------------------------------------------------------
// Quotes
// ------------------------------------------------------------------------

/// How many `quote` there are before index `i`.
pub open spec fn quotes_before(line: Seq<char>, i: int, quote: char) -> int
    decreases i,
{
    if i <= 0 {
        0
    } else {
        quotes_before(line, i - 1, quote) + if line[i - 1] == quote {
            1int
        } else {
            0int
        }
    }
}

/// The quotes of a line pair up from its start: the one at `i` opens, and the one
/// at `j` is the next.
pub open spec fn quote_pair(line: Seq<char>, i: int, j: int, quote: char) -> bool {
    &&& 0 <= i < j < line.len()
    &&& line[i] == quote
    &&& line[j] == quote
    &&& quotes_before(line, i, quote) % 2 == 0
    &&& forall|k: int| i < k < j ==> line[k] != quote
}

/// At most one pair of quotes is around a column.
pub proof fn law_one_quote_pair(line: Seq<char>, col: int, i: int, j: int, a: int, b: int, quote: char)
    requires
        quote_pair(line, i, j, quote),
        quote_pair(line, a, b, quote),
        i <= col <= j,
        a <= col <= b,
    ensures
        i == a,
        j == b,
{
    lemma_quotes_between(line, i + 1, j, quote);
    lemma_quotes_between(line, a + 1, b, quote);
    if i < a {
        assert(a == j);
    } else if a < i {
        assert(i == b);
    } else if j < b {
        assert(line[j] != quote);
    } else if b < j {
        assert(line[b] != quote);
    }
}

/// The columns of the quoted text around `col`, with the quotes or without. `None`
/// when `col` is not within a pair of quotes. Without the quotes an empty pair
/// gives a range that ends before it starts.
pub fn quote_object(line: &Vec<char>, col: usize, quote: char, around: bool) -> (r: Option<
    (usize, usize),
>)
    ensures
        match r {
            Some((start, end)) => {
                let i = if around { start as int } else { start - 1 };
                let j = if around { end as int } else { end + 1 };
                quote_pair(line@, i, j, quote) && i <= col <= j
            },
            None => forall|i: int, j: int|
                !(#[trigger] quote_pair(line@, i, j, quote) && i <= col <= j),
        },
{
    let mut opened: Option<usize> = None;
    let ghost mut count: int = 0;
    let mut k: usize = 0;
    while k < line.len()
        invariant
            k <= line@.len(),
            count == quotes_before(line@, k as int, quote),
            match opened {
                Some(i) => {
                    &&& i < k
                    &&& line@[i as int] == quote
                    &&& quotes_before(line@, i as int, quote) % 2 == 0
                    &&& count % 2 == 1
                    &&& forall|m: int| i < m < k ==> line@[m] != quote
                },
                None => count % 2 == 0,
            },
            forall|i: int, j: int|
                #[trigger] quote_pair(line@, i, j, quote) && i <= col <= j ==> j >= k,
        decreases line@.len() - k,
    {
        if line[k] == quote {
            match opened {
                Some(i) => {
                    proof {
                        assert forall|a: int, b: int|
                            #[trigger] quote_pair(line@, a, b, quote) && b == k implies a == i by {
                            if a < i {
                                assert(line@[i as int] != quote);
                            } else if a > i {
                                assert(line@[a] != quote);
                            }
                        }
                    }
                    if i <= col && col <= k {
                        assert(quote_pair(line@, i as int, k as int, quote));
                        return if around {
                            Some((i, k))
                        } else {
                            Some((i + 1, k - 1))
                        };
                    }
                    opened = None;
                },
                None => {
                    proof {
                        lemma_no_pair_ends_at_an_opener(line@, k as int, quote);
                    }
                    opened = Some(k);
                },
            }
        }
        proof {
            count = quotes_before(line@, k + 1, quote);
        }
        k = k + 1;
    }
    None
}

/// A quote that opens a pair closes none.
proof fn lemma_no_pair_ends_at_an_opener(line: Seq<char>, k: int, quote: char)
    requires
        0 <= k < line.len(),
        quotes_before(line, k, quote) % 2 == 0,
    ensures
        forall|i: int| !#[trigger] quote_pair(line, i, k, quote),
{
    assert forall|i: int| !#[trigger] quote_pair(line, i, k, quote) by {
        if quote_pair(line, i, k, quote) {
            lemma_quotes_between(line, i + 1, k, quote);
        }
    }
}

proof fn lemma_quotes_between(line: Seq<char>, a: int, b: int, quote: char)
    requires
        0 <= a <= b <= line.len(),
        forall|m: int| a <= m < b ==> line[m] != quote,
    ensures
        quotes_before(line, b, quote) == quotes_before(line, a, quote),
    decreases b - a,
{
    if a < b {
        lemma_quotes_between(line, a, b - 1, quote);
    }
}

// ------------------------------------------------------------------------
// Words
// ------------------------------------------------------------------------

/// The columns of the word around `col`, as a start and the column after the end:
/// the run of one class, and with `around` the blanks after it or, where there are
/// none, those before. Around a run of blanks takes the word after it.
pub open spec fn word_range(line: Seq<char>, col: int, big: bool, around: bool) -> (int, int) {
    let class = class_of(line[col], big);
    let start = class_start(line, col, class, big);
    let end = class_end(line, col, class, big);
    if !around {
        (start, end)
    } else if class == 0 {
        if end < line.len() {
            (start, class_end(line, end, class_of(line[end], big), big))
        } else {
            (start, end)
        }
    } else {
        let after = class_end(line, end, 0, big);
        if after > end {
            (start, after)
        } else {
            (class_start(line, start, 0, big), end)
        }
    }
}

/// The inclusive columns of the word around `col`; `None` past the line's end.
pub fn word_object(line: &Vec<char>, col: usize, big: bool, around: bool) -> (r: Option<
    (usize, usize),
>)
    ensures
        match r {
            Some((start, end)) => {
                &&& col < line@.len()
                &&& start <= col
                &&& end < line@.len()
                &&& word_range(line@, col as int, big, around) == (start as int, end + 1)
            },
            None => col >= line@.len(),
        },
{
    if col >= line.len() {
        return None;
    }
    let class: u8 = char_class(line[col], big);
    proof {
        lemma_class_end(line@, col + 1, class as int, big);
    }
    let start: usize = skip_class_back(line, col, class, big);
    let end: usize = skip_class(line, col, class, big);
    if !around {
        return Some((start, end - 1));
    }
    if class == 0 {
        if end < line.len() {
            let next: u8 = char_class(line[end], big);
            let after: usize = skip_class(line, end, next, big);
            return Some((start, after - 1));
        }
        return Some((start, end - 1));
    }
    let after: usize = skip_class(line, end, 0, big);
    if after > end {
        Some((start, after - 1))
    } else {
        Some((skip_class_back(line, start, 0, big), end - 1))
    }
}

// ------------------------------------------------------------------------
// Sentences
// ------------------------------------------------------------------------

/// Whether `c` stops a sentence.
pub open spec fn is_stop(c: char) -> bool {
    c == '.' || c == '!' || c == '?'
}

/// Whether `c` closes what a sentence stands in.
pub open spec fn is_closer(c: char) -> bool {
    c == ')' || c == ']' || c == '"' || c == '\''
}

/// Where the closing brackets and quotes from `i` on end.
pub open spec fn past_closers(line: Seq<char>, i: int) -> int
    decreases line.len() - i,
{
    if 0 <= i < line.len() && is_closer(line[i]) {
        past_closers(line, i + 1)
    } else {
        i
    }
}

/// The stop at `i` ends a sentence: what closes after it is followed by a blank or
/// the end of the line.
pub open spec fn ends_sentence(line: Seq<char>, i: int) -> bool {
    let after = past_closers(line, i + 1);
    0 <= i < line.len() && is_stop(line[i]) && (after >= line.len() || is_blank(line[after]))
}

/// Where the sentence that starts at `i` ends.
pub open spec fn sentence_end(line: Seq<char>, i: int) -> int
    decreases line.len() - i,
{
    if i < 0 || i >= line.len() {
        line.len() as int
    } else if ends_sentence(line, i) {
        past_closers(line, i + 1)
    } else {
        sentence_end(line, i + 1)
    }
}

proof fn lemma_past_closers(line: Seq<char>, i: int)
    requires
        0 <= i <= line.len(),
    ensures
        i <= past_closers(line, i) <= line.len(),
    decreases line.len() - i,
{
    if i < line.len() && is_closer(line[i]) {
        lemma_past_closers(line, i + 1);
    }
}

proof fn lemma_sentence_end(line: Seq<char>, i: int)
    requires
        0 <= i < line.len(),
    ensures
        i < sentence_end(line, i) <= line.len(),
    decreases line.len() - i,
{
    lemma_past_closers(line, i + 1);
    if !ends_sentence(line, i) {
        if i + 1 < line.len() {
            lemma_sentence_end(line, i + 1);
        } else {
            assert(sentence_end(line, i + 1) == line.len());
        }
    }
}

/// The start of the sentence that `col` is in or in the blanks after, given that a
/// sentence starts at `start`: sentences follow one another, each after the blanks
/// that end the one before.
pub open spec fn sentence_start(line: Seq<char>, start: int, col: int) -> int
    decreases line.len() - start,
{
    if start < 0 || start >= line.len() {
        start
    } else {
        let next = class_end(line, sentence_end(line, start), 0, false);
        if start < next <= col && next < line.len() {
            sentence_start(line, next, col)
        } else {
            start
        }
    }
}

/// The columns of the sentence around `col`, as a start and the column after the
/// end: with `around` the blanks after it too or, where there are none, those
/// before.
pub open spec fn sentence_range(line: Seq<char>, col: int, around: bool) -> (int, int) {
    let start = sentence_start(line, class_end(line, 0, 0, false), col);
    let end = sentence_end(line, start);
    let after = class_end(line, end, 0, false);
    if !around {
        (start, end)
    } else if after > end {
        (start, after)
    } else {
        (class_start(line, start, 0, false), end)
    }
}

fn skip_closers(line: &Vec<char>, i: usize) -> (r: usize)
    requires
        i <= line@.len(),
    ensures
        r == past_closers(line@, i as int),
        i <= r <= line@.len(),
{
    let mut j: usize = i;
    while j < line.len() && (line[j] == ')' || line[j] == ']' || line[j] == '"' || line[j] == '\'')
        invariant
            i <= j <= line@.len(),
            past_closers(line@, i as int) == past_closers(line@, j as int),
        decreases line@.len() - j,
    {
        j = j + 1;
    }
    j
}

fn find_sentence_end(line: &Vec<char>, start: usize) -> (r: usize)
    requires
        start < line@.len(),
    ensures
        r == sentence_end(line@, start as int),
        start < r <= line@.len(),
{
    proof {
        lemma_sentence_end(line@, start as int);
    }
    let mut i: usize = start;
    while i < line.len()
        invariant
            start <= i <= line@.len(),
            sentence_end(line@, start as int) == sentence_end(line@, i as int),
        decreases line@.len() - i,
    {
        if line[i] == '.' || line[i] == '!' || line[i] == '?' {
            let after: usize = skip_closers(line, i + 1);
            if after >= line.len() || char_class(line[after], false) == 0 {
                return after;
            }
        }
        i = i + 1;
    }
    i
}

/// The inclusive columns of the sentence around `col`; `None` on a blank line or
/// past its end.
pub fn sentence_object(line: &Vec<char>, col: usize, around: bool) -> (r: Option<(usize, usize)>)
    ensures
        match r {
            Some((start, end)) => {
                &&& col < line@.len()
                &&& end < line@.len()
                &&& class_end(line@, 0, 0, false) < line@.len()
                &&& sentence_range(line@, col as int, around) == (start as int, end + 1)
            },
            None => col >= line@.len() || class_end(line@, 0, 0, false) >= line@.len(),
        },
{
    if col >= line.len() {
        return None;
    }
    let mut start: usize = skip_class(line, 0, 0, false);
    if start >= line.len() {
        return None;
    }
    let ghost first = start as int;
    loop
        invariant_except_break
            start < line@.len(),
            sentence_start(line@, first, col as int) == sentence_start(
                line@,
                start as int,
                col as int,
            ),
        ensures
            start < line@.len(),
            sentence_start(line@, first, col as int) == start,
        decreases line@.len() - start,
    {
        let end: usize = find_sentence_end(line, start);
        let next: usize = skip_class(line, end, 0, false);
        if next <= col && next < line.len() {
            start = next;
        } else {
            break;
        }
    }
    let end: usize = find_sentence_end(line, start);
    let after: usize = skip_class(line, end, 0, false);
    if !around {
        Some((start, end - 1))
    } else if after > end {
        Some((start, after - 1))
    } else {
        Some((skip_class_back(line, start, 0, false), end - 1))
    }
}

// ------------------------------------------------------------------------
// Laws
// ------------------------------------------------------------------------

/// Whether two characters side by side are of one word, or both blank.
pub open spec fn of_one_kind(a: char, b: char, big: bool) -> bool {
    of_one_word(a, b, big) || unprinted(a) && unprinted(b)
}

/// The inner word around a column is all of one kind, a word or blanks, and as wide as it can
/// be.
pub proof fn law_an_inner_word_is_all_of_one_kind(line: Seq<char>, col: int, big: bool)
    requires
        0 <= col < line.len(),
    ensures
        ({
            let (a, b) = word_range(line, col, big, false);
            &&& 0 <= a <= col < b <= line.len()
            &&& forall|k: int|
                a <= k < b ==> of_one_kind(#[trigger] line[k], line[col], big)
            &&& a > 0 ==> !of_one_kind(line[a - 1], line[a], big)
            &&& b < line.len() ==> !of_one_kind(line[b - 1], line[b], big)
        }),
{
    let class = class_of(line[col], big);
    lemma_run(line, col, class, big);
    lemma_run_back(line, col, class, big);
    let (a, b) = word_range(line, col, big, false);
    assert forall|k: int| a <= k < b implies of_one_kind(#[trigger] line[k], line[col], big) by {
        lemma_classes(line[k], line[col], big);
        lemma_classes(line[col], line[k], big);
    }
    if a > 0 {
        lemma_classes(line[a - 1], line[a], big);
        lemma_classes(line[a], line[a - 1], big);
    }
    if b < line.len() {
        lemma_classes(line[b - 1], line[b], big);
        lemma_classes(line[b], line[b - 1], big);
    }
}

/// A word is taken with the blanks after it, all of them; where there are none, with those
/// before it. From blanks on, the word after them is taken too.
pub proof fn law_a_word_is_taken_with_its_blanks(line: Seq<char>, col: int, big: bool)
    requires
        0 <= col < line.len(),
    ensures
        ({
            let (a, b) = word_range(line, col, big, false);
            let (x, y) = word_range(line, col, big, true);
            &&& !unprinted(line[col]) && b < line.len() && unprinted(line[b]) ==> {
                &&& x == a && b < y <= line.len()
                &&& forall|k: int| b <= k < y ==> unprinted(#[trigger] line[k])
                &&& y < line.len() ==> !unprinted(line[y])
            }
            &&& !unprinted(line[col]) && !(b < line.len() && unprinted(line[b])) ==> {
                &&& y == b && 0 <= x <= a
                &&& forall|k: int| x <= k < a ==> unprinted(#[trigger] line[k])
                &&& x > 0 ==> !unprinted(line[x - 1])
            }
            &&& unprinted(line[col]) && b < line.len() ==> {
                &&& x == a && b < y <= line.len()
                &&& forall|k: int| b <= k < y ==> of_one_word(#[trigger] line[k], line[b], big)
                &&& y < line.len() ==> !of_one_word(line[y - 1], line[y], big)
            }
            &&& unprinted(line[col]) && b == line.len() ==> x == a && y == b
        }),
{
    law_an_inner_word_is_all_of_one_kind(line, col, big);
    let (a, b) = word_range(line, col, big, false);
    let (x, y) = word_range(line, col, big, true);
    lemma_run(line, b, 0, big);
    lemma_run_back(line, a, 0, big);
    assert forall|k: int| 0 <= k < line.len() implies (class_of(#[trigger] line[k], big) == 0)
        == unprinted(line[k]) by {
        lemma_classes(line[k], line[k], big);
    }
    if b < line.len() {
        let class = class_of(line[b], big);
        lemma_run(line, b, class, big);
        let end = class_end(line, b, class, big);
        if unprinted(line[col]) {
            lemma_classes(line[col], line[b], big);
            assert(of_one_kind(line[b - 1], line[col], big));
            assert forall|k: int| b <= k < end implies of_one_word(
                #[trigger] line[k],
                line[b],
                big,
            ) by {
                lemma_classes(line[k], line[b], big);
            }
            if end < line.len() {
                lemma_classes(line[end - 1], line[end], big);
            }
        }
    }
}

/// Whether a sentence ends before `i` with the mark at `t`: a full stop, an exclamation mark or
/// a question mark, after which only brackets and quotes close, and then a blank or the end of
/// the line.
pub open spec fn is_sentence_stop(line: Seq<char>, t: int, i: int) -> bool {
    &&& 0 <= t < i <= line.len()
    &&& line[t] == '.' || line[t] == '!' || line[t] == '?'
    &&& forall|k: int|
        t < k < i ==> {
            ||| #[trigger] line[k] == ')'
            ||| line[k] == ']'
            ||| line[k] == '"'
            ||| line[k] == '\''
        }
    &&& i == line.len() || unprinted(line[i])
}

proof fn lemma_closers(line: Seq<char>, i: int)
    requires
        0 <= i <= line.len(),
    ensures
        i <= past_closers(line, i) <= line.len(),
        forall|k: int| i <= k < past_closers(line, i) ==> is_closer(#[trigger] line[k]),
        past_closers(line, i) < line.len() ==> !is_closer(line[past_closers(line, i)]),
    decreases line.len() - i,
{
    if i < line.len() && is_closer(line[i]) {
        lemma_closers(line, i + 1);
    }
}

proof fn lemma_sentence_stop(line: Seq<char>, t: int)
    requires
        0 <= t < line.len(),
    ensures
        ends_sentence(line, t) == exists|i: int| is_sentence_stop(line, t, i),
        ends_sentence(line, t) ==> is_sentence_stop(line, t, past_closers(line, t + 1)),
        forall|i: int| #[trigger]
            is_sentence_stop(line, t, i) ==> i == past_closers(line, t + 1),
{
    lemma_closers(line, t + 1);
    let end = past_closers(line, t + 1);
    if ends_sentence(line, t) {
        assert(is_sentence_stop(line, t, end));
    }
    assert forall|i: int| #[trigger] is_sentence_stop(line, t, i) implies i == end by {
        if i < end {
            assert(is_closer(line[i]));
        }
        if end < i {
            assert(is_closer(line[end]));
        }
    }
}

/// A sentence ends with the first mark that ends one, and what closes after it, or with the
/// line.
pub proof fn law_a_sentence_ends_with_the_first_stop(line: Seq<char>, start: int)
    requires
        0 <= start < line.len(),
    ensures
        ({
            let end = sentence_end(line, start);
            &&& start < end <= line.len()
            &&& end < line.len() ==> exists|t: int|
                start <= t && #[trigger] is_sentence_stop(line, t, end)
            &&& forall|t: int, i: int|
                start <= t && #[trigger] is_sentence_stop(line, t, i) ==> end <= i
        }),
    decreases line.len() - start,
{
    lemma_sentence_stop(line, start);
    lemma_sentence_end(line, start);
    let end = sentence_end(line, start);
    if ends_sentence(line, start) {
        assert(is_sentence_stop(line, start, end));
        assert forall|t: int, i: int|
            start <= t && #[trigger] is_sentence_stop(line, t, i) implies end <= i by {
            lemma_closers(line, start + 1);
            if i < end {
                assert(is_closer(line[i]));
            }
        }
    } else {
        if start + 1 < line.len() {
            law_a_sentence_ends_with_the_first_stop(line, start + 1);
        } else {
            assert(sentence_end(line, start + 1) == line.len());
        }
        assert forall|t: int, i: int|
            start <= t && #[trigger] is_sentence_stop(line, t, i) implies end <= i by {
            if t > start {
                assert(t < line.len());
            }
        }
    }
}

} // verus!
