//! What text objects and character searches cover, told by the characters themselves.

use vstd::prelude::*;
use crate::grid::Grid;
use crate::input::FindChar;
use crate::navigation::motions::shows_nothing;
use crate::navigation::reading::{bracket_color, is_opener, UNMATCHED_DEPTH};
use crate::navigation::vim::{
    find_landings, landings_down, landings_up, paragraph_range, printed_line, row_landings,
    rows_end, rows_start,
};
use crate::objects::{
    balance, closer_of, is_sentence_stop, law_a_sentence_ends_with_the_first_stop, opener_of,
    partners, quote_pair, quotes_before, sentence_end, sentence_range, sentence_start,
};
use crate::words::{class_end, lemma_classes, lemma_run, lemma_run_back, unprinted};

verus! {

broadcast use {Grid::lemma_bounds, Grid::lemma_scrolled};

// ------------------------------------------------------------------------
// Brackets and quotes
// ------------------------------------------------------------------------

/// Round, square and curly brackets each close with their own kind, and nothing else does.
pub proof fn law_brackets_close_with_their_own_kind(c: char)
    ensures
        closer_of(c) == (if c == '(' {
            Some(')')
        } else if c == '[' {
            Some(']')
        } else if c == '{' {
            Some('}')
        } else {
            None
        }),
        closer_of(c) matches Some(d) ==> opener_of(d) == Some(c),
        opener_of(c) matches Some(d) ==> closer_of(d) == Some(c),
        opener_of(c) is Some == (c == ')' || c == ']' || c == '}'),
{
}

/// Brackets in view are told by the same three kinds, each closing with its own.
pub proof fn law_brackets_in_view_are_of_the_same_kinds(c: char)
    ensures
        is_opener(c) == closer_of(c) is Some,
        crate::navigation::reading::opener_of(c) == opener_of(c),
{
}

/// The colors of nested brackets come round in fives: yellow, magenta, cyan, green and blue from
/// the outside in. Only a bracket without a partner is red.
pub proof fn law_bracket_colors_come_round(depth: usize)
    ensures
        depth != UNMATCHED_DEPTH ==> bracket_color(depth) == seq![3int, 5, 6, 2, 4][depth as int
            % 5],
        (bracket_color(depth) == 1) == (depth == UNMATCHED_DEPTH),
{
}

proof fn lemma_level(s: Seq<char>, i: int, j: int, open: char, close: char)
    requires
        i <= j,
        forall|k: int| i <= k < j ==> #[trigger] s[k] != open && s[k] != close,
    ensures
        balance(s, i, j, open, close) == 0,
    decreases j - i,
{
    if i < j {
        lemma_level(s, i, j - 1, open, close);
    }
}

proof fn lemma_in_turn(s: Seq<char>, i: int, k: int, j: int, open: char, close: char)
    requires
        i <= k <= j,
    ensures
        balance(s, i, j, open, close) == balance(s, i, k, open, close) + balance(
            s,
            k,
            j,
            open,
            close,
        ),
    decreases j - k,
{
    if k < j {
        lemma_in_turn(s, i, k, j - 1, open, close);
    }
}

/// An opening bracket is closed by the next closing one of its kind when none of the kind lies
/// between the two.
pub proof fn law_the_next_bracket_closes(s: Seq<char>, i: int, j: int, open: char, close: char)
    requires
        open != close,
        0 <= i < j < s.len(),
        s[i] == open,
        s[j] == close,
        forall|k: int| i < k < j ==> #[trigger] s[k] != open && s[k] != close,
    ensures
        partners(s, i, j, open, close),
{
    assert(balance(s, i, i, open, close) == 0);
    assert(balance(s, i, i + 1, open, close) == 1);
    assert forall|k: int| i < k <= j implies #[trigger] balance(s, i, k, open, close) == 1 by {
        lemma_in_turn(s, i, i + 1, k, open, close);
        lemma_level(s, i + 1, k, open, close);
    }
    assert(balance(s, i, j, open, close) == 1);
    assert(balance(s, i, j + 1, open, close) == 0);
}

/// A pair of brackets around a pair, with no other bracket of the kind between them, closes
/// around it.
pub proof fn law_brackets_nest(
    s: Seq<char>,
    i: int,
    a: int,
    b: int,
    j: int,
    open: char,
    close: char,
)
    requires
        partners(s, a, b, open, close),
        0 <= i < a,
        b < j < s.len(),
        s[i] == open,
        s[j] == close,
        forall|k: int| i < k < a ==> #[trigger] s[k] != open && s[k] != close,
        forall|k: int| b < k < j ==> #[trigger] s[k] != open && s[k] != close,
    ensures
        partners(s, i, j, open, close),
{
    assert(balance(s, i, i, open, close) == 0);
    assert(balance(s, i, i + 1, open, close) == 1);
    lemma_in_turn(s, i, i + 1, a, open, close);
    lemma_level(s, i + 1, a, open, close);
    lemma_in_turn(s, i, a, b + 1, open, close);
    lemma_in_turn(s, i, b + 1, j, open, close);
    lemma_level(s, b + 1, j, open, close);
    assert forall|k: int| i < k <= j implies #[trigger] balance(s, i, k, open, close) > 0 by {
        if k <= a {
            lemma_in_turn(s, i, i + 1, k, open, close);
            lemma_level(s, i + 1, k, open, close);
        } else if k <= b {
            lemma_in_turn(s, i, a, k, open, close);
            assert(balance(s, a, k, open, close) > 0);
        } else {
            lemma_in_turn(s, i, b + 1, k, open, close);
            lemma_level(s, b + 1, k, open, close);
        }
    }
}

proof fn lemma_no_quotes(line: Seq<char>, i: int, j: int, quote: char)
    requires
        0 <= i <= j <= line.len(),
        forall|k: int| i <= k < j ==> #[trigger] line[k] != quote,
    ensures
        quotes_before(line, j, quote) == quotes_before(line, i, quote),
    decreases j - i,
{
    if i < j {
        lemma_no_quotes(line, i, j - 1, quote);
    }
}

/// The first quote of a line opens, the next one closes, the one after opens again, and so on.
pub proof fn law_quotes_pair_up_from_the_left(
    line: Seq<char>,
    i: int,
    j: int,
    k: int,
    m: int,
    quote: char,
)
    requires
        0 <= i < j < k < m < line.len(),
        line[i] == quote && line[j] == quote && line[k] == quote && line[m] == quote,
        forall|x: int| i < x < j ==> #[trigger] line[x] != quote,
        forall|x: int| j < x < k ==> #[trigger] line[x] != quote,
        forall|x: int| k < x < m ==> #[trigger] line[x] != quote,
    ensures
        (forall|x: int| 0 <= x < i ==> #[trigger] line[x] != quote) ==> quote_pair(
            line,
            i,
            j,
            quote,
        ),
        quote_pair(line, i, j, quote) ==> quote_pair(line, k, m, quote) && !quote_pair(
            line,
            j,
            k,
            quote,
        ),
{
    if forall|x: int| 0 <= x < i ==> #[trigger] line[x] != quote {
        lemma_no_quotes(line, 0, i, quote);
    }
    assert(quotes_before(line, i + 1, quote) == quotes_before(line, i, quote) + 1);
    lemma_no_quotes(line, i + 1, j, quote);
    assert(quotes_before(line, j + 1, quote) == quotes_before(line, j, quote) + 1);
    lemma_no_quotes(line, j + 1, k, quote);
}

// ------------------------------------------------------------------------
// Sentences and paragraphs
// ------------------------------------------------------------------------

/// A sentence starts with the first thing printed on the line, or with the first thing printed
/// after blanks that follow the end of another. It is the one that the column is in, or in the
/// blanks after.
pub proof fn law_a_sentence_starts_after_another(line: Seq<char>, start: int, col: int)
    requires
        0 <= start < line.len(),
    ensures
        ({
            let s = sentence_start(line, start, col);
            &&& start <= s < line.len()
            &&& s == start || s <= col && !unprinted(line[s]) && exists|t: int, i: int|
                {
                    &&& start <= t
                    &&& i < s
                    &&& #[trigger] is_sentence_stop(line, t, i)
                    &&& forall|k: int| i <= k < s ==> unprinted(#[trigger] line[k])
                }
            &&& forall|k: int|
                sentence_end(line, s) <= k <= col && k < line.len() ==> unprinted(
                    #[trigger] line[k],
                ) || exists|x: int| sentence_end(line, s) <= x < k && !unprinted(line[x])
        }),
    decreases line.len() - start,
{
    let end = sentence_end(line, start);
    law_a_sentence_ends_with_the_first_stop(line, start);
    lemma_run(line, end, 0, false);
    let next = class_end(line, end, 0, false);
    assert forall|k: int| 0 <= k < line.len() implies (crate::words::class_of(
        #[trigger] line[k],
        false,
    ) == 0) == unprinted(line[k]) by {
        lemma_classes(line[k], line[k], false);
    }
    if start < next <= col && next < line.len() {
        law_a_sentence_starts_after_another(line, next, col);
        let s = sentence_start(line, start, col);
        if s == next {
            let t = choose|t: int| start <= t && #[trigger] is_sentence_stop(line, t, end);
            assert(is_sentence_stop(line, t, end));
            assert(end < next) by {
                if end == next {
                    assert(unprinted(line[end]));
                }
            }
        } else {
            let (t, i) = choose|t: int, i: int|
                {
                    &&& next <= t
                    &&& i < s
                    &&& #[trigger] is_sentence_stop(line, t, i)
                    &&& forall|k: int| i <= k < s ==> unprinted(#[trigger] line[k])
                };
            assert(start <= t && is_sentence_stop(line, t, i));
        }
    } else {
        assert forall|k: int| end <= k <= col && k < line.len() implies unprinted(
            #[trigger] line[k],
        ) || exists|x: int| end <= x < k && !unprinted(line[x]) by {
            if k >= next {
                assert(!(next < line.len() && next <= col));
            }
        }
    }
}

/// A sentence is taken with the blanks after it, all of them; where there are none, with those
/// before it.
pub proof fn law_a_sentence_is_taken_with_its_blanks(line: Seq<char>, col: int)
    requires
        0 <= col < line.len(),
        class_end(line, 0, 0, false) < line.len(),
    ensures
        ({
            let (a, b) = sentence_range(line, col, false);
            let (x, y) = sentence_range(line, col, true);
            &&& b < line.len() && unprinted(line[b]) ==> {
                &&& x == a && b < y <= line.len()
                &&& forall|k: int| b <= k < y ==> unprinted(#[trigger] line[k])
                &&& y < line.len() ==> !unprinted(line[y])
            }
            &&& !(b < line.len() && unprinted(line[b])) ==> {
                &&& y == b && 0 <= x <= a
                &&& forall|k: int| x <= k < a ==> unprinted(#[trigger] line[k])
                &&& x > 0 ==> !unprinted(line[x - 1])
            }
        }),
{
    lemma_run(line, 0, 0, false);
    let first = class_end(line, 0, 0, false);
    law_a_sentence_starts_after_another(line, first, col);
    let (a, b) = sentence_range(line, col, false);
    law_a_sentence_ends_with_the_first_stop(line, a);
    lemma_run(line, b, 0, false);
    lemma_run_back(line, a, 0, false);
    assert forall|k: int| 0 <= k < line.len() implies (crate::words::class_of(
        #[trigger] line[k],
        false,
    ) == 0) == unprinted(line[k]) by {
        lemma_classes(line[k], line[k], false);
    }
}

proof fn lemma_blank_row(grid: Grid, row: int)
    requires
        0 <= row < grid.total(),
    ensures
        grid.row_is_blank(row) == shows_nothing(grid, row),
{
    if shows_nothing(grid, row) {
        assert forall|col: int|
            0 <= col < grid.width() && 0 <= row < grid.total() implies crate::grid::is_blank(
            (#[trigger] grid.cell_at(row, col)).ch,
        ) by {
            assert(unprinted(grid.cell_at(row, col).ch));
        }
    }
    if grid.row_is_blank(row) {
        assert forall|c: int| 0 <= c < grid.width() implies unprinted(
            (#[trigger] grid.cell_at(row, c)).ch,
        ) by {
            assert(crate::grid::is_blank(grid.cell_at(row, c).ch));
        }
    }
}

proof fn lemma_rows_end(grid: Grid, row: int, blank: bool)
    requires
        0 <= row <= grid.total(),
    ensures
        row <= rows_end(grid, row, blank) <= grid.total(),
        forall|r: int|
            row <= r < rows_end(grid, row, blank) ==> #[trigger] shows_nothing(grid, r) == blank,
        rows_end(grid, row, blank) < grid.total() ==> shows_nothing(
            grid,
            rows_end(grid, row, blank),
        ) != blank,
    decreases grid.total() - row,
{
    if row < grid.total() {
        lemma_blank_row(grid, row);
        if grid.row_is_blank(row) == blank {
            lemma_rows_end(grid, row + 1, blank);
        }
    }
}

proof fn lemma_rows_start(grid: Grid, row: int, blank: bool)
    requires
        0 <= row <= grid.total(),
    ensures
        0 <= rows_start(grid, row, blank) <= row,
        forall|r: int|
            rows_start(grid, row, blank) <= r < row ==> #[trigger] shows_nothing(grid, r) == blank,
        rows_start(grid, row, blank) > 0 ==> shows_nothing(
            grid,
            rows_start(grid, row, blank) - 1,
        ) != blank,
    decreases row,
{
    if row > 0 {
        lemma_blank_row(grid, row - 1);
        if grid.row_is_blank(row - 1) == blank {
            lemma_rows_start(grid, row - 1, blank);
        }
    }
}

/// A paragraph is as many rows as there are that show something, or nothing, as the row does.
/// With what is around it, the rows of the other kind after it are taken too, or where there
/// are none those before.
pub proof fn law_a_paragraph_is_all_of_one_kind(grid: Grid, row: int)
    requires
        0 <= row < grid.total(),
    ensures
        ({
            let blank = shows_nothing(grid, row);
            let (a, b) = paragraph_range(grid, row, false);
            let (x, y) = paragraph_range(grid, row, true);
            &&& 0 <= a <= row < b <= grid.total()
            &&& forall|r: int| a <= r < b ==> #[trigger] shows_nothing(grid, r) == blank
            &&& a > 0 ==> shows_nothing(grid, a - 1) != blank
            &&& b < grid.total() ==> shows_nothing(grid, b) != blank
            &&& b < grid.total() ==> {
                &&& x == a && b < y <= grid.total()
                &&& forall|r: int| b <= r < y ==> #[trigger] shows_nothing(grid, r) != blank
                &&& y < grid.total() ==> shows_nothing(grid, y) == blank
            }
            &&& b == grid.total() ==> {
                &&& y == b && 0 <= x <= a
                &&& forall|r: int| x <= r < a ==> #[trigger] shows_nothing(grid, r) != blank
                &&& x > 0 ==> shows_nothing(grid, x - 1) == blank
            }
        }),
{
    lemma_blank_row(grid, row);
    let blank = shows_nothing(grid, row);
    lemma_rows_end(grid, row, blank);
    lemma_rows_start(grid, row, blank);
    let (a, b) = paragraph_range(grid, row, false);
    lemma_rows_end(grid, b, !blank);
    lemma_rows_start(grid, a, !blank);
}

// ------------------------------------------------------------------------
// Characters
// ------------------------------------------------------------------------

proof fn lemma_row_landings(
    grid: Grid,
    find: FindChar,
    cursor: (int, int),
    r: int,
    lo: int,
    hi: int,
    at: (int, int),
)
    requires
        grid.wf(),
        0 <= r < grid.height(),
        !find.till,
        0 <= lo,
        hi <= printed_line(grid, r).len(),
        !(cursor.0 == r && lo <= cursor.1 < hi),
    ensures
        row_landings(grid, find, cursor, r, lo, hi).contains(at) == (at.0 == r && lo <= at.1 < hi
            && printed_line(grid, r)[at.1] == find.ch),
    decreases hi - lo,
{
    let line = printed_line(grid, r);
    let all = row_landings(grid, find, cursor, r, lo, hi);
    if lo < hi {
        crate::navigation::motions::lemma_line_within_reach(grid, r);
        let c = if find.forward {
            hi - 1
        } else {
            lo
        };
        let rest = if find.forward {
            row_landings(grid, find, cursor, r, lo, hi - 1)
        } else {
            row_landings(grid, find, cursor, r, lo + 1, hi)
        };
        if find.forward {
            lemma_row_landings(grid, find, cursor, r, lo, hi - 1, at);
        } else {
            lemma_row_landings(grid, find, cursor, r, lo + 1, hi, at);
        }
        if line[c] == find.ch {
            assert(all == rest.push((r, c)));
            if rest.contains(at) {
                let k = choose|k: int| 0 <= k < rest.len() && rest[k] == at;
                assert(all[k] == at);
            }
            assert(all[rest.len() as int] == (r, c));
            if all.contains(at) && at != (r, c) {
                let k = choose|k: int| 0 <= k < all.len() && all[k] == at;
                assert(rest[k] == at);
            }
        } else {
            assert(all == rest);
        }
    }
}

proof fn lemma_joined_contains(a: Seq<(int, int)>, b: Seq<(int, int)>, x: (int, int))
    ensures
        (a + b).contains(x) == (a.contains(x) || b.contains(x)),
{
    let both = a + b;
    if a.contains(x) {
        let k = choose|k: int| 0 <= k < a.len() && a[k] == x;
        assert(both[k] == x);
    }
    if b.contains(x) {
        let k = choose|k: int| 0 <= k < b.len() && b[k] == x;
        assert(both[a.len() + k] == x);
    }
    if both.contains(x) {
        let k = choose|k: int| 0 <= k < both.len() && both[k] == x;
        if k < a.len() {
            assert(a[k] == x);
        } else {
            assert(b[k - a.len()] == x);
        }
    }
}

proof fn lemma_down(grid: Grid, find: FindChar, cursor: (int, int), r: int, at: (int, int))
    requires
        grid.wf(),
        find.forward,
        !find.till,
        0 <= cursor.0 < grid.height(),
        0 <= cursor.1,
        r <= grid.height(),
    ensures
        landings_down(grid, find, cursor, r).contains(at) == (cursor.0 <= at.0 < r && 0 <= at.1
            < printed_line(grid, at.0).len() && printed_line(grid, at.0)[at.1] == find.ch && (at.0
            > cursor.0 || at.1 > cursor.1)),
    decreases r - cursor.0,
{
    if r > cursor.0 {
        let lo = if r - 1 == cursor.0 {
            cursor.1 + 1
        } else {
            0
        };
        let len = printed_line(grid, r - 1).len() as int;
        lemma_down(grid, find, cursor, r - 1, at);
        lemma_row_landings(grid, find, cursor, r - 1, lo, len, at);
        lemma_joined_contains(
            landings_down(grid, find, cursor, r - 1),
            row_landings(grid, find, cursor, r - 1, lo, len),
            at,
        );
    }
}

proof fn lemma_up(grid: Grid, find: FindChar, cursor: (int, int), r: int, at: (int, int))
    requires
        grid.wf(),
        !find.forward,
        !find.till,
        0 <= cursor.0 < grid.height(),
        0 <= cursor.1,
        0 <= r,
    ensures
        landings_up(grid, find, cursor, r).contains(at) == (r <= at.0 <= cursor.0 && 0 <= at.1
            < printed_line(grid, at.0).len() && printed_line(grid, at.0)[at.1] == find.ch && (at.0
            < cursor.0 || at.1 < cursor.1)),
    decreases cursor.0 + 1 - r,
{
    if r <= cursor.0 {
        let len = printed_line(grid, r).len() as int;
        let hi = if r == cursor.0 {
            crate::text::least(cursor.1, len)
        } else {
            len
        };
        lemma_up(grid, find, cursor, r + 1, at);
        lemma_row_landings(grid, find, cursor, r, 0, hi, at);
        lemma_joined_contains(
            landings_up(grid, find, cursor, r + 1),
            row_landings(grid, find, cursor, r, 0, hi),
            at,
        );
    }
}

/// A search for a character over the screen finds every place after the cursor, or before it,
/// where the character is printed, and no other.
pub proof fn law_every_place_of_a_character_is_found(
    grid: Grid,
    find: FindChar,
    cursor: (int, int),
    at: (int, int),
)
    requires
        grid.wf(),
        !find.till,
        0 <= cursor.0 < grid.height(),
        0 <= cursor.1,
    ensures
        find_landings(grid, find, cursor).contains(at) == {
            &&& 0 <= at.0 < grid.height()
            &&& 0 <= at.1 < printed_line(grid, at.0).len()
            &&& printed_line(grid, at.0)[at.1] == find.ch
            &&& find.forward ==> at.0 > cursor.0 || at.0 == cursor.0 && at.1 > cursor.1
            &&& !find.forward ==> at.0 < cursor.0 || at.0 == cursor.0 && at.1 < cursor.1
        },
{
    if find.forward {
        lemma_down(grid, find, cursor, grid.height(), at);
    } else {
        lemma_up(grid, find, cursor, 0, at);
    }
}

} // verus!
