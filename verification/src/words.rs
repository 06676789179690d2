//! Vim's words on a line of characters.

use vstd::prelude::*;
use crate::grid::{blank_char, is_blank};
use crate::input::FindChar;
use crate::text::{is_alphanumeric_char, is_white};

verus! {

/// What a character is to a word motion: blank (0), part of a keyword (1), or
/// punctuation (2). A WORD, `big`, is anything that is not blank.
pub open spec fn class_of(c: char, big: bool) -> int {
    if is_blank(c) {
        0
    } else if big || is_alphanumeric_char(c) || c == '_' {
        1
    } else {
        2
    }
}

/// What a character is to a word motion.
pub fn char_class(c: char, big: bool) -> (r: u8)
    ensures
        r == class_of(c, big),
{
    if blank_char(c) {
        0
    } else if big || c.is_alphanumeric() || c == '_' {
        1
    } else {
        2
    }
}

/// Where the run of characters of class `class` that starts at `i` ends.
pub open spec fn class_end(line: Seq<char>, i: int, class: int, big: bool) -> int
    decreases line.len() - i,
{
    if 0 <= i < line.len() && class_of(line[i], big) == class {
        class_end(line, i + 1, class, big)
    } else {
        i
    }
}

/// Where the run of characters of class `class` that ends before `i` starts.
pub open spec fn class_start(line: Seq<char>, i: int, class: int, big: bool) -> int
    decreases i,
{
    if 0 < i <= line.len() && class_of(line[i - 1], big) == class {
        class_start(line, i - 1, class, big)
    } else {
        i
    }
}

/// A run that starts within a line ends within it.
pub proof fn lemma_class_end(line: Seq<char>, i: int, class: int, big: bool)
    requires
        0 <= i <= line.len(),
    ensures
        i <= class_end(line, i, class, big) <= line.len(),
    decreases line.len() - i,
{
    if i < line.len() && class_of(line[i], big) == class {
        lemma_class_end(line, i + 1, class, big);
    }
}

/// A run that ends within a line starts within it.
pub proof fn lemma_class_start(line: Seq<char>, i: int, class: int, big: bool)
    requires
        0 <= i <= line.len(),
    ensures
        0 <= class_start(line, i, class, big) <= i,
    decreases i,
{
    if i > 0 && class_of(line[i - 1], big) == class {
        lemma_class_start(line, i - 1, class, big);
    }
}

/// Where the run of characters of class `class` that starts at `i` ends.
pub fn skip_class(line: &Vec<char>, i: usize, class: u8, big: bool) -> (r: usize)
    requires
        i <= line@.len(),
    ensures
        r == class_end(line@, i as int, class as int, big),
        i <= r <= line@.len(),
{
    let mut j: usize = i;
    while j < line.len() && char_class(line[j], big) == class
        invariant
            i <= j <= line@.len(),
            class_end(line@, i as int, class as int, big) == class_end(
                line@,
                j as int,
                class as int,
                big,
            ),
        decreases line@.len() - j,
    {
        j = j + 1;
    }
    j
}

/// Where the run of characters of class `class` that ends before `i` starts.
pub fn skip_class_back(line: &Vec<char>, i: usize, class: u8, big: bool) -> (r: usize)
    requires
        i <= line@.len(),
    ensures
        r == class_start(line@, i as int, class as int, big),
        r <= i,
{
    let mut j: usize = i;
    while j > 0 && char_class(line[j - 1], big) == class
        invariant
            j <= i <= line@.len(),
            class_start(line@, i as int, class as int, big) == class_start(
                line@,
                j as int,
                class as int,
                big,
            ),
        decreases j,
    {
        j = j - 1;
    }
    j
}

/// The first column that is not blank; zero on a blank line.
pub open spec fn first_printed(line: Seq<char>) -> int {
    let i = class_end(line, 0, 0, false);
    if i < line.len() {
        i
    } else {
        0
    }
}

/// The first column that is not blank, or zero on a blank line.
pub fn first_non_blank(line: &Vec<char>) -> (r: usize)
    ensures
        r == first_printed(line@),
{
    let i: usize = skip_class(line, 0, 0, false);
    if i < line.len() {
        i
    } else {
        0
    }
}

/// The last column that is not blank; zero on a blank line.
pub open spec fn last_printed(line: Seq<char>) -> int {
    let i = class_start(line, line.len() as int, 0, false);
    if i > 0 {
        i - 1
    } else {
        0
    }
}

/// The last column that is not blank, or zero on a blank line.
pub fn last_non_blank(line: &Vec<char>) -> (r: usize)
    ensures
        r == last_printed(line@),
{
    let i: usize = skip_class_back(line, line.len(), 0, false);
    if i > 0 {
        i - 1
    } else {
        0
    }
}

/// Where `w` goes from `col`: past what the cursor is in, then past the blanks.
pub open spec fn word_after(line: Seq<char>, col: int, big: bool) -> Option<int> {
    if col >= line.len() {
        None
    } else {
        let class = class_of(line[col], big);
        let past = if class == 0 {
            col
        } else {
            class_end(line, col, class, big)
        };
        let start = class_end(line, past, 0, big);
        if start < line.len() {
            Some(start)
        } else {
            None
        }
    }
}

/// `w`: the start of the next word on the line.
pub fn next_word_start(line: &Vec<char>, col: usize, big: bool) -> (r: Option<usize>)
    ensures
        match r {
            Some(c) => word_after(line@, col as int, big) == Some(c as int) && c < line@.len(),
            None => word_after(line@, col as int, big) is None,
        },
{
    if col >= line.len() {
        return None;
    }
    let class: u8 = char_class(line[col], big);
    let past: usize = if class == 0 {
        col
    } else {
        skip_class(line, col, class, big)
    };
    let start: usize = skip_class(line, past, 0, big);
    if start < line.len() {
        Some(start)
    } else {
        None
    }
}

/// Where `b` goes from `col`: back past the blanks, then to the start of what is
/// there.
pub open spec fn word_before(line: Seq<char>, col: int, big: bool) -> Option<int> {
    let from = if col <= line.len() {
        col
    } else {
        line.len() as int
    };
    let end = class_start(line, from, 0, big);
    if end == 0 {
        None
    } else {
        Some(class_start(line, end, class_of(line[end - 1], big), big))
    }
}

/// `b`: the start of the word before the cursor on the line.
pub fn prev_word_start(line: &Vec<char>, col: usize, big: bool) -> (r: Option<usize>)
    ensures
        match r {
            Some(c) => word_before(line@, col as int, big) == Some(c as int) && c < line@.len(),
            None => word_before(line@, col as int, big) is None,
        },
{
    let from: usize = if col <= line.len() { col } else { line.len() };
    let end: usize = skip_class_back(line, from, 0, big);
    if end == 0 {
        return None;
    }
    let class: u8 = char_class(line[end - 1], big);
    proof {
        lemma_class_start(line@, end - 1, class as int, big);
    }
    Some(skip_class_back(line, end, class, big))
}

/// Where `e` goes from `col`: on past the blanks, then to the end of what is
/// there.
pub open spec fn end_after(line: Seq<char>, col: int, big: bool) -> Option<int> {
    if col + 1 >= line.len() {
        None
    } else {
        let start = class_end(line, col + 1, 0, big);
        if start < line.len() {
            Some(class_end(line, start, class_of(line[start], big), big) - 1)
        } else {
            None
        }
    }
}

/// `e`: the next end of a word on the line.
pub fn word_end(line: &Vec<char>, col: usize, big: bool) -> (r: Option<usize>)
    ensures
        match r {
            Some(c) => end_after(line@, col as int, big) == Some(c as int) && c < line@.len(),
            None => end_after(line@, col as int, big) is None,
        },
{
    if line.len() == 0 || col >= line.len() - 1 {
        return None;
    }
    let start: usize = skip_class(line, col + 1, 0, big);
    if start >= line.len() {
        return None;
    }
    let class: u8 = char_class(line[start], big);
    proof {
        lemma_class_end(line@, start + 1, class as int, big);
    }
    let end: usize = skip_class(line, start, class, big);
    Some(end - 1)
}

/// Where `ge` goes from `col`: back out of what the cursor is in, then past the
/// blanks.
pub open spec fn end_before(line: Seq<char>, col: int, big: bool) -> Option<int> {
    let past = if col >= line.len() {
        line.len() as int
    } else {
        let class = class_of(line[col], big);
        if class == 0 {
            col
        } else {
            class_start(line, col, class, big)
        }
    };
    let end = class_start(line, past, 0, big);
    if end == 0 {
        None
    } else {
        Some(end - 1)
    }
}

/// `ge`: the previous end of a word on the line.
pub fn prev_word_end(line: &Vec<char>, col: usize, big: bool) -> (r: Option<usize>)
    ensures
        match r {
            Some(c) => end_before(line@, col as int, big) == Some(c as int) && c < line@.len(),
            None => end_before(line@, col as int, big) is None,
        },
{
    let past: usize = if col >= line.len() {
        line.len()
    } else {
        let class: u8 = char_class(line[col], big);
        if class == 0 {
            col
        } else {
            skip_class_back(line, col, class, big)
        }
    };
    let end: usize = skip_class_back(line, past, 0, big);
    if end == 0 {
        None
    } else {
        Some(end - 1)
    }
}

/// The first index from `i` on that holds `ch`; the length when none does.
pub open spec fn next_index(line: Seq<char>, i: int, ch: char) -> int
    decreases line.len() - i,
{
    if 0 <= i < line.len() && line[i] != ch {
        next_index(line, i + 1, ch)
    } else {
        i
    }
}

/// The last index below `i` that holds `ch`; -1 when none does.
pub open spec fn prev_index(line: Seq<char>, i: int, ch: char) -> int
    decreases i,
{
    if i <= 0 {
        -1
    } else if i <= line.len() && line[i - 1] == ch {
        i - 1
    } else {
        prev_index(line, i - 1, ch)
    }
}

/// Where a character search goes from `col`: to the nearest `ch` in its
/// direction, one cell short of it for `till`. Nowhere when there is none, or
/// when that is where the cursor already is.
pub open spec fn found_char(line: Seq<char>, col: int, find: FindChar) -> Option<int> {
    if find.forward {
        let at = next_index(line, col + 1, find.ch);
        if at >= line.len() {
            None
        } else if !find.till {
            Some(at)
        } else if at - 1 == col {
            None
        } else {
            Some(at - 1)
        }
    } else {
        let at = prev_index(line, if col <= line.len() { col } else { line.len() as int }, find.ch);
        if at < 0 {
            None
        } else if !find.till {
            Some(at)
        } else if at + 1 == col {
            None
        } else {
            Some(at + 1)
        }
    }
}

/// `f`, `F`, `t` and `T` on a line.
pub fn find_char(line: &Vec<char>, col: usize, find: FindChar) -> (r: Option<usize>)
    ensures
        match r {
            Some(c) => found_char(line@, col as int, find) == Some(c as int),
            None => found_char(line@, col as int, find) is None,
        },
{
    if find.forward {
        if col >= line.len() {
            return None;
        }
        let mut at: usize = col + 1;
        while at < line.len() && line[at] != find.ch
            invariant
                col < at <= line@.len(),
                next_index(line@, col + 1, find.ch) == next_index(line@, at as int, find.ch),
            decreases line@.len() - at,
        {
            at = at + 1;
        }
        if at >= line.len() {
            None
        } else if !find.till {
            Some(at)
        } else if at - 1 == col {
            None
        } else {
            Some(at - 1)
        }
    } else {
        let from: usize = if col <= line.len() { col } else { line.len() };
        let mut i: usize = from;
        while i > 0 && line[i - 1] != find.ch
            invariant
                i <= from <= line@.len(),
                prev_index(line@, from as int, find.ch) == prev_index(line@, i as int, find.ch),
            decreases i,
        {
            i = i - 1;
        }
        if i == 0 {
            None
        } else if !find.till {
            Some(i - 1)
        } else if i == col {
            None
        } else {
            Some(i)
        }
    }
}

// ------------------------------------------------------------------------
// Laws
// ------------------------------------------------------------------------

/// Whether nothing is printed where `c` stands.
pub open spec fn unprinted(c: char) -> bool {
    c == '\0' || is_white(c)
}

/// Whether `c` is a letter, a digit or an underscore.
pub open spec fn wordy(c: char) -> bool {
    is_alphanumeric_char(c) || c == '_'
}

/// Whether two characters side by side belong to one word. Any two printed ones belong to
/// one WORD, `big`.
pub open spec fn of_one_word(a: char, b: char, big: bool) -> bool {
    !unprinted(a) && !unprinted(b) && (big || wordy(a) == wordy(b))
}

/// A word starts at column `i`: something is printed there that does not go on with what is
/// before it.
pub open spec fn starts_word(line: Seq<char>, i: int, big: bool) -> bool {
    &&& 0 <= i < line.len()
    &&& !unprinted(line[i])
    &&& i == 0 || !of_one_word(line[i - 1], line[i], big)
}

/// A word ends at column `i`: something is printed there that what comes after it does not
/// go on with.
pub open spec fn ends_word(line: Seq<char>, i: int, big: bool) -> bool {
    &&& 0 <= i < line.len()
    &&& !unprinted(line[i])
    &&& i + 1 == line.len() || !of_one_word(line[i], line[i + 1], big)
}

pub proof fn lemma_classes(a: char, b: char, big: bool)
    ensures
        (class_of(a, big) == 0) == unprinted(a),
        of_one_word(a, b, big) == (class_of(a, big) == class_of(b, big) && class_of(a, big) != 0),
{
}

pub proof fn lemma_run(line: Seq<char>, i: int, class: int, big: bool)
    requires
        0 <= i <= line.len(),
    ensures
        i <= class_end(line, i, class, big) <= line.len(),
        forall|k: int|
            i <= k < class_end(line, i, class, big) ==> class_of(#[trigger] line[k], big) == class,
        class_end(line, i, class, big) < line.len() ==> class_of(
            line[class_end(line, i, class, big)],
            big,
        ) != class,
    decreases line.len() - i,
{
    if i < line.len() && class_of(line[i], big) == class {
        lemma_run(line, i + 1, class, big);
    }
}

pub proof fn lemma_run_back(line: Seq<char>, i: int, class: int, big: bool)
    requires
        0 <= i <= line.len(),
    ensures
        0 <= class_start(line, i, class, big) <= i,
        forall|k: int|
            class_start(line, i, class, big) <= k < i ==> class_of(#[trigger] line[k], big)
                == class,
        class_start(line, i, class, big) > 0 ==> class_of(
            line[class_start(line, i, class, big) - 1],
            big,
        ) != class,
    decreases i,
{
    if i > 0 && class_of(line[i - 1], big) == class {
        lemma_run_back(line, i - 1, class, big);
    }
}

/// `w` goes to the nearest start of a word to the right, and nowhere only when there is
/// none.
pub proof fn law_w_goes_to_the_next_start(line: Seq<char>, col: int, big: bool)
    requires
        0 <= col,
    ensures
        match word_after(line, col, big) {
            Some(c) => col < c && starts_word(line, c, big) && forall|k: int|
                col < k < c ==> !(#[trigger] starts_word(line, k, big)),
            None => forall|k: int| col < k ==> !(#[trigger] starts_word(line, k, big)),
        },
{
    if col < line.len() {
        let class = class_of(line[col], big);
        lemma_run(line, col, class, big);
        let past = if class == 0 {
            col
        } else {
            class_end(line, col, class, big)
        };
        lemma_run(line, past, 0, big);
        let start = class_end(line, past, 0, big);
        lemma_classes(line[col], line[col], big);
        assert forall|k: int| col < k < start implies !(#[trigger] starts_word(line, k, big)) by {
            lemma_classes(line[k - 1], line[k], big);
            if k < past {
                assert(class_of(line[k], big) == class);
                assert(class_of(line[k - 1], big) == class);
            } else {
                assert(class_of(line[k], big) == 0);
            }
        }
        if start < line.len() {
            lemma_classes(line[start - 1], line[start], big);
            if start == past {
                assert(class_of(line[start - 1], big) == class);
            } else {
                assert(class_of(line[start - 1], big) == 0);
            }
        }
    }
}

/// `b` goes to the nearest start of a word to the left, and nowhere only when there is
/// none.
pub proof fn law_b_goes_to_the_start_before(line: Seq<char>, col: int, big: bool)
    requires
        0 <= col,
    ensures
        match word_before(line, col, big) {
            Some(c) => c < col && starts_word(line, c, big) && forall|k: int|
                c < k < col ==> !(#[trigger] starts_word(line, k, big)),
            None => forall|k: int| k < col ==> !(#[trigger] starts_word(line, k, big)),
        },
{
    let from = if col <= line.len() {
        col
    } else {
        line.len() as int
    };
    lemma_run_back(line, from, 0, big);
    let end = class_start(line, from, 0, big);
    assert forall|k: int| end <= k < col implies !(#[trigger] starts_word(line, k, big)) by {
        if k < from {
            lemma_classes(line[k], line[k], big);
            assert(class_of(line[k], big) == 0);
        }
    }
    if end > 0 {
        let class = class_of(line[end - 1], big);
        lemma_run_back(line, end, class, big);
        let c = class_start(line, end, class, big);
        assert(class_of(line[c], big) == class);
        lemma_classes(line[c], line[c], big);
        if c > 0 {
            lemma_classes(line[c - 1], line[c], big);
        }
        assert forall|k: int| c < k < end implies !(#[trigger] starts_word(line, k, big)) by {
            lemma_classes(line[k - 1], line[k], big);
            assert(class_of(line[k], big) == class);
            assert(class_of(line[k - 1], big) == class);
        }
    }
}

/// `e` goes to the nearest end of a word to the right, and nowhere only when there is none.
pub proof fn law_e_goes_to_the_next_end(line: Seq<char>, col: int, big: bool)
    requires
        0 <= col,
    ensures
        match end_after(line, col, big) {
            Some(c) => col < c && ends_word(line, c, big) && forall|k: int|
                col < k < c ==> !(#[trigger] ends_word(line, k, big)),
            None => forall|k: int| col < k ==> !(#[trigger] ends_word(line, k, big)),
        },
{
    if col + 1 < line.len() {
        lemma_run(line, col + 1, 0, big);
        let start = class_end(line, col + 1, 0, big);
        assert forall|k: int| col < k < start implies !(#[trigger] ends_word(line, k, big)) by {
            lemma_classes(line[k], line[k], big);
            assert(class_of(line[k], big) == 0);
        }
        if start < line.len() {
            let class = class_of(line[start], big);
            lemma_run(line, start, class, big);
            let c = class_end(line, start, class, big) - 1;
            assert(class_of(line[c], big) == class);
            lemma_classes(line[c], line[c], big);
            if c + 1 < line.len() {
                lemma_classes(line[c], line[c + 1], big);
            }
            assert forall|k: int| start <= k < c implies !(#[trigger] ends_word(line, k, big)) by {
                lemma_classes(line[k], line[k + 1], big);
                assert(class_of(line[k], big) == class);
                assert(class_of(line[k + 1], big) == class);
            }
        }
    }
}

/// `ge` goes to the nearest end of a word to the left, and nowhere only when there is none.
pub proof fn law_ge_goes_to_the_end_before(line: Seq<char>, col: int, big: bool)
    requires
        0 <= col,
    ensures
        match end_before(line, col, big) {
            Some(c) => c < col && ends_word(line, c, big) && forall|k: int|
                c < k < col ==> !(#[trigger] ends_word(line, k, big)),
            None => forall|k: int| k < col ==> !(#[trigger] ends_word(line, k, big)),
        },
{
    let class = if col < line.len() {
        class_of(line[col], big)
    } else {
        0
    };
    let past = if col >= line.len() {
        line.len() as int
    } else if class == 0 {
        col
    } else {
        class_start(line, col, class, big)
    };
    if col < line.len() {
        lemma_run_back(line, col, class, big);
        lemma_classes(line[col], line[col], big);
    }
    lemma_run_back(line, past, 0, big);
    let end = class_start(line, past, 0, big);
    assert forall|k: int| end <= k < col implies !(#[trigger] ends_word(line, k, big)) by {
        if k < line.len() {
            lemma_classes(line[k], line[k], big);
            if k < past {
                assert(class_of(line[k], big) == 0);
            } else {
                lemma_classes(line[k], line[k + 1], big);
                assert(class_of(line[k], big) == class);
                if k + 1 < col {
                    assert(class_of(line[k + 1], big) == class);
                }
            }
        }
    }
    if end > 0 {
        let c = end - 1;
        lemma_classes(line[c], line[c], big);
        if end < line.len() {
            lemma_classes(line[c], line[end], big);
            if end < past {
                assert(class_of(line[end], big) == 0);
            } else if past < col {
                assert(class_of(line[end], big) == class);
            } else {
                assert(class_of(line[end], big) == class);
            }
        }
    }
}

/// `^` goes to the first printed column, and `g_` to the last; a line without one leaves the
/// cursor at its start.
pub proof fn law_the_first_and_the_last_printed_column(line: Seq<char>)
    ensures
        (forall|k: int| 0 <= k < line.len() ==> unprinted(#[trigger] line[k])) ==> first_printed(
            line,
        ) == 0 && last_printed(line) == 0,
        (exists|k: int| 0 <= k < line.len() && !unprinted(#[trigger] line[k])) ==> {
            &&& 0 <= first_printed(line) <= last_printed(line) < line.len()
            &&& !unprinted(line[first_printed(line)])
            &&& !unprinted(line[last_printed(line)])
            &&& forall|k: int| 0 <= k < first_printed(line) ==> unprinted(#[trigger] line[k])
            &&& forall|k: int|
                last_printed(line) < k < line.len() ==> unprinted(#[trigger] line[k])
        },
{
    lemma_run(line, 0, 0, false);
    lemma_run_back(line, line.len() as int, 0, false);
    let first = class_end(line, 0, 0, false);
    let past = class_start(line, line.len() as int, 0, false);
    assert forall|k: int| 0 <= k < line.len() implies (class_of(#[trigger] line[k], false) == 0)
        == unprinted(line[k]) by {
        lemma_classes(line[k], line[k], false);
    }
}

proof fn lemma_next_index(line: Seq<char>, i: int, ch: char)
    requires
        0 <= i,
    ensures
        i <= next_index(line, i, ch),
        next_index(line, i, ch) < line.len() ==> line[next_index(line, i, ch)] == ch,
        forall|k: int| i <= k < next_index(line, i, ch) && k < line.len() ==> #[trigger] line[k] != ch,
    decreases line.len() - i,
{
    if i < line.len() && line[i] != ch {
        lemma_next_index(line, i + 1, ch);
    }
}

proof fn lemma_prev_index(line: Seq<char>, i: int, ch: char)
    requires
        0 <= i <= line.len(),
    ensures
        -1 <= prev_index(line, i, ch) < i || i == 0 && prev_index(line, i, ch) == -1,
        prev_index(line, i, ch) >= 0 ==> line[prev_index(line, i, ch)] == ch,
        forall|k: int| prev_index(line, i, ch) < k < i ==> #[trigger] line[k] != ch,
    decreases i,
{
    if i > 0 && line[i - 1] != ch {
        lemma_prev_index(line, i - 1, ch);
    }
}

/// Whether column `at` holds `ch` and no column strictly between it and `col` does.
pub open spec fn nearest(line: Seq<char>, col: int, at: int, ch: char) -> bool {
    &&& 0 <= at < line.len()
    &&& line[at] == ch
    &&& forall|k: int| (col < k < at || at < k < col) && k < line.len() ==> #[trigger] line[k] != ch
}

/// `f` lands on the nearest of the characters to the right, and `F` to the left; `t` and `T`
/// land next to it, on the near side, and stay where they are when that is there already.
pub proof fn law_a_character_search_lands_on_the_nearest(line: Seq<char>, col: int, find: FindChar)
    requires
        0 <= col,
    ensures
        match found_char(line, col, find) {
            Some(c) => {
                let at = if !find.till {
                    c
                } else if find.forward {
                    c + 1
                } else {
                    c - 1
                };
                &&& nearest(line, col, at, find.ch)
                &&& find.forward ==> col < c
                &&& !find.forward ==> c < col || find.till && c < col + 1 && line.len() < col
            },
            None => forall|at: int|
                (if find.forward {
                    if find.till {
                        col + 1 < at
                    } else {
                        col < at
                    }
                } else {
                    if find.till {
                        at < col - 1
                    } else {
                        at < col
                    }
                }) ==> !(#[trigger] nearest(line, col, at, find.ch)),
        },
{
    if find.forward {
        lemma_next_index(line, col + 1, find.ch);
        let at = next_index(line, col + 1, find.ch);
        if found_char(line, col, find) is None && at < line.len() {
            assert(at == col + 1);
            assert forall|k: int| col + 1 < k implies !(#[trigger] nearest(
                line,
                col,
                k,
                find.ch,
            )) by {
                assert(line[at] == find.ch);
            }
        }
    } else {
        let from = if col <= line.len() {
            col
        } else {
            line.len() as int
        };
        lemma_prev_index(line, from, find.ch);
        let at = prev_index(line, from, find.ch);
        if found_char(line, col, find) is None && at >= 0 {
            assert forall|k: int| k < col - 1 implies !(#[trigger] nearest(
                line,
                col,
                k,
                find.ch,
            )) by {
                assert(line[at] == find.ch);
            }
        }
    }
}

} // verus!
