//! What a walk over directories makes of them: sizes that add up, entries in the order of
//! their names, and lines told by their numbers.

use vstd::prelude::*;
use crate::jobs::{
    by_name, dir_found, dir_size, entries_found, file_found, holds, kept_line, lemma_by_name,
    lemma_line_stop, line_at, line_next, line_stop, name_before, place_for, skipped_dir, under,
    FoundView, Node, SEARCH_MAX_DEPTH, SEARCH_MAX_FILE_BYTES, SEARCH_MAX_HITS, SEARCH_MAX_LINE,
    SIZE_MAX_DEPTH,
};
use crate::text::{is_white, lowered, text_stop};

verus! {

// ------------------------------------------------------------------------
// Names and paths
// ------------------------------------------------------------------------

proof fn lemma_alike(a: Seq<char>, b: Seq<char>, i: int, k: int)
    requires
        0 <= i <= k <= a.len(),
        k <= b.len(),
        forall|x: int| i <= x < k ==> #[trigger] a[x] == b[x],
    ensures
        name_before(a, b, i) == name_before(a, b, k),
    decreases k - i,
{
    if i < k {
        assert(a[i] == b[i]);
        lemma_alike(a, b, i + 1, k);
    }
}

/// Which of two names comes first is told by the first character in which they differ. A name
/// comes before what goes on after it.
pub proof fn law_the_first_difference_tells(a: Seq<char>, b: Seq<char>, k: int)
    requires
        0 <= k <= a.len(),
        k < b.len(),
        forall|x: int| 0 <= x < k ==> #[trigger] a[x] == b[x],
        k < a.len() ==> (a[k] as int) < (b[k] as int),
    ensures
        name_before(a, b, 0),
        !name_before(b, a, 0),
        !name_before(a, a, 0),
{
    lemma_alike(a, b, 0, k);
    lemma_alike(b, a, 0, k);
    lemma_alike(a, a, 0, a.len() as int);
}

proof fn lemma_asymmetric(a: Seq<char>, b: Seq<char>, i: int)
    requires
        0 <= i <= a.len(),
        name_before(a, b, i),
    ensures
        !name_before(b, a, i),
    decreases a.len() - i,
{
    if i < a.len() && i < b.len() && a[i] == b[i] {
        lemma_asymmetric(a, b, i + 1);
    }
}

proof fn lemma_transitive(a: Seq<char>, b: Seq<char>, c: Seq<char>, i: int)
    requires
        0 <= i <= a.len(),
        i <= b.len(),
        name_before(a, b, i),
        name_before(b, c, i),
    ensures
        name_before(a, c, i),
    decreases a.len() - i,
{
    if i < a.len() && i < b.len() && i < c.len() && a[i] == b[i] && b[i] == c[i] {
        lemma_transitive(a, b, c, i + 1);
    }
}

proof fn lemma_place(
    entries: Seq<(String, Node)>,
    order: Seq<usize>,
    name: Seq<char>,
    i: int,
)
    requires
        0 <= i <= order.len(),
    ensures
        i <= place_for(entries, order, name, i) <= order.len(),
        forall|k: int|
            i <= k < place_for(entries, order, name, i) ==> !name_before(
                name,
                entries[(#[trigger] order[k]) as int].0@,
                0,
            ),
        place_for(entries, order, name, i) < order.len() ==> name_before(
            name,
            entries[order[place_for(entries, order, name, i)] as int].0@,
            0,
        ),
    decreases order.len() - i,
{
    if i < order.len() && !name_before(name, entries[order[i] as int].0@, 0) {
        lemma_place(entries, order, name, i + 1);
    }
}

/// Entries are listed by their names: none comes after one that its name comes before. Each of
/// them is listed.
pub proof fn law_entries_are_listed_by_name(entries: Seq<(String, Node)>, n: int)
    requires
        0 <= n <= entries.len(),
        entries.len() <= usize::MAX,
    ensures
        by_name(entries, n).len() == n,
        forall|i: int, j: int|
            0 <= i < j < n ==> !name_before(
                entries[(#[trigger] by_name(entries, n)[j]) as int].0@,
                entries[(#[trigger] by_name(entries, n)[i]) as int].0@,
                0,
            ),
        forall|k: int| 0 <= k < n ==> by_name(entries, n).contains(#[trigger] (k as usize)),
    decreases n,
{
    lemma_by_name(entries, n);
    if n > 0 {
        law_entries_are_listed_by_name(entries, n - 1);
        let order = by_name(entries, n - 1);
        let name = entries[n - 1].0@;
        lemma_place(entries, order, name, 0);
        let at = place_for(entries, order, name, 0);
        let all = by_name(entries, n);
        let last = (n - 1) as usize;
        assert(all == order.insert(at, last));
        assert forall|i: int, j: int| 0 <= i < j < n implies !name_before(
            entries[(#[trigger] all[j]) as int].0@,
            entries[(#[trigger] all[i]) as int].0@,
            0,
        ) by {
            let from_j = if j < at {
                j
            } else {
                j - 1
            };
            let from_i = if i < at {
                i
            } else {
                i - 1
            };
            if j == at {
                assert(all[i] == order[i]);
            } else if i == at {
                assert(all[j] == order[j - 1]);
                let other = entries[order[j - 1] as int].0@;
                let first = entries[order[at] as int].0@;
                if name_before(other, name, 0) {
                    if j - 1 > at {
                        lemma_transitive(other, name, first, 0);
                        assert(!name_before(
                            entries[order[j - 1] as int].0@,
                            entries[order[at] as int].0@,
                            0,
                        ));
                    } else {
                        lemma_asymmetric(name, first, 0);
                    }
                }
            } else {
                assert(all[j] == order[from_j] && all[i] == order[from_i]);
            }
        }
        assert forall|k: int| 0 <= k < n implies all.contains(#[trigger] (k as usize)) by {
            if k == n - 1 {
                assert(all[at] == last);
            } else {
                assert(order.contains(k as usize));
                let x = choose|x: int| 0 <= x < order.len() && order[x] == k as usize;
                if x < at {
                    assert(all[x] == order[x]);
                } else {
                    assert(all[x + 1] == order[x]);
                }
            }
        }
    }
}

/// A path goes on to what is under it with one slash, whether it ends with it or not.
pub proof fn law_one_slash_goes_down(path: Seq<char>, name: Seq<char>)
    requires
        path.len() > 0,
    ensures
        path.last() != '/' ==> under(path, name) == under(path.push('/'), name),
        under(path.push('/'), name) == path + "/"@ + name,
        path.last() == '/' ==> under(path, name) == path + name,
        under(Seq::empty(), name) == name,
{
    reveal_strlit("/");
    assert(path.push('/') =~= path + "/"@);
    assert(Seq::<char>::empty() + name =~= name);
}

// ------------------------------------------------------------------------
// Sizes
// ------------------------------------------------------------------------

proof fn lemma_size_of_start(
    a: Seq<(String, Node)>,
    b: Seq<(String, Node)>,
    n: int,
    depth: int,
)
    requires
        0 <= n <= a.len(),
        n <= b.len(),
        forall|i: int| 0 <= i < n ==> #[trigger] a[i] == b[i],
    ensures
        dir_size(a, n, depth) == dir_size(b, n, depth),
    decreases n,
{
    if n > 0 {
        lemma_size_of_start(a, b, n - 1, depth);
        assert(a[n - 1] == b[n - 1]);
    }
}

/// The entries of two lists are as large as those of each, and the order in which they come is
/// nothing to their size.
pub proof fn law_sizes_add_up(
    a: Seq<(String, Node)>,
    b: Seq<(String, Node)>,
    depth: int,
)
    ensures
        dir_size(a + b, (a + b).len() as int, depth) == dir_size(a, a.len() as int, depth)
            + dir_size(b, b.len() as int, depth),
    decreases b.len(),
{
    let both = a + b;
    if b.len() == 0 {
        assert(both =~= a);
    } else {
        let start = b.drop_last();
        law_sizes_add_up(a, start, depth);
        lemma_size_of_start(both, a + start, both.len() - 1, depth);
        lemma_size_of_start(b, start, b.len() - 1, depth);
        assert(both[both.len() - 1] == b[b.len() - 1]);
    }
}

/// A file and a link count with their bytes, a directory with what is in it, as deep as sizes
/// are walked.
pub proof fn law_what_an_entry_counts(name: String, node: Node, depth: int)
    requires
        0 <= depth < SIZE_MAX_DEPTH,
    ensures
        node matches Node::File { bytes, text } ==> dir_size(seq![(name, node)], 1, depth)
            == bytes,
        node matches Node::Link { bytes } ==> dir_size(seq![(name, node)], 1, depth) == bytes,
        node matches Node::Dir(sub) ==> dir_size(seq![(name, node)], 1, depth) == (if depth + 1
            < SIZE_MAX_DEPTH {
            dir_size(sub@, sub@.len() as int, depth + 1)
        } else {
            0
        }),
{
    let entries = seq![(name, node)];
    assert(dir_size(entries, 0, depth) == 0);
    assert(entries[0].1 == node);
}

// ------------------------------------------------------------------------
// Lines
// ------------------------------------------------------------------------

proof fn lemma_line_stop_within(line: Seq<char>, text: Seq<char>, i: int)
    requires
        0 <= i <= line.len() < text.len(),
        forall|x: int| 0 <= x < line.len() ==> #[trigger] text[x] == line[x] && line[x] != '\n',
        text[line.len() as int] == '\n',
    ensures
        line_stop(text, i) == line.len(),
    decreases line.len() - i,
{
    if i < line.len() {
        assert(text[i] == line[i]);
        lemma_line_stop_within(line, text, i + 1);
    }
}

proof fn lemma_line_stop_moved(a: Seq<char>, b: Seq<char>, i: int)
    requires
        0 <= i <= b.len(),
    ensures
        line_stop(a + b, a.len() + i) == a.len() + line_stop(b, i),
    decreases b.len() - i,
{
    if i < b.len() && b[i] != '\n' {
        assert((a + b)[a.len() + i] == b[i]);
        lemma_line_stop_moved(a, b, i + 1);
    } else if i < b.len() {
        assert((a + b)[a.len() + i] == b[i]);
    }
}

proof fn lemma_found_moved(
    a: Seq<char>,
    b: Seq<char>,
    i: int,
    number: int,
    path: Seq<char>,
    needle: Seq<char>,
    found: FoundView,
)
    requires
        0 <= i <= b.len(),
    ensures
        file_found(a + b, a.len() + i, number, path, needle, found) == file_found(
            b,
            i,
            number,
            path,
            needle,
            found,
        ),
    decreases b.len() - i,
{
    let both = a + b;
    if i < b.len() {
        let at = a.len() + i;
        lemma_line_stop(b, i);
        lemma_line_stop(both, at);
        lemma_line_stop_moved(a, b, i);
        let stop = line_stop(b, i);
        assert(line_stop(both, at) == a.len() + stop);
        assert(line_next(both, at) == a.len() + line_next(b, i));
        assert(both.subrange(at, a.len() + stop) =~= b.subrange(i, stop));
        if stop > i {
            assert(both[a.len() + stop - 1] == b[stop - 1]);
            assert(both.subrange(at, a.len() + stop - 1) =~= b.subrange(i, stop - 1));
        }
        let line = line_at(b, i);
        assert(line_at(both, at) == line);
        let more = FoundView { hits: found.hits.push((number, path, kept_line(line))), ..found };
        lemma_found_moved(a, b, line_next(b, i), number + 1, path, needle, found);
        lemma_found_moved(a, b, line_next(b, i), number + 1, path, needle, more);
    }
}

/// A line of a file is found by its number when it holds what is looked for, whatever its
/// case, and the lines after it count on from there.
pub proof fn law_lines_are_told_by_their_numbers(
    line: Seq<char>,
    rest: Seq<char>,
    number: int,
    path: Seq<char>,
    needle: Seq<char>,
    found: FoundView,
)
    requires
        forall|i: int| 0 <= i < line.len() ==> #[trigger] line[i] != '\n',
        line.len() > 0 ==> line.last() != '\r',
        found.hits.len() < SEARCH_MAX_HITS,
    ensures
        holds(lowered(line), needle) ==> file_found(
            line + "\n"@ + rest,
            0,
            number,
            path,
            needle,
            found,
        ) == file_found(
            rest,
            0,
            number + 1,
            path,
            needle,
            FoundView { hits: found.hits.push((number, path, kept_line(line))), ..found },
        ),
        !holds(lowered(line), needle) ==> file_found(
            line + "\n"@ + rest,
            0,
            number,
            path,
            needle,
            found,
        ) == file_found(rest, 0, number + 1, path, needle, found),
        file_found(line + "\r\n"@ + rest, 0, number, path, needle, found) == file_found(
            line + "\n"@ + rest,
            0,
            number,
            path,
            needle,
            found,
        ),
{
    reveal_strlit("\n");
    reveal_strlit("\r\n");
    let more = FoundView { hits: found.hits.push((number, path, kept_line(line))), ..found };
    let start = line + "\n"@;
    let text = start + rest;
    lemma_line_stop_within(line, text, 0);
    lemma_line_stop(text, 0);
    assert(text.subrange(0, line.len() as int) =~= line);
    assert(line_at(text, 0) == line);
    lemma_found_moved(start, rest, 0, number + 1, path, needle, found);
    lemma_found_moved(start, rest, 0, number + 1, path, needle, more);
    let returned = line + "\r\n"@;
    let other = returned + rest;
    lemma_line_stop_within(line.push('\r'), other, 0);
    lemma_line_stop(other, 0);
    assert(other.subrange(0, line.len() as int) =~= line);
    assert(other[line.len() as int] == '\r');
    assert(line_at(other, 0) == line);
    lemma_found_moved(returned, rest, 0, number + 1, path, needle, found);
    lemma_found_moved(returned, rest, 0, number + 1, path, needle, more);
}

proof fn lemma_stop_of_text(text: Seq<char>, n: int)
    requires
        0 <= n <= text.len(),
    ensures
        0 <= text_stop(text, n) <= n,
        forall|k: int| text_stop(text, n) <= k < n ==> is_white(#[trigger] text[k]),
        text_stop(text, n) > 0 ==> !is_white(text[text_stop(text, n) - 1]),
    decreases n,
{
    if n > 0 && is_white(text[n - 1]) {
        lemma_stop_of_text(text, n - 1);
    }
}

/// Of a line is kept how it starts, up to so many characters: only white space at its end is
/// left out of a shorter one.
pub proof fn law_a_line_is_kept_from_its_start(line: Seq<char>)
    ensures
        ({
            let kept = kept_line(line);
            &&& kept.len() <= SEARCH_MAX_LINE
            &&& kept.len() <= line.len()
            &&& kept == line.take(kept.len() as int)
            &&& kept.len() < SEARCH_MAX_LINE ==> {
                &&& kept.len() > 0 ==> !is_white(kept.last())
                &&& forall|i: int| kept.len() <= i < line.len() ==> is_white(#[trigger] line[i])
            }
        }),
{
    lemma_stop_of_text(line, line.len() as int);
}

// ------------------------------------------------------------------------
// Directories
// ------------------------------------------------------------------------

proof fn lemma_one_entry(
    entry: (String, Node),
    path: Seq<char>,
    needle: Seq<char>,
    depth: int,
    found: FoundView,
)
    requires
        0 <= depth < SEARCH_MAX_DEPTH,
        !found.truncated,
    ensures
        dir_found(seq![entry], path, needle, depth, found) == (match entry.1 {
            Node::Dir(sub) => if skipped_dir(entry.0@) || depth + 1 >= SEARCH_MAX_DEPTH {
                found
            } else {
                dir_found(sub@, under(path, entry.0@), needle, depth + 1, found)
            },
            Node::File { bytes, text } => match text {
                Some(text) => if bytes <= SEARCH_MAX_FILE_BYTES {
                    file_found(text@, 0, 1, under(path, entry.0@), needle, found)
                } else {
                    found
                },
                None => found,
            },
            Node::Link { bytes } => found,
        }),
{
    let entries = seq![entry];
    lemma_by_name(entries, 1);
    let order = by_name(entries, 1);
    assert(order[0] == 0);
    assert(entries[0] == entry);
    let next = match entry.1 {
        Node::Dir(sub) => if skipped_dir(entry.0@) || depth + 1 >= SEARCH_MAX_DEPTH {
            found
        } else {
            dir_found(sub@, under(path, entry.0@), needle, depth + 1, found)
        },
        Node::File { bytes, text } => match text {
            Some(text) => if bytes <= SEARCH_MAX_FILE_BYTES {
                file_found(text@, 0, 1, under(path, entry.0@), needle, found)
            } else {
                found
            },
            None => found,
        },
        Node::Link { bytes } => found,
    };
    assert(entries_found(entries, 1, path, needle, depth, next) == next);
    assert(entries_found(entries, 0, path, needle, depth, found) == next);
}

/// A search reads the texts of files, goes into directories, and does not follow links.
pub proof fn law_a_search_goes_into_directories(
    name: String,
    node: Node,
    path: Seq<char>,
    needle: Seq<char>,
    depth: int,
    found: FoundView,
)
    requires
        0 <= depth < SEARCH_MAX_DEPTH - 1,
        !found.truncated,
        !skipped_dir(name@),
    ensures
        node matches Node::Dir(sub) ==> dir_found(seq![(name, node)], path, needle, depth, found)
            == dir_found(sub@, under(path, name@), needle, depth + 1, found),
        node matches Node::File { bytes, text: Some(text) } ==> bytes <= SEARCH_MAX_FILE_BYTES
            ==> dir_found(seq![(name, node)], path, needle, depth, found) == file_found(
            text@,
            0,
            1,
            under(path, name@),
            needle,
            found,
        ),
        node is Link ==> dir_found(seq![(name, node)], path, needle, depth, found) == found,
{
    lemma_one_entry((name, node), path, needle, depth, found);
}

/// Of two entries the one whose name comes first is gone through first, however they were
/// listed.
#[verifier::spinoff_prover]
pub proof fn law_entries_are_gone_through_by_name(
    x: (String, Node),
    y: (String, Node),
    path: Seq<char>,
    needle: Seq<char>,
    depth: int,
    found: FoundView,
)
    requires
        0 <= depth < SEARCH_MAX_DEPTH,
        name_before(x.0@, y.0@, 0),
    ensures
        dir_found(seq![x, y], path, needle, depth, found) == dir_found(
            seq![y, x],
            path,
            needle,
            depth,
            found,
        ),
        dir_found(seq![x, y], path, needle, depth, found) == dir_found(
            seq![y],
            path,
            needle,
            depth,
            dir_found(seq![x], path, needle, depth, found),
        ),
{
    lemma_asymmetric(x.0@, y.0@, 0);
    let a = seq![x, y];
    let b = seq![y, x];
    assert(by_name(a, 0).len() == 0);
    assert(by_name(b, 0).len() == 0);
    lemma_by_name(a, 1);
    lemma_by_name(b, 1);
    assert(by_name(a, 1)[0] == 0);
    assert(by_name(b, 1)[0] == 0);
    let ones = by_name(a, 1);
    assert(place_for(a, ones, y.0@, 1) == 1);
    assert(place_for(a, ones, y.0@, 0) == 1);
    assert(by_name(a, 2) == ones.insert(1, 1usize));
    assert(by_name(a, 2)[0] == 0 && by_name(a, 2)[1] == 1);
    let others = by_name(b, 1);
    assert(place_for(b, others, x.0@, 0) == 0);
    assert(by_name(b, 2) == others.insert(0, 1usize));
    assert(by_name(b, 2)[0] == 1 && by_name(b, 2)[1] == 0);
    if !found.truncated {
        lemma_one_entry(x, path, needle, depth, found);
        let next = dir_found(seq![x], path, needle, depth, found);
        assert(a[0] == x && b[1] == x && a[1] == y && b[0] == y);
        assert(entries_found(a, 1, path, needle, depth, next) == dir_found(
            a,
            path,
            needle,
            depth,
            found,
        ));
        assert(entries_found(b, 1, path, needle, depth, next) == dir_found(
            b,
            path,
            needle,
            depth,
            found,
        ));
        if !next.truncated {
            lemma_one_entry(y, path, needle, depth, next);
            let end = dir_found(seq![y], path, needle, depth, next);
            assert(entries_found(a, 2, path, needle, depth, end) == end);
            assert(entries_found(b, 2, path, needle, depth, end) == end);
        }
    }
}

} // verus!
