//! What lists of lines show: which lines match what is typed, in what order, and which blocks
//! and directories come next.

use vstd::prelude::*;
use crate::app::palette::{recent_dirs, remembered, texts_without};
use crate::navigation::quick_select::{next_offset, prev_offset};
use crate::palette::{fuzzy, lemma_matching, matching, same_letter, EntryView, PaletteView};
use crate::session::BlockView;

verus! {

/// Whether two characters are one letter, in either case, or the same character.
pub open spec fn same_key(a: char, b: char) -> bool {
    ||| a == b
    ||| 'a' <= a <= 'z' && b as int + 32 == a as int
    ||| 'A' <= a <= 'Z' && a as int + 32 == b as int
}

proof fn lemma_same_key(a: char, b: char)
    ensures
        same_letter(a, b) == same_key(a, b),
{
}

/// Whether the characters of `query` from `i` on stand in `label` at the places `p`, one after
/// the other and none before `j`.
pub open spec fn stand_at(query: Seq<char>, i: int, label: Seq<char>, j: int, p: Seq<int>) -> bool {
    &&& p.len() == query.len()
    &&& forall|k: int|
        i <= k < query.len() ==> j <= #[trigger] p[k] < label.len() && same_key(
            query[k],
            label[p[k]],
        )
    &&& forall|k: int, l: int| i <= k < l < query.len() ==> #[trigger] p[k] < #[trigger] p[l]
}

proof fn lemma_places(query: Seq<char>, i: int, label: Seq<char>, j: int) -> (p: Seq<int>)
    requires
        0 <= i <= query.len(),
        0 <= j <= label.len(),
        fuzzy(query, i, label, j),
    ensures
        stand_at(query, i, label, j, p),
    decreases label.len() - j,
{
    if i == query.len() {
        Seq::new(query.len(), |k: int| 0int)
    } else {
        lemma_same_key(query[i], label[j]);
        if same_letter(query[i], label[j]) {
            let rest = lemma_places(query, i + 1, label, j + 1);
            let p = rest.update(i, j);
            assert forall|k: int| i <= k < query.len() implies j <= #[trigger] p[k] < label.len()
                && same_key(query[k], label[p[k]]) by {
                if k > i {
                    assert(rest[k] == p[k]);
                }
            }
            assert forall|k: int, l: int| i <= k < l < query.len() implies #[trigger] p[k]
                < #[trigger] p[l] by {
                assert(rest[l] == p[l]);
                if k > i {
                    assert(rest[k] == p[k]);
                }
            }
            p
        } else {
            let p = lemma_places(query, i, label, j + 1);
            assert forall|k: int| i <= k < query.len() implies j <= #[trigger] p[k] < label.len()
                && same_key(query[k], label[p[k]]) by {
                assert(j + 1 <= p[k]);
            }
            p
        }
    }
}

proof fn lemma_stand(query: Seq<char>, i: int, label: Seq<char>, j: int, p: Seq<int>)
    requires
        0 <= i <= query.len(),
        0 <= j <= label.len(),
        stand_at(query, i, label, j, p),
    ensures
        fuzzy(query, i, label, j),
    decreases label.len() - j,
{
    if i < query.len() {
        assert(j <= p[i] < label.len());
        lemma_same_key(query[i], label[j]);
        if same_letter(query[i], label[j]) {
            assert forall|k: int| i + 1 <= k < query.len() implies j + 1 <= #[trigger] p[k]
                < label.len() && same_key(query[k], label[p[k]]) by {
                assert(p[i] < p[k]);
            }
            lemma_stand(query, i + 1, label, j + 1, p);
        } else {
            assert(p[i] != j);
            assert forall|k: int| i <= k < query.len() implies j + 1 <= #[trigger] p[k]
                < label.len() && same_key(query[k], label[p[k]]) by {
                if k > i {
                    assert(p[i] < p[k]);
                }
            }
            lemma_stand(query, i, label, j + 1, p);
        }
    }
}

/// A line matches when what is typed can be picked out of it from left to right, whatever the
/// case of letters, and only then.
pub proof fn law_a_line_matches_what_can_be_picked_out_of_it(query: Seq<char>, label: Seq<char>)
    ensures
        fuzzy(query, 0, label, 0) == exists|p: Seq<int>| stand_at(query, 0, label, 0, p),
{
    if fuzzy(query, 0, label, 0) {
        let p = lemma_places(query, 0, label, 0);
        assert(stand_at(query, 0, label, 0, p));
    }
    if exists|p: Seq<int>| stand_at(query, 0, label, 0, p) {
        let p = choose|p: Seq<int>| stand_at(query, 0, label, 0, p);
        lemma_stand(query, 0, label, 0, p);
    }
}

proof fn lemma_all_matching(entries: Seq<EntryView>, query: Seq<char>, n: int, i: int)
    requires
        0 <= i < n <= entries.len(),
        entries.len() <= usize::MAX,
    ensures
        matching(entries, query, n).contains(i as usize) == fuzzy(query, 0, entries[i].label, 0),
    decreases n,
{
    let all = matching(entries, query, n);
    let rest = matching(entries, query, n - 1);
    lemma_matching(entries, query, n - 1);
    if i == n - 1 {
        if fuzzy(query, 0, entries[i].label, 0) {
            assert(all[rest.len() as int] == i as usize);
        } else if all.contains(i as usize) {
            let k = choose|k: int| 0 <= k < all.len() && all[k] == i as usize;
            assert(rest[k] < n - 1);
        }
    } else {
        lemma_all_matching(entries, query, n - 1, i);
        if rest.contains(i as usize) {
            let k = choose|k: int| 0 <= k < rest.len() && rest[k] == i as usize;
            assert(all[k] == i as usize);
        }
        if all.contains(i as usize) {
            let k = choose|k: int| 0 <= k < all.len() && all[k] == i as usize;
            assert(rest[k] == i as usize);
        }
    }
}

/// A list shows the lines that match what is typed, all of them and no others, in the order
/// they are in. The first is chosen.
pub proof fn law_a_list_shows_the_lines_that_match(palette: PaletteView, c: char, i: int)
    requires
        0 <= i < palette.entries.len(),
        palette.entries.len() <= usize::MAX,
    ensures
        ({
            let after = palette.typed(c);
            &&& after.query == palette.query.push(c)
            &&& after.selected == 0
            &&& after.filtered.contains(i as usize) == exists|p: Seq<int>|
                stand_at(palette.query.push(c), 0, palette.entries[i].label, 0, p)
            &&& forall|a: int, b: int|
                0 <= a < b < after.filtered.len() ==> #[trigger] after.filtered[a]
                    < #[trigger] after.filtered[b]
        }),
{
    let query = palette.query.push(c);
    let n = palette.entries.len() as int;
    lemma_all_matching(palette.entries, query, n, i);
    lemma_matching(palette.entries, query, n);
    law_a_line_matches_what_can_be_picked_out_of_it(query, palette.entries[i].label);
}

/// The choice goes one line up or down, within the lines that are shown.
pub proof fn law_the_choice_goes_by_one_line(palette: PaletteView)
    requires
        palette.filtered.len() <= usize::MAX,
    ensures
        palette.selected > 0 ==> palette.moved_up().selected == palette.selected - 1,
        palette.selected == 0 ==> palette.moved_up() == palette,
        palette.selected + 1 < palette.filtered.len() ==> palette.moved_down().selected
            == palette.selected + 1,
        palette.selected + 1 >= palette.filtered.len() ==> palette.moved_down() == palette,
        palette.moved_down().filtered == palette.filtered,
        palette.moved_up().filtered == palette.filtered,
{
}

/// What was typed on earlier occasions is recalled from the last one back, and again forward to
/// where nothing is typed.
pub proof fn law_older_queries_are_recalled_in_turn(palette: PaletteView)
    requires
        palette.wf(),
        palette.history.len() <= usize::MAX,
    ensures
        palette.history_at is None && palette.history.len() > 0 ==> palette.recalled_older().query
            == palette.history[0],
        palette.history_at matches Some(at) ==> {
            &&& at + 1 < palette.history.len() ==> palette.recalled_older().query
                == palette.history[at + 1]
            &&& at > 0 ==> palette.recalled_newer().query == palette.history[at - 1]
            &&& at == 0 ==> palette.recalled_newer().query.len() == 0
        },
{
}

proof fn lemma_next_offset(offsets: Seq<usize>, current: int, i: int)
    requires
        0 <= i <= offsets.len(),
        offsets.len() > 0,
        forall|k: int| 0 <= k < i ==> #[trigger] offsets[k] <= current,
        forall|a: int, b: int|
            0 <= a < b < offsets.len() ==> #[trigger] offsets[a] <= #[trigger] offsets[b],
    ensures
        ({
            let to = next_offset(offsets, current, i);
            &&& exists|k: int| 0 <= k < offsets.len() && #[trigger] offsets[k] == to
            &&& forall|k: int|
                0 <= k < offsets.len() && #[trigger] offsets[k] > current ==> current < to
                    <= offsets[k]
            &&& (forall|k: int| 0 <= k < offsets.len() ==> #[trigger] offsets[k] <= current) ==> to
                == offsets.last()
        }),
    decreases offsets.len() - i,
{
    if i < offsets.len() && offsets[i] <= current {
        lemma_next_offset(offsets, current, i + 1);
    } else if i == offsets.len() {
        assert(offsets[offsets.len() - 1] == offsets.last());
    }
}

proof fn lemma_prev_offset(offsets: Seq<usize>, current: int, n: int)
    requires
        0 <= n <= offsets.len(),
        forall|k: int| n <= k < offsets.len() ==> #[trigger] offsets[k] >= current,
        forall|a: int, b: int|
            0 <= a < b < offsets.len() ==> #[trigger] offsets[a] <= #[trigger] offsets[b],
    ensures
        ({
            let to = prev_offset(offsets, current, n);
            &&& forall|k: int|
                0 <= k < offsets.len() && #[trigger] offsets[k] < current ==> offsets[k] <= to
                    < current
            &&& (forall|k: int| 0 <= k < offsets.len() ==> #[trigger] offsets[k] >= current) ==> to
                == 0
        }),
    decreases n,
{
    if n > 0 && offsets[n - 1] >= current {
        lemma_prev_offset(offsets, current, n - 1);
    }
}

/// From block to block: the next one is the nearest that starts below, or the last; the previous
/// one is the nearest that starts above, or the top of the buffer.
pub proof fn law_blocks_are_gone_to_in_order(offsets: Seq<usize>, current: int)
    requires
        offsets.len() > 0,
        forall|a: int, b: int|
            0 <= a < b < offsets.len() ==> #[trigger] offsets[a] <= #[trigger] offsets[b],
    ensures
        ({
            let on = next_offset(offsets, current, 0);
            let back = prev_offset(offsets, current, offsets.len() as int);
            &&& forall|k: int|
                0 <= k < offsets.len() && #[trigger] offsets[k] > current ==> current < on
                    <= offsets[k]
            &&& (forall|k: int| 0 <= k < offsets.len() ==> #[trigger] offsets[k] <= current) ==> on
                == offsets.last()
            &&& forall|k: int|
                0 <= k < offsets.len() && #[trigger] offsets[k] < current ==> offsets[k] <= back
                    < current
            &&& (forall|k: int| 0 <= k < offsets.len() ==> #[trigger] offsets[k] >= current)
                ==> back == 0
        }),
{
    lemma_next_offset(offsets, current, 0);
    lemma_prev_offset(offsets, current, offsets.len() as int);
}

/// The directories that commands ran in are listed once each, all of them, with that of the
/// latest command first.
pub proof fn law_recent_directories_are_listed_once(blocks: Seq<BlockView>, n: int)
    requires
        0 <= n <= blocks.len(),
    ensures
        recent_dirs(blocks, n).no_duplicates(),
        forall|k: int|
            blocks.len() - n <= k < blocks.len() && (#[trigger] blocks[k]).cwd is Some
                ==> recent_dirs(blocks, n).contains(blocks[k].cwd->0),
        forall|i: int|
            0 <= i < recent_dirs(blocks, n).len() ==> exists|k: int|
                blocks.len() - n <= k < blocks.len() && (#[trigger] blocks[k]).cwd == Some(
                    #[trigger] recent_dirs(blocks, n)[i],
                ),
        n > 0 && blocks.last().cwd is Some ==> recent_dirs(blocks, n).len() > 0 && recent_dirs(
            blocks,
            n,
        )[0] == blocks.last().cwd->0,
    decreases n,
{
    if n > 0 {
        law_recent_directories_are_listed_once(blocks, n - 1);
        let later = recent_dirs(blocks, n - 1);
        let all = recent_dirs(blocks, n);
        let at = blocks.len() - n;
        assert forall|k: int|
            blocks.len() - n <= k < blocks.len() && (#[trigger] blocks[k]).cwd is Some implies
            all.contains(blocks[k].cwd->0) by {
            if k > at {
                let d = blocks[k].cwd->0;
                let i = choose|i: int| 0 <= i < later.len() && later[i] == d;
                assert(all[i] == d);
            } else if !later.contains(blocks[at].cwd->0) {
                assert(all[later.len() as int] == blocks[at].cwd->0);
            }
        }
        assert forall|i: int| 0 <= i < all.len() implies exists|k: int|
            blocks.len() - n <= k < blocks.len() && (#[trigger] blocks[k]).cwd == Some(
                #[trigger] all[i],
            ) by {
            if i < later.len() {
                assert(all[i] == later[i]);
                let k = choose|k: int|
                    blocks.len() - (n - 1) <= k < blocks.len() && (#[trigger] blocks[k]).cwd
                        == Some(later[i]);
                assert(blocks[k].cwd == Some(all[i]));
            } else {
                assert(blocks[at].cwd == Some(all[i]));
            }
        }
        if n == 1 {
            assert(later.len() == 0);
        } else if blocks.last().cwd is Some {
            assert(all[0] == later[0]);
        }
    }
}

proof fn lemma_texts_without(history: Seq<Seq<char>>, text: Seq<char>)
    ensures
        texts_without(history, text) == history.filter(|t: Seq<char>| t != text),
    decreases history.len(),
{
    reveal(Seq::filter);
    if history.len() > 0 {
        lemma_texts_without(history.drop_last(), text);
    }
}

/// What is typed comes first among what was typed before, and is there once; the rest keeps its
/// order, as far as there is room.
pub proof fn law_what_was_typed_last_comes_first(history: Seq<Seq<char>>, text: Seq<char>)
    ensures
        ({
            let all = seq![text] + history.filter(|t: Seq<char>| t != text);
            let kept = remembered(history, text);
            &&& kept.len() > 0 && kept[0] == text
            &&& kept.len() <= 100
            &&& all.len() <= 100 ==> kept == all
            &&& all.len() > 100 ==> kept == all.take(100)
        }),
{
    lemma_texts_without(history, text);
    let all = seq![text] + history.filter(|t: Seq<char>| t != text);
    assert(all.take(all.len() as int) =~= all);
}

} // verus!
