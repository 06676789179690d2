//! Which blocks are labelled, and where a jump to one leaves the view.

use vstd::prelude::*;
use crate::grid::Grid;
use crate::navigation::quick_select::{
    block_index, find_label, in_view, jump_lands, jump_offset, labelled_rows,
    law_block_containing_is_the_nearest, CellLabel, LABEL_COUNT,
};

verus! {

broadcast use {Grid::lemma_bounds, Grid::lemma_scrolled};

/// A label stands on each row of the view on which a block starts, and on no other, as far as
/// there are labels.
pub proof fn law_every_block_in_view_is_labelled(grid: Grid, offsets: Seq<usize>, n: int, row: int)
    requires
        0 <= n <= offsets.len(),
    ensures
        ({
            let rows = labelled_rows(grid, offsets, n);
            let starts = 0 <= row < grid.height() && exists|k: int|
                0 <= k < n && #[trigger] offsets[k] == grid.top() + row;
            &&& rows.len() <= LABEL_COUNT && rows.len() <= n
            &&& rows.contains(row) ==> starts
            &&& starts && rows.len() < LABEL_COUNT ==> rows.contains(row)
        }),
    decreases n,
{
    let rows = labelled_rows(grid, offsets, n);
    if n > 0 {
        law_every_block_in_view_is_labelled(grid, offsets, n - 1, row);
        let before = labelled_rows(grid, offsets, n - 1);
        let here = offsets[n - 1] - grid.top();
        if in_view(grid, offsets[n - 1] as int) && before.len() < LABEL_COUNT {
            assert(rows == before.push(here));
            if rows.contains(row) && row != here {
                let x = choose|x: int| 0 <= x < rows.len() && rows[x] == row;
                assert(before[x] == row);
                assert(before.contains(row));
            }
            if before.contains(row) {
                let x = choose|x: int| 0 <= x < before.len() && before[x] == row;
                assert(rows[x] == row);
            }
            assert(rows[before.len() as int] == here);
        } else {
            assert(rows == before);
        }
        if rows.contains(row) {
            if before.contains(row) {
                let k = choose|k: int| 0 <= k < n - 1 && #[trigger] offsets[k] == grid.top() + row;
                assert(offsets[k] == grid.top() + row);
            } else {
                assert(offsets[n - 1] == grid.top() + row);
            }
        }
        if exists|k: int| 0 <= k < n && #[trigger] offsets[k] == grid.top() + row {
            let k = choose|k: int| 0 <= k < n && #[trigger] offsets[k] == grid.top() + row;
            if k < n - 1 {
                assert(offsets[k] == grid.top() + row);
            }
        }
    }
}

/// A letter picks the label that carries it, and nothing when no label does.
pub proof fn law_a_letter_picks_its_label(labels: Seq<CellLabel>, letter: char, i: int)
    requires
        0 <= i <= labels.len(),
    ensures
        match find_label(labels, letter, i) {
            Some(label) => label.label == letter && exists|k: int|
                {
                    &&& i <= k < labels.len()
                    &&& #[trigger] labels[k] == label
                    &&& forall|x: int| i <= x < k ==> (#[trigger] labels[x]).label != letter
                },
            None => forall|k: int| i <= k < labels.len() ==> (#[trigger] labels[k]).label
                != letter,
        },
    decreases labels.len() - i,
{
    if i < labels.len() {
        if labels[i].label != letter {
            law_a_letter_picks_its_label(labels, letter, i + 1);
            if let Some(label) = find_label(labels, letter, i + 1) {
                let k = choose|k: int|
                    {
                        &&& i + 1 <= k < labels.len()
                        &&& #[trigger] labels[k] == label
                        &&& forall|x: int| i + 1 <= x < k ==> (#[trigger] labels[x]).label != letter
                    };
                assert(labels[k] == label);
            }
        } else {
            assert(labels[i].label == letter);
        }
    }
}

/// A jump goes to the block that a row is in, where there is one: the one that starts last at
/// the row or above it. One above the screen is then on the first row of the view.
pub proof fn law_a_jump_puts_the_block_first(grid: Grid, offsets: Seq<usize>, row: int, i: int)
    requires
        grid.wf(),
        forall|a: int, b: int| 0 <= a < b < offsets.len() ==> offsets[a] < offsets[b],
    ensures
        jump_lands(grid, offsets, row) == exists|k: int|
            0 <= k < offsets.len() && #[trigger] offsets[k] <= grid.absolute(row),
        !jump_lands(grid, offsets, row) ==> jump_offset(grid, offsets, row) == grid.offset(),
        0 <= i < offsets.len() && offsets[i] <= grid.absolute(row) && (i + 1 < offsets.len()
            ==> offsets[i + 1] > grid.absolute(row)) && 0 < offsets[i] < grid.history()
            ==> grid.history() - jump_offset(grid, offsets, row) == offsets[i],
{
    let target = grid.absolute(row);
    let n = offsets.len() as int;
    law_block_containing_is_the_nearest(offsets, target, n);
    let at = block_index(offsets, target, n);
    if at >= 0 {
        assert(offsets[at] <= target);
    }
    if 0 <= i < n && offsets[i] <= target && (i + 1 < n ==> offsets[i + 1] > target) {
        assert(at >= i);
        if at > i {
            assert(offsets[i + 1] <= offsets[at]);
        }
    }
}

} // verus!
