//! One-letter labels on the command blocks in view.

use vstd::prelude::*;
use crate::grid::Grid;

verus! {

broadcast use {Grid::lemma_bounds, Grid::lemma_scrolled};

/// How many labels there are.
pub const LABEL_COUNT: usize = 26;

/// The labels in the order they are given out, the home row first.
pub open spec fn label_order() -> Seq<char> {
    "asdfghjklqwertyuiopzxcvbnm"@
}

/// Label `i` of the order, when there is one.
pub fn nth_label(i: usize) -> (r: Option<char>)
    ensures
        r == (if i < label_order().len() {
            Some(label_order()[i as int])
        } else {
            None
        }),
        label_order().len() == LABEL_COUNT,
{
    let labels = crate::text::chars_of("asdfghjklqwertyuiopzxcvbnm");
    proof {
        reveal_strlit("asdfghjklqwertyuiopzxcvbnm");
    }
    if i < labels.len() {
        Some(labels[i])
    } else {
        None
    }
}

/// No label is given out twice.
pub proof fn law_labels_are_distinct(i: int, j: int)
    requires
        0 <= i < j < label_order().len(),
    ensures
        label_order()[i] != label_order()[j],
{
    reveal_strlit("asdfghjklqwertyuiopzxcvbnm");
}

/// A label on a cell of the view.
#[derive(Clone, Copy, Debug, PartialEq, Eq, Structural)]
pub struct CellLabel {
    pub col: usize,
    pub label: char,
    pub row: usize,
}

/// The index of the last offset at or before `target`, or -1.
pub open spec fn block_index(offsets: Seq<usize>, target: int, n: int) -> int
    decreases n,
{
    if n <= 0 {
        -1
    } else if offsets[n - 1] <= target {
        n - 1
    } else {
        block_index(offsets, target, n - 1)
    }
}

/// Which of the ascending `offsets` is the last at or before `target`.
pub fn block_at(offsets: &Vec<usize>, target: usize) -> (r: Option<usize>)
    ensures
        match r {
            Some(i) => {
                &&& i < offsets@.len()
                &&& block_index(offsets@, target as int, offsets@.len() as int) == i
                &&& offsets@[i as int] <= target
            },
            None => block_index(offsets@, target as int, offsets@.len() as int) == -1,
        },
{
    let mut n: usize = offsets.len();
    while n > 0
        invariant
            n <= offsets@.len(),
            block_index(offsets@, target as int, offsets@.len() as int) == block_index(
                offsets@,
                target as int,
                n as int,
            ),
        decreases n,
    {
        if offsets[n - 1] <= target {
            return Some(n - 1);
        }
        n = n - 1;
    }
    None
}

/// The nearest block start at or before `target`, or `None` when `target` comes
/// before every block. `offsets` are ascending.
pub fn block_containing(offsets: &Vec<usize>, target: usize) -> (r: Option<usize>)
    ensures
        ({
            let i = block_index(offsets@, target as int, offsets@.len() as int);
            r == (if i < 0 {
                None
            } else {
                Some(offsets@[i])
            })
        }),
{
    match block_at(offsets, target) {
        Some(i) => Some(offsets[i]),
        None => None,
    }
}

/// The block that contains a row is the nearest: no other block starts between it
/// and the row.
pub proof fn law_block_containing_is_the_nearest(offsets: Seq<usize>, target: int, n: int)
    requires
        0 <= n <= offsets.len(),
        forall|a: int, b: int| 0 <= a <= b < offsets.len() ==> offsets[a] <= offsets[b],
    ensures
        ({
            let i = block_index(offsets, target, n);
            &&& -1 <= i < n
            &&& i >= 0 ==> offsets[i] <= target
            &&& forall|k: int| i < k < n ==> #[trigger] offsets[k] > target
        }),
    decreases n,
{
    if n > 0 && offsets[n - 1] > target {
        law_block_containing_is_the_nearest(offsets, target, n - 1);
    }
}

/// Whether the block that starts at absolute row `row` starts within the view.
pub open spec fn in_view(grid: Grid, row: int) -> bool {
    grid.top() <= row < grid.top() + grid.height()
}

/// The rows of the view on which the first `n` blocks start, as far as the labels
/// go.
pub open spec fn labelled_rows(grid: Grid, offsets: Seq<usize>, n: int) -> Seq<int>
    decreases n,
{
    if n <= 0 {
        Seq::empty()
    } else {
        let before = labelled_rows(grid, offsets, n - 1);
        if in_view(grid, offsets[n - 1] as int) && before.len() < LABEL_COUNT {
            before.push(offsets[n - 1] - grid.top())
        } else {
            before
        }
    }
}

/// A label at the start of row `row`.
pub open spec fn label_on(row: int, label: char) -> CellLabel {
    CellLabel { col: 0, label, row: row as usize }
}

/// The labels, one for each row, in label order.
pub open spec fn labels_on(rows: Seq<int>) -> Seq<CellLabel> {
    Seq::new(rows.len(), |i: int| label_on(rows[i], label_order()[i]))
}

/// A label at the start of row `row`.
fn row_label(row: usize, label: char) -> (r: CellLabel)
    ensures
        r == label_on(row as int, label),
{
    CellLabel { col: 0, label, row }
}

/// A label on the first row of each block in view, or `None` when there are none.
pub fn generate_quick_labels(grid: &Grid, offsets: &Vec<usize>) -> (r: Option<Vec<CellLabel>>)
    requires
        grid.wf(),
    ensures
        ({
            let rows = labelled_rows(*grid, offsets@, offsets@.len() as int);
            match r {
                Some(labels) => rows.len() > 0 && labels@ == labels_on(rows),
                None => rows.len() == 0,
            }
        }),
{
    let start: usize = grid.scrollback_len() - grid.scroll_offset();
    let rows: usize = grid.rows();
    let mut labels: Vec<CellLabel> = Vec::new();
    let mut i: usize = 0;
    let ghost mut placed: Seq<int> = Seq::empty();
    assert(labels@ =~= labels_on(placed));
    while i < offsets.len()
        invariant
            grid.wf(),
            start == grid.top(),
            rows == grid.height(),
            i <= offsets@.len(),
            placed == labelled_rows(*grid, offsets@, i as int),
            labels@.len() == placed.len(),
            labels@.len() <= LABEL_COUNT,
            labels@ == labels_on(placed),
        decreases offsets@.len() - i,
    {
        let row: usize = offsets[i];
        if row >= start && row - start < rows {
            if let Some(label) = nth_label(labels.len()) {
                let ghost before = labels@;
                labels.push(row_label(row - start, label));
                proof {
                    assert(labels@ =~= before.push(
                        label_on(row - start, label),
                    ));
                    assert(labels_on(placed.push(row - start)) =~= labels_on(placed).push(
                        label_on(row - start, label),
                    ));
                    placed = placed.push(row - start);
                }
            }
        }
        i = i + 1;
    }
    if labels.len() == 0 {
        None
    } else {
        Some(labels)
    }
}

/// The first label that carries `label`.
pub open spec fn find_label(labels: Seq<CellLabel>, label: char, i: int) -> Option<CellLabel>
    decreases labels.len() - i,
{
    if i < 0 || i >= labels.len() {
        None
    } else if labels[i].label == label {
        Some(labels[i])
    } else {
        find_label(labels, label, i + 1)
    }
}

/// The first label that carries `label`.
pub fn label_named(labels: &Vec<CellLabel>, label: char) -> (r: Option<CellLabel>)
    ensures
        r == find_label(labels@, label, 0),
{
    let mut i: usize = 0;
    while i < labels.len()
        invariant
            i <= labels@.len(),
            find_label(labels@, label, 0) == find_label(labels@, label, i as int),
        decreases labels@.len() - i,
    {
        if labels[i].label == label {
            return Some(labels[i]);
        }
        i = i + 1;
    }
    None
}

/// How far the view is scrolled after a jump to row `row` of it: to the block the
/// row is in, where that is above the screen; a block on the screen, below the
/// cursor, scrolls back as far as it lies below it.
pub open spec fn jump_offset(grid: Grid, offsets: Seq<usize>, row: int) -> int {
    let target = grid.absolute(row);
    let i = block_index(offsets, target, offsets.len() as int);
    if i < 0 {
        grid.offset()
    } else {
        let start = offsets[i] as int;
        if start >= grid.history() {
            if start - grid.history() > grid.cursor_at().0 {
                grid.offset() + (start - grid.history() - grid.cursor_at().0)
            } else {
                grid.offset()
            }
        } else if start > 0 || target > start {
            grid.history() - start
        } else {
            grid.offset()
        }
    }
}

/// Whether a jump to row `row` of the view finds a block.
pub open spec fn jump_lands(grid: Grid, offsets: Seq<usize>, row: int) -> bool {
    block_index(offsets, grid.absolute(row), offsets.len() as int) >= 0
}

/// Scroll to the block that row `row` of the view is in. Returns whether there is
/// one.
pub fn jump_to_block(grid: &mut Grid, offsets: &Vec<usize>, row: usize) -> (r: bool)
    requires
        old(grid).wf(),
    ensures
        final(grid).wf(),
        r == jump_lands(*old(grid), offsets@, row as int),
        *final(grid) == old(grid).scrolled(jump_offset(*old(grid), offsets@, row as int)),
{
    let history: usize = grid.scrollback_len();
    let target: usize = grid.to_absolute_row(row);
    let start: usize = match block_containing(offsets, target) {
        Some(start) => start,
        None => {
            return false;
        },
    };
    proof {
        let i = block_index(offsets@, target as int, offsets@.len() as int);
        lemma_block_index(offsets@, target as int, offsets@.len() as int);
        assert(offsets@[i] <= target);
    }
    if start >= history {
        let live: usize = start - history;
        let cursor_row: usize = grid.cursor().0;
        if live > cursor_row {
            grid.scroll_up_history(live - cursor_row);
        }
    } else if start > 0 || target > start {
        grid.set_scroll_offset(history - start);
    }
    true
}

proof fn lemma_block_index(offsets: Seq<usize>, target: int, n: int)
    requires
        0 <= n <= offsets.len(),
    ensures
        -1 <= block_index(offsets, target, n) < n,
        block_index(offsets, target, n) >= 0 ==> offsets[block_index(offsets, target, n)] <= target,
    decreases n,
{
    if n > 0 && offsets[n - 1] > target {
        lemma_block_index(offsets, target, n - 1);
    }
}

/// Where a step between blocks goes from offset `current`: the next start after
/// it, or the last; the previous start before it, or the top.
pub open spec fn next_offset(offsets: Seq<usize>, current: int, i: int) -> int
    decreases offsets.len() - i,
{
    if i < 0 || i >= offsets.len() {
        if offsets.len() > 0 {
            offsets.last() as int
        } else {
            0
        }
    } else if offsets[i] > current {
        offsets[i] as int
    } else {
        next_offset(offsets, current, i + 1)
    }
}

/// The last start before `current` among the first `n`, or the top.
pub open spec fn prev_offset(offsets: Seq<usize>, current: int, n: int) -> int
    decreases n,
{
    if n <= 0 {
        0
    } else if offsets[n - 1] < current {
        offsets[n - 1] as int
    } else {
        prev_offset(offsets, current, n - 1)
    }
}

/// Where a step between blocks goes, and whether there are any.
pub open spec fn block_step(
    offsets: Seq<usize>,
    current: int,
    nav: crate::input::BlockNav,
) -> Option<int> {
    if offsets.len() == 0 {
        None
    } else {
        Some(
            match nav {
                crate::input::BlockNav::Next => next_offset(offsets, current, 0),
                crate::input::BlockNav::Previous => prev_offset(
                    offsets,
                    current,
                    offsets.len() as int,
                ),
            },
        )
    }
}

/// The offset a step between blocks goes to from `current`.
pub fn step_offset(offsets: &Vec<usize>, current: usize, nav: crate::input::BlockNav) -> (r: Option<
    usize,
>)
    ensures
        match r {
            Some(n) => block_step(offsets@, current as int, nav) == Some(n as int),
            None => block_step(offsets@, current as int, nav) is None,
        },
{
    if offsets.len() == 0 {
        return None;
    }
    match nav {
        crate::input::BlockNav::Next => {
            let mut i: usize = 0;
            while i < offsets.len()
                invariant
                    0 < offsets@.len(),
                    nav == crate::input::BlockNav::Next,
                    i <= offsets@.len(),
                    next_offset(offsets@, current as int, 0) == next_offset(
                        offsets@,
                        current as int,
                        i as int,
                    ),
                decreases offsets@.len() - i,
            {
                if offsets[i] > current {
                    return Some(offsets[i]);
                }
                i = i + 1;
            }
            Some(offsets[offsets.len() - 1])
        },
        crate::input::BlockNav::Previous => {
            let mut n: usize = offsets.len();
            while n > 0
                invariant
                    0 < offsets@.len(),
                    nav == crate::input::BlockNav::Previous,
                    n <= offsets@.len(),
                    prev_offset(offsets@, current as int, offsets@.len() as int) == prev_offset(
                        offsets@,
                        current as int,
                        n as int,
                    ),
                decreases n,
            {
                if offsets[n - 1] < current {
                    return Some(offsets[n - 1]);
                }
                n = n - 1;
            }
            Some(0)
        },
    }
}

} // verus!
