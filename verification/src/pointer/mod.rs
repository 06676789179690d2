//! The pointer: what it presses and drags, what is selected, and what a program
//! that tracks the mouse is told.

pub mod clipboard;
pub mod mouse;

use vstd::prelude::*;
use crate::grid::Grid;
use crate::input::{PaneId, VisualKind};
use crate::text::{greatest, least, max_of, min_of};

verus! {

broadcast use {Grid::lemma_bounds, Grid::lemma_scrolled};

/// Selected cells of a pane, by absolute rows: from the start to the end in reading
/// order, or, as a block, the rectangle between the two.
#[derive(Clone, Copy, Debug, PartialEq, Eq, Structural)]
pub struct Selection {
    pub block: bool,
    pub end_col: usize,
    pub end_row: usize,
    pub pane: PaneId,
    pub start_col: usize,
    pub start_row: usize,
}

/// A Visual selection that has ended: its two ends, by absolute rows, its kind and
/// its pane.
#[derive(Clone, Copy, Debug)]
pub struct LastVisual {
    pub anchor: (usize, usize),
    pub cursor: (usize, usize),
    pub kind: VisualKind,
    pub pane: PaneId,
}

/// What is selected, and how Visual mode came to it.
#[derive(Clone, Copy, Debug)]
pub struct SelectionState {
    /// The last Visual selection that ended.
    pub last_visual: Option<LastVisual>,
    pub span: Option<Selection>,
    /// Where the Visual selection started, by its absolute row, so that it names
    /// the same text however the view scrolls.
    pub visual_anchor: Option<(usize, usize)>,
    pub visual_kind: VisualKind,
}

impl Default for SelectionState {
    fn default() -> (r: Self)
        ensures
            r == (SelectionState {
                last_visual: None,
                span: None,
                visual_anchor: None,
                visual_kind: VisualKind::Char,
            }),
    {
        SelectionState {
            last_visual: None,
            span: None,
            visual_anchor: None,
            visual_kind: VisualKind::Char,
        }
    }
}

/// The cells from `anchor` to `cursor`, both by absolute rows, that a Visual
/// selection of kind `kind` covers.
pub open spec fn visual_span(
    kind: VisualKind,
    pane: PaneId,
    anchor: (usize, usize),
    cursor: (int, usize),
    cols: int,
) -> Selection {
    match kind {
        VisualKind::Line => Selection {
            block: false,
            end_col: (cols - 1) as usize,
            end_row: greatest(anchor.0 as int, cursor.0) as usize,
            pane,
            start_col: 0,
            start_row: least(anchor.0 as int, cursor.0) as usize,
        },
        _ => Selection {
            block: kind == VisualKind::Block,
            end_col: cursor.1,
            end_row: cursor.0 as usize,
            pane,
            start_col: anchor.1,
            start_row: anchor.0,
        },
    }
}

/// The cells that a Visual selection from `anchor`, by its absolute row, to `cursor`
/// in the view covers: anchor to cursor charwise, every column of the rows between
/// them linewise, and the rectangle between them blockwise.
pub fn visual_selection(
    grid: &Grid,
    kind: VisualKind,
    pane: PaneId,
    anchor: (usize, usize),
    cursor: (usize, usize),
) -> (r: Selection)
    requires
        grid.wf(),
    ensures
        r == visual_span(
            kind,
            pane,
            anchor,
            (grid.absolute(cursor.0 as int), cursor.1),
            grid.width(),
        ),
{
    let row: usize = grid.to_absolute_row(cursor.0);
    match kind {
        VisualKind::Line => Selection {
            block: false,
            end_col: grid.cols() - 1,
            end_row: max_of(anchor.0, row),
            pane,
            start_col: 0,
            start_row: min_of(anchor.0, row),
        },
        VisualKind::Block => Selection {
            block: true,
            end_col: cursor.1,
            end_row: row,
            pane,
            start_col: anchor.1,
            start_row: anchor.0,
        },
        VisualKind::Char => Selection {
            block: false,
            end_col: cursor.1,
            end_row: row,
            pane,
            start_col: anchor.1,
            start_row: anchor.0,
        },
    }
}

/// What the pointer is doing.
#[derive(Debug)]
pub struct PointerState {
    /// The link under the pointer.
    pub hovered_url: Option<String>,
    pub mouse_down: bool,
    /// Where the held button went down: the pane, the absolute row and the column.
    pub press_cell: Option<(PaneId, usize, usize)>,
    /// Whose scrollbar is being dragged.
    pub scrollbar_drag: Option<PaneId>,
}

impl Default for PointerState {
    fn default() -> (r: Self)
        ensures
            r.hovered_url is None,
            !r.mouse_down,
            r.press_cell is None,
            r.scrollbar_drag is None,
    {
        PointerState { hovered_url: None, mouse_down: false, press_cell: None, scrollbar_drag: None }
    }
}

impl PointerState {
    /// Where a drag that has moved onto `motion` in `pane` starts selecting: where
    /// the button went down, when that was in the same pane, else `motion`.
    pub fn drag_anchor(&self, pane: PaneId, motion: (usize, usize)) -> (r: (usize, usize))
        ensures
            r == (match self.press_cell {
                Some((pressed, row, col)) if pressed == pane => (row, col),
                _ => motion,
            }),
    {
        match self.press_cell {
            Some((pressed, row, col)) => if pressed == pane {
                (row, col)
            } else {
                motion
            },
            None => motion,
        }
    }
}

} // verus!
