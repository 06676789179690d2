//! Visual mode: what is selected from the anchor to the cursor.

use vstd::prelude::*;
use crate::grid::Grid;
use crate::input::{Mode, ModeEvent, VisualKind};
use crate::navigation::vim::{line_chars, printed_line};
use crate::pointer::{visual_selection, visual_span, LastVisual, SelectionState};
use crate::session::{Session, SessionView};
use crate::text::{clamped, is_white, least, max_of, min_of};

verus! {

broadcast use {Grid::lemma_bounds, Grid::lemma_scrolled};

impl SessionView {
    /// With the selection recomputed from the anchor to the cursor.
    pub open spec fn reselected(self) -> SessionView {
        let sel = self.shared.selection;
        match (sel.visual_anchor, self.state.nav_cursor) {
            (Some(anchor), Some(cursor)) => match self.state.pane {
                Some(pane) => self.with_selection(
                    SelectionState {
                        span: Some(
                            visual_span(
                                sel.visual_kind,
                                self.id,
                                anchor,
                                (pane.grid.absolute(cursor.0 as int), cursor.1),
                                pane.grid.width(),
                            ),
                        ),
                        ..sel
                    },
                ),
                None => self,
            },
            _ => self.with_selection(SelectionState { span: None, ..sel }),
        }
    }

    /// With the selection recomputed, in Visual mode.
    pub open spec fn extended(self) -> SessionView {
        if self.state.mode == Some(Mode::Visual) {
            self.reselected()
        } else {
            self
        }
    }

    /// With nothing selected and no anchor.
    pub open spec fn unselected(self) -> SessionView {
        self.with_selection(
            SelectionState { span: None, visual_anchor: None, ..self.shared.selection },
        )
    }

    /// With the Visual selection kept for later, when there is one.
    pub open spec fn remembered(self) -> SessionView {
        let sel = self.shared.selection;
        match (sel.visual_anchor, self.live_position()) {
            (Some(anchor), Some(cursor)) => self.with_selection(
                SelectionState {
                    last_visual: Some(
                        LastVisual { anchor, cursor, kind: sel.visual_kind, pane: self.id },
                    ),
                    ..sel
                },
            ),
            _ => self,
        }
    }

    /// With the anchor at `anchor` and the kind `kind`.
    pub open spec fn anchored(self, anchor: (usize, usize), kind: VisualKind) -> SessionView {
        self.with_selection(
            SelectionState {
                visual_anchor: Some(anchor),
                visual_kind: kind,
                ..self.shared.selection
            },
        )
    }

    /// In Visual mode from one absolute position to another.
    pub open spec fn stretch_selected(
        self,
        from: (usize, usize),
        to: (usize, usize),
        kind: VisualKind,
    ) -> SessionView {
        self.with_mode(Mode::Visual).anchored(from, kind).revealed(to).reselected().redrawn()
    }

    /// Where a Visual selection starts: where the cursor is, by its absolute row.
    pub open spec fn anchor_here(self) -> (usize, usize) {
        match self.live_position() {
            Some(pos) => pos,
            None => match self.state.nav_cursor {
                Some(pos) => pos,
                None => (0, 0),
            },
        }
    }

    /// After `v`, `V` or `Ctrl+V`.
    pub open spec fn visual_toggled(self, kind: VisualKind) -> SessionView {
        let sel = self.shared.selection;
        match self.mode() {
            Mode::Normal => self.with_mode(Mode::Visual).anchored(
                self.anchor_here(),
                kind,
            ).reselected().redrawn(),
            Mode::Visual => if sel.visual_kind == kind {
                self.remembered().with_mode(Mode::Normal).unselected().redrawn()
            } else {
                self.with_selection(SelectionState { visual_kind: kind, ..sel }).reselected().redrawn()
            },
            _ => self.redrawn(),
        }
    }

    /// With the cursor at the other end of the selection.
    pub open spec fn ends_swapped(self) -> SessionView {
        match (self.shared.selection.visual_anchor, self.live_position()) {
            (Some(anchor), Some(cursor)) => self.with_selection(
                SelectionState { visual_anchor: Some(cursor), ..self.shared.selection },
            ).revealed(anchor).reselected().redrawn(),
            _ => self,
        }
    }

    /// With the last Visual selection of the pane back.
    pub open spec fn visual_restored(self) -> SessionView {
        match self.shared.selection.last_visual {
            Some(last) if last.pane == self.id => {
                let s = self.with_mode(Mode::Visual).with_selection(
                    SelectionState { visual_kind: last.kind, ..self.shared.selection },
                ).revealed(last.cursor);
                match s.state.pane {
                    Some(pane) => s.with_selection(
                        SelectionState {
                            visual_anchor: Some(in_view(pane.grid, last.anchor)),
                            ..s.shared.selection
                        },
                    ).reselected().redrawn(),
                    None => s.reselected().redrawn(),
                }
            },
            _ => self,
        }
    }

    /// Out of Visual mode, with the selection kept for later.
    pub open spec fn visual_ended(self) -> SessionView {
        self.remembered().with_mode(Mode::Normal).unselected().redrawn()
    }

    /// With the paragraph in view around the cursor selected.
    pub open spec fn paragraph_selected(self) -> SessionView {
        match self.state.pane {
            Some(pane) => {
                let grid = pane.grid;
                let row = least(self.cursor().0 as int, grid.height() - 1);
                let first = blank_start(grid, row, line_is_blank(grid, row));
                let last = blank_end(grid, row, line_is_blank(grid, row));
                self.with_mode(Mode::Visual).anchored(
                    (grid.absolute(first) as usize, 0),
                    VisualKind::Line,
                ).with_cursor((last as usize, 0)).reselected().redrawn()
            },
            None => self,
        }
    }
}

/// An absolute position, or the nearest that is in view.
pub open spec fn in_view(grid: Grid, pos: (usize, usize)) -> (usize, usize) {
    (clamped(pos.0 as int, grid.top(), grid.top() + grid.height() - 1) as usize, pos.1)
}

fn bring_in_view(grid: &Grid, pos: (usize, usize)) -> (r: (usize, usize))
    requires
        grid.wf(),
    ensures
        r == in_view(*grid, pos),
{
    let top: usize = grid.to_absolute_row(0);
    let bottom: usize = top + (grid.rows() - 1);
    (max_of(top, min_of(pos.0, bottom)), pos.1)
}

/// Whether row `row` of the view shows only blanks.
pub open spec fn line_is_blank(grid: Grid, row: int) -> bool {
    forall|i: int|
        0 <= i < printed_line(grid, row).len() ==> is_white(#[trigger] printed_line(grid, row)[i])
}

/// The first of the rows of the view up to `row` that are all blank, or all not.
pub open spec fn blank_start(grid: Grid, row: int, blank: bool) -> int
    decreases row,
{
    if row > 0 && line_is_blank(grid, row - 1) == blank {
        blank_start(grid, row - 1, blank)
    } else {
        row
    }
}

/// The last of the rows of the view from `row` on that are all blank, or all not.
pub open spec fn blank_end(grid: Grid, row: int, blank: bool) -> int
    decreases grid.height() - row,
{
    if row + 1 < grid.height() && line_is_blank(grid, row + 1) == blank {
        blank_end(grid, row + 1, blank)
    } else {
        row
    }
}

fn blank_line(grid: &Grid, row: usize) -> (r: bool)
    requires
        grid.wf(),
        row < grid.height(),
    ensures
        r == line_is_blank(*grid, row as int),
{
    let line = line_chars(grid, row);
    let mut i: usize = 0;
    while i < line.len()
        invariant
            i <= line@.len(),
            line@ == printed_line(*grid, row as int),
            forall|j: int| 0 <= j < i ==> is_white(#[trigger] line@[j]),
        decreases line@.len() - i,
    {
        if !line[i].is_whitespace() {
            assert(!is_white(printed_line(*grid, row as int)[i as int]));
            return false;
        }
        i = i + 1;
    }
    true
}

/// The first and the last row of the view of the paragraph around row `row`.
fn paragraph_rows(grid: &Grid, row: usize) -> (r: (usize, usize))
    requires
        grid.wf(),
        row < grid.height(),
    ensures
        r.0 == blank_start(*grid, row as int, line_is_blank(*grid, row as int)),
        r.1 == blank_end(*grid, row as int, line_is_blank(*grid, row as int)),
        r.0 <= row <= r.1 < grid.height(),
{
    let rows: usize = grid.rows();
    let blank: bool = blank_line(grid, row);
    let mut first: usize = row;
    while first > 0 && blank_line(grid, first - 1) == blank
        invariant
            grid.wf(),
            first <= row < grid.height(),
            blank_start(*grid, row as int, blank) == blank_start(*grid, first as int, blank),
        decreases first,
    {
        first = first - 1;
    }
    let mut last: usize = row;
    while last + 1 < rows && blank_line(grid, last + 1) == blank
        invariant
            grid.wf(),
            rows == grid.height(),
            row <= last < rows,
            blank_end(*grid, row as int, blank) == blank_end(*grid, last as int, blank),
        decreases rows - last,
    {
        last = last + 1;
    }
    (first, last)
}

impl Session {
    /// Recompute the selection from the anchor to the cursor.
    pub fn update_visual_selection(&mut self)
        requires
            old(self).wf(),
        ensures
            final(self).wf(),
            final(self)@ == old(self)@.reselected(),
    {
        match (self.shared.selection.visual_anchor, self.state.nav_cursor) {
            (Some(anchor), Some(cursor)) => {
                if let Some(pane) = &self.state.pane {
                    let span = visual_selection(
                        &pane.grid,
                        self.shared.selection.visual_kind,
                        self.id,
                        anchor,
                        cursor,
                    );
                    self.shared.selection.span = Some(span);
                }
            },
            _ => {
                self.shared.selection.span = None;
            },
        }
    }

    /// Recompute the selection, in Visual mode.
    pub fn extend_visual(&mut self)
        requires
            old(self).wf(),
        ensures
            final(self).wf(),
            final(self)@ == old(self)@.extended(),
    {
        if self.in_visual() {
            self.update_visual_selection();
        }
    }

    /// Select nothing, and forget the anchor.
    pub fn clear_selection(&mut self)
        ensures
            final(self)@ == old(self)@.unselected(),
    {
        self.shared.selection.span = None;
        self.shared.selection.visual_anchor = None;
    }

    /// Keep the Visual selection for `gv`, by absolute rows.
    pub fn remember_visual(&mut self)
        requires
            old(self).wf(),
        ensures
            final(self).wf(),
            final(self)@ == old(self)@.remembered(),
    {
        let cursor = self.live_jump_position();
        if let (Some(anchor), Some(cursor)) = (self.shared.selection.visual_anchor, cursor) {
            self.shared.selection.last_visual = Some(
                LastVisual {
                    anchor,
                    cursor,
                    kind: self.shared.selection.visual_kind,
                    pane: self.id,
                },
            );
        }
    }

    /// Start a Visual selection of kind `kind` at `anchor`.
    pub fn anchor_at(&mut self, anchor: (usize, usize), kind: VisualKind)
        ensures
            final(self)@ == old(self)@.anchored(anchor, kind),
    {
        self.shared.selection.visual_anchor = Some(anchor);
        self.shared.selection.visual_kind = kind;
    }

    /// Select from one absolute position to another, with the cursor on the second.
    pub fn select_stretch(&mut self, from: (usize, usize), to: (usize, usize), kind: VisualKind)
        requires
            old(self).wf(),
        ensures
            final(self).wf(),
            final(self)@ == old(self)@.stretch_selected(from, to, kind),
    {
        self.state.mode = Some(Mode::Normal.apply(ModeEvent::EnterVisual));
        self.anchor_at(from, kind);
        self.reveal_position(to);
        self.update_visual_selection();
        self.shared.dirty = true;
    }

    /// Enter Visual mode from Normal, leave it when its own kind is asked for again,
    /// or change the kind and keep the anchor.
    pub fn toggle_visual(&mut self, kind: VisualKind)
        requires
            old(self).wf(),
        ensures
            final(self).wf(),
            final(self)@ == old(self)@.visual_toggled(kind),
    {
        match self.mode() {
            Mode::Normal => {
                let anchor: (usize, usize) = match self.live_jump_position() {
                    Some(pos) => pos,
                    None => match self.state.nav_cursor {
                        Some(pos) => pos,
                        None => (0, 0),
                    },
                };
                self.state.mode = Some(Mode::Normal.apply(ModeEvent::EnterVisual));
                self.anchor_at(anchor, kind);
                self.update_visual_selection();
            },
            Mode::Visual => {
                if self.shared.selection.visual_kind == kind {
                    self.remember_visual();
                    self.state.mode = Some(Mode::Visual.apply(ModeEvent::EnterVisual));
                    self.clear_selection();
                } else {
                    self.shared.selection.visual_kind = kind;
                    self.update_visual_selection();
                }
            },
            _ => {},
        }
        self.shared.dirty = true;
    }

    /// Visual `o`: go to the other end of the selection. What is selected stays.
    pub fn swap_visual_ends(&mut self)
        requires
            old(self).wf(),
        ensures
            final(self).wf(),
            final(self)@ == old(self)@.ends_swapped(),
    {
        let cursor = self.live_jump_position();
        if let (Some(anchor), Some(cursor)) = (self.shared.selection.visual_anchor, cursor) {
            self.shared.selection.visual_anchor = Some(cursor);
            self.reveal_position(anchor);
            self.update_visual_selection();
            self.shared.dirty = true;
        }
    }

    /// `gv`: bring back the pane's last Visual selection, its cursor in view and its
    /// anchor as near as the view allows.
    pub fn restore_visual(&mut self)
        requires
            old(self).wf(),
        ensures
            final(self).wf(),
            final(self)@ == old(self)@.visual_restored(),
    {
        let last: LastVisual = match self.shared.selection.last_visual {
            Some(last) => last,
            None => {
                return;
            },
        };
        if last.pane != self.id {
            return;
        }
        self.state.mode = Some(Mode::Normal.apply(ModeEvent::EnterVisual));
        self.shared.selection.visual_kind = last.kind;
        self.reveal_position(last.cursor);
        if let Some(pane) = &self.state.pane {
            let anchor = bring_in_view(&pane.grid, last.anchor);
            self.shared.selection.visual_anchor = Some(anchor);
        }
        self.update_visual_selection();
        self.shared.dirty = true;
    }

    /// Leave Visual mode, and keep the selection for `gv`.
    pub fn end_visual(&mut self)
        requires
            old(self).wf(),
        ensures
            final(self).wf(),
            final(self)@ == old(self)@.visual_ended(),
    {
        self.remember_visual();
        self.state.mode = Some(Mode::Visual.apply(ModeEvent::Escape));
        self.clear_selection();
        self.shared.dirty = true;
    }

    /// Select the paragraph around the cursor, linewise and as far as it is in view:
    /// the rows around it that are blank, or not, as it is.
    pub fn select_paragraph(&mut self)
        requires
            old(self).wf(),
        ensures
            final(self).wf(),
            final(self)@ == old(self)@.paragraph_selected(),
    {
        let stored = self.state.nav_cursor;
        let (first, last) = match &self.state.pane {
            Some(pane) => {
                let cursor: (usize, usize) = match stored {
                    Some(pos) => pos,
                    None => pane.grid.cursor(),
                };
                let row: usize = min_of(cursor.0, pane.grid.rows() - 1);
                let (first, last) = paragraph_rows(&pane.grid, row);
                (pane.grid.to_absolute_row(first), last)
            },
            None => {
                return;
            },
        };
        self.state.mode = Some(Mode::Normal.apply(ModeEvent::EnterVisual));
        self.anchor_at((first, 0), VisualKind::Line);
        self.state.nav_cursor = Some((last, 0));
        self.update_visual_selection();
        self.shared.dirty = true;
    }
}

/// The anchor names the same text however the view scrolls: a motion in Visual mode
/// leaves it where it was, by its absolute row.
pub proof fn law_the_anchor_holds_its_line(s: SessionView, mv: crate::input::CursorMove)
    ensures
        s.cursor_moved(mv).extended().shared.selection.visual_anchor
            == s.shared.selection.visual_anchor,
{
}

/// Going to the other end twice comes back to the same ends.
pub proof fn law_swapping_ends_twice_returns(s: SessionView, anchor: (usize, usize))
    requires
        s.wf(),
        s.live(),
        s.shared.selection.visual_anchor == Some(anchor),
        s.live_position() matches Some(cursor) && cursor.0 < s.grid().total(),
        anchor.0 < s.grid().total(),
    ensures
        s.ends_swapped().shared.selection.visual_anchor == s.live_position(),
        s.ends_swapped().live_position() == Some(anchor),
        s.ends_swapped().ends_swapped().shared.selection.visual_anchor == Some(anchor),
        s.ends_swapped().ends_swapped().live_position() == s.live_position(),
{
    let cursor = s.live_position()->0;
    crate::session::motion::law_centering_shows_the_target(s.grid(), anchor.0 as int);
    let once = s.ends_swapped();
    crate::session::motion::law_centering_shows_the_target(once.grid(), cursor.0 as int);
}

/// `gv` brings back the selection that ended: its kind and its cursor, and its anchor
/// when the view has room for it.
pub proof fn law_a_visual_selection_comes_back(s: SessionView, anchor: (usize, usize))
    requires
        s.wf(),
        s.live(),
        s.shared.selection.visual_anchor == Some(anchor),
        s.live_position() matches Some(cursor) && cursor.0 < s.grid().total(),
    ensures
        ({
            let back = s.visual_ended().visual_restored();
            &&& back.state.mode == Some(Mode::Visual)
            &&& back.shared.selection.visual_kind == s.shared.selection.visual_kind
            &&& back.live_position() == s.live_position()
            &&& back.grid().top() <= anchor.0 < back.grid().top() + back.grid().height()
                ==> back.shared.selection.visual_anchor == Some(anchor)
        }),
{
    let cursor = s.live_position()->0;
    let ended = s.visual_ended();
    crate::session::motion::law_centering_shows_the_target(ended.grid(), cursor.0 as int);
}

} // verus!
