//! Moving the Normal-mode cursor: motions, jumps, marks, and the lists of where it has
//! been.

use vstd::prelude::*;
use crate::grid::Grid;
use crate::input::{BlockNav, CursorMove, Mode};
use crate::navigation::cursor::{is_jump, moved, pushes_jump, step_cursor};
use crate::navigation::quick_select::{block_step, step_offset};
use crate::navigation::vim::{absolute_row_chars, view_row};
use crate::session::{Session, SessionView, StateView};
use crate::text::{is_ascii_lower, least, min_of, minus};
use crate::words::{first_non_blank, first_printed};

verus! {

broadcast use {
    Grid::lemma_bounds,
    Grid::lemma_scrolled,
    vstd::std_specs::hash::group_hash_axioms,
};

/// The view scrolled to show absolute row `target`: as it is when the row is in view,
/// else with the row in the middle, as near as there are rows.
pub open spec fn centered(grid: Grid, target: int) -> Grid {
    if target < grid.top() || target >= grid.top() + grid.height() {
        grid.scrolled(minus(grid.height() / 2 + grid.history(), target))
    } else {
        grid
    }
}

/// Scroll to show absolute row `target`, and return the row of the view it is then
/// on, or the nearest.
pub fn center_on(grid: &mut Grid, target: usize) -> (r: usize)
    requires
        old(grid).wf(),
    ensures
        final(grid).wf(),
        *final(grid) == centered(*old(grid), target as int),
        r == view_row(*final(grid), target as int),
        r < final(grid).height(),
{
    let rows: usize = grid.rows();
    let history: usize = grid.scrollback_len();
    let top: usize = history - grid.scroll_offset();
    if target < top || target - top >= rows {
        grid.set_scroll_offset((rows / 2 + history).saturating_sub(target));
    }
    let top: usize = grid.scrollback_len() - grid.scroll_offset();
    min_of(target.saturating_sub(top), rows - 1)
}

/// A row of the buffer that is revealed ends up on the row of the view that is
/// returned for it.
pub proof fn law_centering_shows_the_target(grid: Grid, target: int)
    requires
        grid.wf(),
        0 <= target < grid.total(),
    ensures
        ({
            let after = centered(grid, target);
            after.top() + view_row(after, target) == target
        }),
{
}

/// A row that is in view is not scrolled for.
pub proof fn law_centering_leaves_a_visible_row_alone(grid: Grid, target: int)
    requires
        grid.wf(),
        grid.top() <= target < grid.top() + grid.height(),
    ensures
        centered(grid, target) == grid,
{
}

impl SessionView {
    /// Where the cursor is, by its absolute row, when there is a cursor.
    pub open spec fn live_position(self) -> Option<(usize, usize)> {
        match (self.state.pane, self.state.nav_cursor) {
            (Some(pane), Some((row, col))) => Some(
                (pane.grid.absolute(row as int) as usize, col),
            ),
            _ => None,
        }
    }

    /// With the cursor's position recorded as the origin of a jump.
    pub open spec fn jump_pushed(self) -> SessionView {
        match self.live_position() {
            Some(pos) => SessionView {
                state: StateView { jump_list: self.state.jump_list.jumped(pos), ..self.state },
                ..self
            },
            None => self,
        }
    }

    /// With the cursor's position recorded as where a change began.
    pub open spec fn change_pushed(self) -> SessionView {
        match self.live_position() {
            Some(pos) => SessionView {
                state: StateView { change_list: self.state.change_list.logged(pos), ..self.state },
                ..self
            },
            None => self,
        }
    }

    /// With an absolute position scrolled into view, and the cursor on it.
    pub open spec fn revealed(self, pos: (usize, usize)) -> SessionView {
        match self.state.pane {
            Some(pane) => {
                let grid = centered(pane.grid, pos.0 as int);
                self.with_grid(grid).with_cursor((view_row(grid, pos.0 as int) as usize, pos.1))
            },
            None => self,
        }
    }

    /// With the cursor on an absolute position, and a Visual selection extended to it.
    pub open spec fn jumped_to(self, pos: (usize, usize)) -> SessionView {
        self.revealed(pos).extended().redrawn()
    }

    /// With the cursor moved to `target`, if there is one.
    pub open spec fn jumped_if(self, target: Option<(usize, usize)>) -> SessionView {
        match target {
            Some(pos) => self.jumped_to(pos),
            None => self,
        }
    }

    /// After a step back through the jump list.
    pub open spec fn jumped_older(self) -> SessionView {
        let list = self.state.jump_list;
        match self.live_position() {
            Some(live) => SessionView {
                state: StateView { jump_list: list.stepped_older(live), ..self.state },
                ..self
            }.jumped_if(
                if list.has_older() {
                    Some(list.older_entry())
                } else {
                    None
                },
            ),
            None => self,
        }
    }

    /// After a step forward through the jump list.
    pub open spec fn jumped_newer(self) -> SessionView {
        let list = self.state.jump_list;
        SessionView {
            state: StateView { jump_list: list.stepped_newer(), ..self.state },
            ..self
        }.jumped_if(list.newer_entry())
    }

    /// After a step back through the change list.
    pub open spec fn changed_older(self) -> SessionView {
        let list = self.state.change_list;
        match self.live_position() {
            Some(live) => SessionView {
                state: StateView { change_list: list.stepped_older(live), ..self.state },
                ..self
            }.jumped_if(
                if list.has_older() {
                    Some(list.older_entry())
                } else {
                    None
                },
            ),
            None => self,
        }
    }

    /// After a step forward through the change list.
    pub open spec fn changed_newer(self) -> SessionView {
        let list = self.state.change_list;
        SessionView {
            state: StateView { change_list: list.stepped_newer(), ..self.state },
            ..self
        }.jumped_if(list.newer_entry())
    }

    /// With the cursor's position kept as mark `mark`.
    pub open spec fn marked(self, mark: char) -> SessionView {
        match self.live_position() {
            Some(pos) if is_ascii_lower(mark) => SessionView {
                state: StateView { marks: self.state.marks.insert(mark as u32, pos), ..self.state },
                ..self
            },
            _ => self,
        }
    }

    /// Where mark `mark` is, brought into the buffer: at its column, or at the first
    /// printed one of its row.
    pub open spec fn mark_target(self, mark: char, exact: bool) -> (usize, usize) {
        let (row, col) = self.state.marks[mark as u32];
        let target = least(row as int, self.grid().total() - 1);
        (
            target as usize,
            if exact {
                col
            } else {
                first_printed(self.grid().row_text(target)) as usize
            },
        )
    }

    /// After a jump to mark `mark`.
    pub open spec fn jumped_to_mark(self, mark: char, exact: bool) -> SessionView {
        if self.live() && self.state.marks.contains_key(mark as u32) {
            self.jump_pushed().jumped_to(self.mark_target(mark, exact))
        } else {
            self
        }
    }

    /// With the cursor at the shell's, where it is in view.
    pub open spec fn cursor_seeded(self) -> SessionView {
        match self.state.pane {
            Some(pane) => self.with_cursor(
                (
                    pane.grid.cursor_at().0,
                    least(pane.grid.cursor_at().1 as int, pane.grid.width() - 1) as usize,
                ),
            ),
            None => self,
        }
    }

    /// With the cursor where the pointer is, in a mode that has one.
    pub open spec fn cursor_tracked(self, row: usize, col: usize) -> SessionView {
        match self.state.mode {
            Some(Mode::Normal) | Some(Mode::Visual) => self.with_cursor((row, col)),
            _ => self,
        }
    }

    /// After a motion.
    pub open spec fn cursor_moved(self, mv: CursorMove) -> SessionView {
        let s = if is_jump(mv) {
            self.jump_pushed()
        } else {
            self
        };
        match s.state.pane {
            Some(pane) => {
                let from = s.cursor();
                let l = moved(pane.grid, (from.0 as int, from.1 as int), mv);
                s.with_grid(l.grid).with_cursor((l.row as usize, l.col as usize)).redrawn()
            },
            None => s,
        }
    }

    /// After `n` motions.
    pub open spec fn cursor_moved_n(self, mv: CursorMove, n: nat) -> SessionView
        decreases n,
    {
        if n == 0 {
            self
        } else {
            self.cursor_moved_n(mv, (n - 1) as nat).cursor_moved(mv)
        }
    }

    /// With the cursor on the prompt, and the screen in view.
    pub open spec fn jumped_to_prompt(self) -> SessionView {
        match self.state.pane {
            Some(pane) => self.jump_pushed().with_grid(pane.grid.scrolled(0)).with_cursor(
                pane.grid.cursor_at(),
            ).extended().redrawn(),
            None => self,
        }
    }

    /// With the view at the next or the previous block.
    pub open spec fn block_focused(self, nav: BlockNav) -> SessionView {
        match self.state.pane {
            Some(pane) => match block_step(pane.offsets, pane.grid.offset(), nav) {
                Some(target) => self.with_grid(pane.grid.scrolled(target)).redrawn(),
                None => self,
            },
            None => self,
        }
    }
}

impl Session {
    /// Where the cursor is, by its absolute row, when there is a cursor.
    pub fn live_jump_position(&self) -> (r: Option<(usize, usize)>)
        requires
            self.wf(),
        ensures
            r == self@.live_position(),
    {
        match (&self.state.pane, self.state.nav_cursor) {
            (Some(pane), Some((row, col))) => Some((pane.grid.to_absolute_row(row), col)),
            _ => None,
        }
    }

    /// Record the cursor's position as the origin of a jump.
    pub fn push_jump(&mut self)
        requires
            old(self).wf(),
        ensures
            final(self).wf(),
            final(self)@ == old(self)@.jump_pushed(),
    {
        if let Some(pos) = self.live_jump_position() {
            self.state.jump_list.push(pos);
        }
    }

    /// Record the cursor's position as where a change began.
    pub fn push_change(&mut self)
        requires
            old(self).wf(),
        ensures
            final(self).wf(),
            final(self)@ == old(self)@.change_pushed(),
    {
        if let Some(pos) = self.live_jump_position() {
            self.state.change_list.push(pos);
        }
    }

    /// Scroll an absolute position into view, in the middle when it was out of view,
    /// and put the cursor on it.
    pub fn reveal_position(&mut self, pos: (usize, usize))
        requires
            old(self).wf(),
        ensures
            final(self).wf(),
            final(self)@ == old(self)@.revealed(pos),
    {
        if let Some(pane) = &mut self.state.pane {
            let row: usize = center_on(&mut pane.grid, pos.0);
            self.state.nav_cursor = Some((row, pos.1));
        }
    }

    /// Put the cursor on an absolute position, and extend a Visual selection to it.
    pub fn jump_to(&mut self, pos: (usize, usize))
        requires
            old(self).wf(),
        ensures
            final(self).wf(),
            final(self)@ == old(self)@.jumped_to(pos),
    {
        self.reveal_position(pos);
        self.extend_visual();
        self.shared.dirty = true;
    }

    /// `Ctrl+O`: step back to where the last jump came from.
    pub fn jump_older(&mut self)
        requires
            old(self).wf(),
        ensures
            final(self).wf(),
            final(self)@ == old(self)@.jumped_older(),
    {
        if let Some(live) = self.live_jump_position() {
            let target = self.state.jump_list.older(live);
            if let Some(pos) = target {
                self.jump_to(pos);
            }
        }
    }

    /// `Ctrl+I`: step forward through the jump list.
    pub fn jump_newer(&mut self)
        requires
            old(self).wf(),
        ensures
            final(self).wf(),
            final(self)@ == old(self)@.jumped_newer(),
    {
        let target = self.state.jump_list.newer();
        if let Some(pos) = target {
            self.jump_to(pos);
        }
    }

    /// `g;`: step back to where the last change began.
    pub fn change_older(&mut self)
        requires
            old(self).wf(),
        ensures
            final(self).wf(),
            final(self)@ == old(self)@.changed_older(),
    {
        if let Some(live) = self.live_jump_position() {
            let target = self.state.change_list.older(live);
            if let Some(pos) = target {
                self.jump_to(pos);
            }
        }
    }

    /// `g,`: step forward through the change list.
    pub fn change_newer(&mut self)
        requires
            old(self).wf(),
        ensures
            final(self).wf(),
            final(self)@ == old(self)@.changed_newer(),
    {
        let target = self.state.change_list.newer();
        if let Some(pos) = target {
            self.jump_to(pos);
        }
    }

    /// Keep the cursor's position as mark `mark`, a lowercase letter.
    pub fn set_mark(&mut self, mark: char)
        requires
            old(self).wf(),
        ensures
            final(self).wf(),
            final(self)@ == old(self)@.marked(mark),
    {
        if !('a' <= mark && mark <= 'z') {
            return;
        }
        if let Some(pos) = self.live_jump_position() {
            self.state.marks.insert(mark as u32, pos);
        }
    }

    /// Jump to mark `mark`: to its column, or to the first printed one of its row.
    /// Where the jump came from is recorded.
    pub fn goto_mark(&mut self, mark: char, exact: bool)
        requires
            old(self).wf(),
        ensures
            final(self).wf(),
            final(self)@ == old(self)@.jumped_to_mark(mark, exact),
    {
        let key: u32 = mark as u32;
        let (row, col) = match self.state.marks.get(&key) {
            Some(pos) => *pos,
            None => {
                return;
            },
        };
        let target: (usize, usize) = match &self.state.pane {
            Some(pane) => {
                let last: usize = pane.grid.scrollback_len() + pane.grid.rows() - 1;
                let row: usize = min_of(row, last);
                let col: usize = if exact {
                    col
                } else {
                    first_non_blank(&absolute_row_chars(&pane.grid, row))
                };
                (row, col)
            },
            None => {
                return;
            },
        };
        self.push_jump();
        self.jump_to(target);
    }

    /// Put the cursor at the shell's, on entering Normal mode.
    pub fn init_nav_cursor(&mut self)
        requires
            old(self).wf(),
        ensures
            final(self).wf(),
            final(self)@ == old(self)@.cursor_seeded(),
    {
        if let Some(pane) = &self.state.pane {
            let (row, col) = pane.grid.cursor();
            let col: usize = min_of(col, pane.grid.cols() - 1);
            self.state.nav_cursor = Some((row, col));
        }
    }

    /// Put the cursor where the pointer selects, in Normal and Visual mode. Insert
    /// mode has no such cursor, so none is left over from a click there.
    pub fn track_nav_cursor_to_mouse(&mut self, row: usize, col: usize)
        ensures
            final(self)@ == old(self)@.cursor_tracked(row, col),
    {
        match self.state.mode {
            Some(Mode::Normal) | Some(Mode::Visual) => {
                self.state.nav_cursor = Some((row, col));
            },
            _ => {},
        }
    }

    /// Move the cursor. A step past an edge of the view scrolls, so that the cursor
    /// reaches the whole buffer, and the origin of a jump is recorded.
    pub fn move_nav_cursor(&mut self, mv: CursorMove)
        requires
            old(self).wf(),
        ensures
            final(self).wf(),
            final(self)@ == old(self)@.cursor_moved(mv),
    {
        if pushes_jump(mv) {
            self.push_jump();
        }
        let stored = self.state.nav_cursor;
        if let Some(pane) = &mut self.state.pane {
            let from: (usize, usize) = match stored {
                Some(pos) => pos,
                None => pane.grid.cursor(),
            };
            let pos: (usize, usize) = step_cursor(&mut pane.grid, from, mv);
            self.state.nav_cursor = Some(pos);
            self.shared.dirty = true;
        }
    }

    /// Move the cursor `count` times, or once.
    pub fn move_nav_cursor_n(&mut self, count: usize, mv: CursorMove)
        requires
            old(self).wf(),
        ensures
            final(self).wf(),
            final(self)@ == old(self)@.cursor_moved_n(
                mv,
                if count == 0 {
                    1
                } else {
                    count as nat
                },
            ),
    {
        let n: usize = if count == 0 {
            1
        } else {
            count
        };
        let ghost start = self@;
        let mut i: usize = 0;
        while i < n
            invariant
                i <= n,
                self.wf(),
                self@ == start.cursor_moved_n(mv, i as nat),
            decreases n - i,
        {
            self.move_nav_cursor(mv);
            i = i + 1;
        }
    }

    /// `gp`: put the cursor on the prompt, scrolling down to the screen for it.
    pub fn jump_to_prompt(&mut self)
        requires
            old(self).wf(),
        ensures
            final(self).wf(),
            final(self)@ == old(self)@.jumped_to_prompt(),
    {
        let pos: (usize, usize) = match &self.state.pane {
            Some(pane) => pane.grid.cursor(),
            None => {
                return;
            },
        };
        self.push_jump();
        if let Some(pane) = &mut self.state.pane {
            pane.grid.set_scroll_offset(0);
        }
        self.state.nav_cursor = Some(pos);
        self.extend_visual();
        self.shared.dirty = true;
    }

    /// Bring the next or the previous block into view.
    pub fn focus_block(&mut self, nav: BlockNav)
        requires
            old(self).wf(),
        ensures
            final(self).wf(),
            final(self)@ == old(self)@.block_focused(nav),
    {
        if let Some(pane) = &mut self.state.pane {
            let offset: usize = pane.grid.scroll_offset();
            if let Some(target) = step_offset(&pane.offsets, offset, nav) {
                pane.grid.set_scroll_offset(target);
                self.shared.dirty = true;
            }
        }
    }

    /// `gP`: bring the command before into view. Where the jump came from is recorded.
    pub fn jump_to_previous_prompt(&mut self)
        requires
            old(self).wf(),
        ensures
            final(self).wf(),
            final(self)@ == old(self)@.jump_pushed().block_focused(BlockNav::Previous),
    {
        self.push_jump();
        self.focus_block(BlockNav::Previous);
    }
}

/// A step back through the jump list and a step forward again bring the list and the
/// cursor back.
pub proof fn law_newer_returns_from_older(s: SessionView, live: (usize, usize))
    requires
        s.wf(),
        s.live(),
        s.state.jump_list.has_older(),
        s.state.jump_list.index == 0,
        s.live_position() == Some(live),
        live.0 < s.grid().total(),
    ensures
        s.jumped_older().jumped_newer().state.jump_list == s.state.jump_list,
        s.jumped_older().jumped_newer().live_position() == Some(live),
{
    crate::navigation::lists::law_newer_undoes_older(s.state.jump_list, live);
    let back = s.jumped_older();
    assert(back.state.jump_list == s.state.jump_list.stepped_older(live));
    assert(back.state.jump_list.newer_entry() == Some(live));
    law_centering_shows_the_target(back.grid(), live.0 as int);
}

/// A mark is come back to: later, wherever the cursor has gone, a jump to the mark puts it
/// where it was when the mark was set, as long as that row is in the buffer.
pub proof fn law_a_mark_is_come_back_to(
    then: SessionView,
    now: SessionView,
    mark: char,
    pos: (usize, usize),
)
    requires
        now.wf(),
        now.live(),
        is_ascii_lower(mark),
        then.live_position() == Some(pos),
        now.state.marks == then.marked(mark).state.marks,
        pos.0 < now.grid().total(),
    ensures
        now.jumped_to_mark(mark, true).live_position() == Some(pos),
{
    law_centering_shows_the_target(now.grid(), pos.0 as int);
}

} // verus!
