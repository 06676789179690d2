//! Editing the shell's prompt line from Normal and Visual mode, by the keys that its
//! line editor takes.

use vstd::prelude::*;
use crate::grid::Grid;
use crate::input::{Action, CursorMove, EditAction, Key, KeyCode, Mode, TextObject, VisualKind};
use crate::navigation::vim::{
    object_at, surround_at, surround_pair, surround_pair_chars, surround_pair_positions,
    text_object_span, Stretch,
};
use crate::pointer::clipboard::{paste_bytes, pasted};
use crate::pointer::Selection;
use crate::prompt_edit::{
    add_surround_keys, change_surround_keys, delete_surround_keys, edit_action_bytes,
    edit_action_key, key_bytes, keystroke_bytes, prompt_add_surround_bytes,
    prompt_change_surround_bytes, prompt_delete_bytes, prompt_delete_keys,
    prompt_delete_surround_bytes, prompt_replace_char_bytes, prompt_toggle_case_bytes,
    rebuild_keys, rebuild_line_bytes, replace_char_keys, toggle_case_keys, PromptDelete,
    PromptShadow, ShadowView, READLINE_UNDO,
};
use crate::session::{InsertSession, InsertView, Session, SessionView, SharedView, StateView};
use crate::text::{append_bytes, greatest, least, max_of, min_of, other_case, toggle_ascii_case};

verus! {

broadcast use {Grid::lemma_bounds, Grid::lemma_scrolled};

/// What is said when the line editor does not take the keys that edits are made of.
pub const EDITING_OFF: &'static str =
    "Prompt editing is off (prompt-edit-bindings); your shell's own editor handles the line";

impl SessionView {
    /// With the cursor to go to the shell's once the edit is echoed.
    pub open spec fn resynced(self) -> SessionView {
        SessionView {
            shared: SharedView { nav_resync_pending: true, dirty: true, ..self.shared },
            ..self
        }
    }

    /// With an edit declined because the line editor takes other keys.
    pub open spec fn declined(self) -> SessionView {
        self.faulted(EDITING_OFF@)
    }

    /// The absolute row of the prompt, which the shell's cursor is on. It is a row of the
    /// screen, however far the view is scrolled back.
    pub open spec fn prompt_row(self) -> int {
        self.grid().history() + self.grid().cursor_at().0
    }

    /// Whether the cursor is on the row of the prompt. Where there is none of its own, the
    /// shell's is.
    pub open spec fn on_prompt(self) -> bool {
        match self.state.nav_cursor {
            Some((row, _)) => self.grid().absolute(row as int) == self.prompt_row(),
            None => true,
        }
    }

    /// The column of the shell's cursor.
    pub open spec fn pty_col(self) -> int {
        self.grid().cursor_at().1 as int
    }

    /// The column of the cursor.
    pub open spec fn nav_col(self) -> int {
        self.cursor().1 as int
    }

    /// With the shadow of the prompt line no longer trusted.
    pub open spec fn desynced(self) -> SessionView {
        match self.state.shadow {
            Some(shadow) => self.with_shadow(shadow.desynced()),
            None => self,
        }
    }

    /// After a delete operator on the prompt line.
    pub open spec fn prompt_deleted(self, op: PromptDelete) -> SessionView {
        if !self.shared.prompt_editing {
            self.declined()
        } else if !self.live() {
            self
        } else if !self.on_prompt() {
            self.faulted("Cannot delete: not on the editable prompt line"@)
        } else {
            let followed = match self.state.shadow {
                Some(shadow) => self.with_shadow(
                    shadow.after_normal_delete(op, self.nav_col(), self.pty_col()),
                ),
                None => self,
            };
            followed.sent(
                key_bytes(prompt_delete_keys(op, self.pty_col(), self.nav_col())),
            ).resynced()
        }
    }

    /// In Insert mode, with nothing selected.
    pub open spec fn inserting(self) -> SessionView {
        self.with_mode(Mode::Insert).unselected().redrawn()
    }

    /// After a change operator on the prompt line: a delete, then Insert mode.
    pub open spec fn prompt_changed(self, op: PromptDelete) -> SessionView {
        if !self.shared.prompt_editing {
            self.declined()
        } else if !self.live() {
            self
        } else if !self.on_prompt() {
            self.faulted("Cannot change: not on the editable prompt line"@)
        } else {
            self.prompt_deleted(op).inserting()
        }
    }

    /// After the character under the cursor is replaced.
    pub open spec fn char_replaced(self, ch: char) -> SessionView {
        if !self.shared.prompt_editing {
            self.declined()
        } else if !self.live() {
            self
        } else if !self.on_prompt() {
            self.faulted("Cannot replace: not on the editable prompt line"@)
        } else {
            self.desynced().sent(
                key_bytes(replace_char_keys(self.pty_col(), self.nav_col(), ch)),
            ).resynced()
        }
    }

    /// The character of the prompt line under the cursor.
    pub open spec fn char_under(self) -> char {
        let grid = self.grid();
        grid.cell_at(self.prompt_row(), self.nav_col()).ch
    }

    /// After the case of the character under the cursor is toggled.
    pub open spec fn case_toggled(self) -> SessionView {
        if !self.shared.prompt_editing {
            self.declined()
        } else if !self.live() {
            self
        } else if !self.on_prompt() {
            self.faulted("Cannot toggle case: not on the editable prompt line"@)
        } else if self.nav_col() >= self.grid().width() {
            self
        } else {
            match other_case(self.char_under()) {
                Some(toggled) => self.desynced().sent(
                    key_bytes(toggle_case_keys(self.pty_col(), self.nav_col(), toggled)),
                ).cursor_moved(CursorMove::Right).resynced(),
                None => self.cursor_moved(CursorMove::Right),
            }
        }
    }

    /// After an edit in Insert mode.
    pub open spec fn edited(self, action: EditAction) -> SessionView {
        let followed = match self.state.shadow {
            Some(shadow) => self.with_shadow(
                shadow.after_edit_action(
                    action,
                    self.shared.prompt_editing && self.at_prompt(),
                ),
            ),
            None => self,
        };
        followed.sent(keystroke_bytes(edit_action_key(action))).redrawn()
    }

    /// After an undo on the prompt line: the shell's own, which the shadow follows.
    pub open spec fn prompt_undone(self) -> SessionView {
        if !self.shared.prompt_editing {
            self.declined()
        } else if !self.at_prompt() {
            self
        } else {
            let followed = match self.state.shadow {
                Some(shadow) => self.with_shadow(shadow.stepped_back()),
                None => self,
            };
            followed.sent(seq![READLINE_UNDO]).redrawn()
        }
    }

    /// After a redo on the prompt line: the line that was undone, typed anew.
    pub open spec fn prompt_redone(self) -> SessionView {
        if !self.shared.prompt_editing {
            self.declined()
        } else if !self.at_prompt() {
            self
        } else {
            match self.state.shadow {
                Some(shadow) if shadow.active && shadow.history.future.len() > 0 => {
                    let next = shadow.stepped_forward();
                    self.with_shadow(next).sent(
                        key_bytes(
                            rebuild_keys(
                                next.history.current,
                                self.state.pane->0.bracketed_paste,
                            ),
                        ),
                    ).resynced()
                },
                _ => self,
            }
        }
    }

    /// The columns of a stretch that is within the prompt's row.
    pub open spec fn prompt_cols(self, span: Option<Stretch>) -> Option<(usize, usize)> {
        match span {
            Some(((r1, c1), (r2, c2))) => {
                let row = self.prompt_row();
                if r1 == row && r2 == row && c1 <= c2 {
                    Some((c1, c2))
                } else {
                    None
                }
            },
            None => None,
        }
    }

    /// The columns of the text object under the cursor on the prompt line.
    pub open spec fn object_cols(self, around: bool, object: TextObject) -> Option<(usize, usize)> {
        self.prompt_cols(
            object_at(
                self.grid(),
                self.prompt_row(),
                self.nav_col(),
                around,
                object,
            ),
        )
    }

    /// The columns of the delimiters around the cursor on the prompt line.
    pub open spec fn surround_cols(self, target: char) -> Option<(usize, usize)> {
        match self.prompt_cols(
            surround_at(
                self.grid(),
                self.prompt_row(),
                self.nav_col(),
                target,
            ),
        ) {
            Some((c1, c2)) if c1 < c2 => Some((c1, c2)),
            _ => None,
        }
    }

    /// After a text object on the prompt line is deleted.
    pub open spec fn object_deleted(self, around: bool, object: TextObject) -> SessionView {
        if !self.live() {
            self
        } else if !self.on_prompt() {
            self.faulted("Cannot delete: not on the editable prompt line"@)
        } else {
            match self.object_cols(around, object) {
                Some((start_col, end_col)) => self.prompt_deleted(
                    PromptDelete::Range { start_col, end_col },
                ),
                None => self,
            }
        }
    }

    /// After a text object on the prompt line is changed.
    pub open spec fn object_changed(self, around: bool, object: TextObject) -> SessionView {
        if !self.live() {
            self
        } else if !self.on_prompt() {
            self.faulted("Cannot change: not on the editable prompt line"@)
        } else {
            match self.object_cols(around, object) {
                Some((start_col, end_col)) => self.prompt_deleted(
                    PromptDelete::Range { start_col, end_col },
                ).inserting(),
                None => self,
            }
        }
    }

    /// After the delimiters around the cursor are deleted.
    pub open spec fn surround_deleted(self, target: char) -> SessionView {
        if !self.shared.prompt_editing {
            self.declined()
        } else if !self.live() {
            self
        } else if !self.on_prompt() {
            self.faulted("Cannot delete surround: not on the editable prompt line"@)
        } else {
            match self.surround_cols(target) {
                Some((c1, c2)) => self.desynced().sent(
                    key_bytes(
                        delete_surround_keys(self.pty_col(), c1 as int, c2 as int, self.nav_col()),
                    ),
                ).resynced(),
                None => self,
            }
        }
    }

    /// After the delimiters around the cursor are changed.
    pub open spec fn surround_changed(self, target: char, replacement: char) -> SessionView {
        if !self.shared.prompt_editing {
            self.declined()
        } else if !self.live() {
            self
        } else if !self.on_prompt() {
            self.faulted("Cannot change surround: not on the editable prompt line"@)
        } else {
            match (self.surround_cols(target), surround_pair(replacement)) {
                (Some((c1, c2)), Some((open, close, _))) => self.desynced().sent(
                    key_bytes(
                        change_surround_keys(
                            self.pty_col(),
                            c1 as int,
                            open,
                            c2 as int,
                            close,
                            self.nav_col(),
                        ),
                    ),
                ).resynced(),
                _ => self,
            }
        }
    }

    /// After a text object on the prompt line is wrapped in delimiters.
    pub open spec fn object_surrounded(
        self,
        around: bool,
        object: TextObject,
        delimiter: char,
    ) -> SessionView {
        if !self.shared.prompt_editing {
            self.declined()
        } else if !self.live() {
            self
        } else if !self.on_prompt() {
            self.faulted("Cannot surround: not on the editable prompt line"@)
        } else {
            match (self.object_cols(around, object), surround_pair(delimiter)) {
                (Some((c1, c2)), Some((open, close, _))) => self.desynced().sent(
                    key_bytes(
                        add_surround_keys(
                            self.pty_col(),
                            c1 as int,
                            c2 as int,
                            open,
                            close,
                            self.nav_col(),
                        ),
                    ),
                ).resynced(),
                _ => self,
            }
        }
    }

    /// After the selection is deleted from the prompt line.
    pub open spec fn selection_deleted(self) -> SessionView {
        match (self.state.pane, self.shared.selection.span) {
            (Some(_), Some(sel)) if sel.pane == self.id => {
                let row = self.prompt_row();
                if sel.start_row == row && sel.end_row == row {
                    self.with_mode(Mode::Normal).unselected().prompt_deleted(
                        PromptDelete::Range {
                            start_col: least(sel.start_col as int, sel.end_col as int) as usize,
                            end_col: greatest(sel.start_col as int, sel.end_col as int) as usize,
                        },
                    )
                } else {
                    self.faulted("Cannot delete: selection not on the editable prompt line"@)
                }
            },
            _ => self,
        }
    }

    /// After a text object is selected: Visual mode over it, or, for an empty one, the
    /// cursor on it.
    pub open spec fn object_selected(self, around: bool, object: TextObject) -> SessionView {
        if !self.live() {
            self
        } else {
            let cursor = self.cursor();
            match object_at(
                self.grid(),
                self.grid().absolute(cursor.0 as int),
                cursor.1 as int,
                around,
                object,
            ) {
                Some(((r1, c1), (r2, c2))) => if r1 > r2 || (r1 == r2 && c1 > c2) {
                    self.jumped_to((r1, c1))
                } else {
                    self.stretch_selected((r1, c1), (r2, c2), VisualKind::Char)
                },
                None => self,
            }
        }
    }

    /// After `text` is pasted.
    pub open spec fn text_pasted(self, text: Seq<char>) -> SessionView {
        match self.state.pane {
            Some(pane) => self.desynced().sent(pasted(text, pane.bracketed_paste)),
            None => self.desynced(),
        }
    }

    /// After a key is sent to the shell in Insert mode.
    pub open spec fn key_recorded(self, key: Key, action: Action, at_prompt: bool) -> SessionView {
        let shadow = match self.state.shadow {
            Some(shadow) => shadow,
            None => ShadowView::fresh(),
        };
        SessionView {
            state: StateView {
                shadow: Some(shadow.after_insert_key(key, at_prompt)),
                insert_session: match action {
                    Action::SendBytes(bytes) => Some(
                        match self.state.insert_session {
                            Some(session) => InsertView {
                                anchor: session.anchor,
                                run: session.run + bytes@,
                            },
                            None => InsertView { anchor: None, run: bytes@ },
                        },
                    ),
                    _ => self.state.insert_session,
                },
                pending_tab_completion: key.code == KeyCode::Tab,
                ..self.state
            },
            ..self
        }
    }
}

impl Session {
    /// Whether Vim operators may edit the prompt line. They are made of keys that a
    /// line editor under other bindings takes for something else.
    pub fn prompt_editing_enabled(&self) -> (r: bool)
        ensures
            r == self@.shared.prompt_editing,
    {
        self.shared.prompt_editing
    }

    /// Say that an edit was declined, so that the key does not just vanish.
    pub fn decline_prompt_edit(&mut self)
        ensures
            final(self)@ == old(self)@.declined(),
    {
        self.set_error(EDITING_OFF);
    }

    /// The absolute row of the prompt, the shell's column, and the absolute row and the
    /// column of the cursor.
    pub(crate) fn prompt_cursor(&self) -> (r: Option<(usize, usize, usize, usize)>)
        requires
            self.wf(),
        ensures
            r is Some == self@.live(),
            r matches Some((row, pty, nav_row, nav)) ==> {
                &&& row == self@.prompt_row()
                &&& pty == self@.pty_col()
                &&& (nav_row == row) == self@.on_prompt()
                &&& nav == self@.nav_col()
            },
    {
        match &self.state.pane {
            Some(pane) => {
                let (screen_row, pty) = pane.grid.cursor();
                let row: usize = pane.grid.scrollback_len() + screen_row;
                let (nav_row, nav): (usize, usize) = match self.state.nav_cursor {
                    Some((nav_row, nav)) => (pane.grid.to_absolute_row(nav_row), nav),
                    None => (row, pty),
                };
                Some((row, pty, nav_row, nav))
            },
            None => None,
        }
    }

    /// Trust the shadow of the prompt line no longer.
    pub fn desync_shadow(&mut self)
        requires
            old(self).wf(),
        ensures
            final(self).wf(),
            final(self)@ == old(self)@.desynced(),
    {
        if let Some(shadow) = &mut self.state.shadow {
            shadow.desync();
        }
    }

    fn resync(&mut self)
        ensures
            final(self)@ == old(self)@.resynced(),
    {
        self.shared.nav_resync_pending = true;
        self.shared.dirty = true;
    }

    /// Carry out a delete operator on the prompt line, by the keys the shell's line
    /// editor takes for it. Only the prompt's row can be edited.
    pub fn delete_on_prompt(&mut self, op: PromptDelete)
        requires
            old(self).wf(),
        ensures
            final(self).wf(),
            final(self)@ == old(self)@.prompt_deleted(op),
    {
        if !self.prompt_editing_enabled() {
            self.decline_prompt_edit();
            return;
        }
        if let Some((row, pty, nav_row, nav)) = self.prompt_cursor() {
            if nav_row != row {
                self.set_error("Cannot delete: not on the editable prompt line");
                return;
            }
            if let Some(shadow) = &mut self.state.shadow {
                shadow.record_normal_delete(op, nav, pty);
            }
            let bytes = prompt_delete_bytes(op, pty, nav);
            self.send(bytes.as_slice());
            self.resync();
        }
    }

    /// Enter Insert mode, with nothing selected.
    pub fn enter_insert(&mut self)
        ensures
            final(self)@ == old(self)@.inserting(),
    {
        self.state.mode = Some(Mode::Insert);
        self.clear_selection();
        self.shared.dirty = true;
    }

    /// Carry out a change operator on the prompt line: delete, and enter Insert mode.
    pub fn change_on_prompt(&mut self, op: PromptDelete)
        requires
            old(self).wf(),
        ensures
            final(self).wf(),
            final(self)@ == old(self)@.prompt_changed(op),
    {
        if !self.prompt_editing_enabled() {
            self.decline_prompt_edit();
            return;
        }
        if let Some((row, _, nav_row, _)) = self.prompt_cursor() {
            if nav_row != row {
                self.set_error("Cannot change: not on the editable prompt line");
                return;
            }
            self.delete_on_prompt(op);
            self.enter_insert();
        }
    }

    /// Replace the character under the cursor on the prompt line.
    pub fn replace_char_on_prompt(&mut self, ch: char)
        requires
            old(self).wf(),
        ensures
            final(self).wf(),
            final(self)@ == old(self)@.char_replaced(ch),
    {
        if !self.prompt_editing_enabled() {
            self.decline_prompt_edit();
            return;
        }
        if let Some((row, pty, nav_row, nav)) = self.prompt_cursor() {
            if nav_row != row {
                self.set_error("Cannot replace: not on the editable prompt line");
                return;
            }
            self.desync_shadow();
            let bytes = prompt_replace_char_bytes(pty, nav, ch);
            self.send(bytes.as_slice());
            self.resync();
        }
    }

    /// Toggle the case of the ASCII letter under the cursor on the prompt line, and
    /// move on to the right.
    pub fn toggle_case_on_prompt(&mut self)
        requires
            old(self).wf(),
        ensures
            final(self).wf(),
            final(self)@ == old(self)@.case_toggled(),
    {
        if !self.prompt_editing_enabled() {
            self.decline_prompt_edit();
            return;
        }
        if let Some((row, pty, nav_row, nav)) = self.prompt_cursor() {
            if nav_row != row {
                self.set_error("Cannot toggle case: not on the editable prompt line");
                return;
            }
            let cell = match &self.state.pane {
                Some(pane) => pane.grid.absolute_cell(row, nav),
                None => None,
            };
            if let Some(cell) = cell {
                match toggle_ascii_case(cell.ch) {
                    Some(toggled) => {
                        self.desync_shadow();
                        let bytes = prompt_toggle_case_bytes(pty, nav, toggled);
                        self.send(bytes.as_slice());
                        self.move_nav_cursor(CursorMove::Right);
                        self.resync();
                    },
                    None => {
                        self.move_nav_cursor(CursorMove::Right);
                    },
                }
            }
        }
    }

    /// Carry out an edit in Insert mode. The keys are sent in any case; only the
    /// shadow is left out when the line editor takes other keys.
    pub fn edit_on_prompt(&mut self, action: EditAction)
        requires
            old(self).wf(),
        ensures
            final(self).wf(),
            final(self)@ == old(self)@.edited(action),
    {
        let at_prompt: bool = self.prompt_editing_enabled() && self.at_prompt();
        if let Some(shadow) = &mut self.state.shadow {
            shadow.apply_edit_action(action, at_prompt);
        }
        let bytes = edit_action_bytes(action);
        self.send(bytes.as_slice());
        self.shared.dirty = true;
    }

    /// Undo or redo on the prompt line. Undo is the shell's own; redo types anew the
    /// line that was undone, since shells have none.
    pub fn prompt_history_apply(&mut self, undo: bool)
        requires
            old(self).wf(),
        ensures
            final(self).wf(),
            final(self)@ == (if undo {
                old(self)@.prompt_undone()
            } else {
                old(self)@.prompt_redone()
            }),
    {
        if !self.prompt_editing_enabled() {
            self.decline_prompt_edit();
            return;
        }
        if !self.at_prompt() {
            return;
        }
        if undo {
            if let Some(shadow) = &mut self.state.shadow {
                shadow.step_back();
            }
            let bytes: [u8; 1] = [READLINE_UNDO];
            assert(bytes@ =~= seq![READLINE_UNDO]);
            self.send(&bytes);
            self.shared.dirty = true;
            return;
        }
        let target = match &mut self.state.shadow {
            Some(shadow) => shadow.redo_target(),
            None => None,
        };
        if let Some(line) = target {
            let bracketed: bool = match &self.state.pane {
                Some(pane) => pane.bracketed_paste,
                None => false,
            };
            let bytes = rebuild_line_bytes(&line, bracketed);
            self.send(bytes.as_slice());
            self.resync();
        }
    }

    /// The columns of the text object under the cursor on the prompt line.
    fn find_object(&self, around: bool, object: TextObject) -> (r: Option<(usize, usize)>)
        requires
            self.wf(),
            self@.live(),
        ensures
            r == self@.object_cols(around, object),
            r matches Some((c1, c2)) ==> c2 < self@.grid().width(),
    {
        match (&self.state.pane, self.prompt_cursor()) {
            (Some(pane), Some((abs, _, _, nav))) => {
                match text_object_span(&pane.grid, abs, nav, around, object) {
                    Some(((r1, c1), (r2, c2))) => if r1 == abs && r2 == abs && c1 <= c2 {
                        Some((c1, c2))
                    } else {
                        None
                    },
                    None => None,
                }
            },
            _ => None,
        }
    }

    /// The columns of the delimiters around the cursor on the prompt line.
    fn find_surround(&self, target: char) -> (r: Option<(usize, usize)>)
        requires
            self.wf(),
            self@.live(),
        ensures
            r == self@.surround_cols(target),
            r matches Some((c1, c2)) ==> c1 < c2 < self@.grid().width(),
    {
        match (&self.state.pane, self.prompt_cursor()) {
            (Some(pane), Some((abs, _, _, nav))) => {
                match surround_pair_positions(&pane.grid, abs, nav, target) {
                    Some(((r1, c1), (r2, c2))) => if r1 == abs && r2 == abs && c1 < c2 {
                        Some((c1, c2))
                    } else {
                        None
                    },
                    None => None,
                }
            },
            _ => None,
        }
    }

    /// Delete a text object on the prompt line.
    pub fn delete_text_object(&mut self, around: bool, object: TextObject)
        requires
            old(self).wf(),
        ensures
            final(self).wf(),
            final(self)@ == old(self)@.object_deleted(around, object),
    {
        if let Some((row, _, nav_row, _)) = self.prompt_cursor() {
            if nav_row != row {
                self.set_error("Cannot delete: not on the editable prompt line");
                return;
            }
            if let Some((start_col, end_col)) = self.find_object(around, object) {
                self.delete_on_prompt(PromptDelete::Range { start_col, end_col });
            }
        }
    }

    /// Change a text object on the prompt line: delete it, and enter Insert mode.
    pub fn change_text_object(&mut self, around: bool, object: TextObject)
        requires
            old(self).wf(),
        ensures
            final(self).wf(),
            final(self)@ == old(self)@.object_changed(around, object),
    {
        if let Some((row, _, nav_row, _)) = self.prompt_cursor() {
            if nav_row != row {
                self.set_error("Cannot change: not on the editable prompt line");
                return;
            }
            if let Some((start_col, end_col)) = self.find_object(around, object) {
                self.delete_on_prompt(PromptDelete::Range { start_col, end_col });
                self.enter_insert();
            }
        }
    }

    /// Delete the delimiters around the cursor on the prompt line.
    pub fn delete_surround(&mut self, target: char)
        requires
            old(self).wf(),
        ensures
            final(self).wf(),
            final(self)@ == old(self)@.surround_deleted(target),
    {
        if !self.prompt_editing_enabled() {
            self.decline_prompt_edit();
            return;
        }
        if let Some((row, pty, nav_row, nav)) = self.prompt_cursor() {
            if nav_row != row {
                self.set_error("Cannot delete surround: not on the editable prompt line");
                return;
            }
            if let Some((c1, c2)) = self.find_surround(target) {
                self.desync_shadow();
                let bytes = prompt_delete_surround_bytes(pty, c1, c2, nav);
                self.send(bytes.as_slice());
                self.resync();
            }
        }
    }

    /// Change the delimiters around the cursor on the prompt line.
    pub fn change_surround(&mut self, target: char, replacement: char)
        requires
            old(self).wf(),
        ensures
            final(self).wf(),
            final(self)@ == old(self)@.surround_changed(target, replacement),
    {
        if !self.prompt_editing_enabled() {
            self.decline_prompt_edit();
            return;
        }
        if let Some((row, pty, nav_row, nav)) = self.prompt_cursor() {
            if nav_row != row {
                self.set_error("Cannot change surround: not on the editable prompt line");
                return;
            }
            if let Some((c1, c2)) = self.find_surround(target) {
                if let Some((open, close, _)) = surround_pair_chars(replacement) {
                    self.desync_shadow();
                    let bytes = prompt_change_surround_bytes(pty, c1, open, c2, close, nav);
                    self.send(bytes.as_slice());
                    self.resync();
                }
            }
        }
    }

    /// Wrap a text object on the prompt line in delimiters.
    pub fn surround_text_object(&mut self, around: bool, object: TextObject, delimiter: char)
        requires
            old(self).wf(),
        ensures
            final(self).wf(),
            final(self)@ == old(self)@.object_surrounded(around, object, delimiter),
    {
        if !self.prompt_editing_enabled() {
            self.decline_prompt_edit();
            return;
        }
        if let Some((row, pty, nav_row, nav)) = self.prompt_cursor() {
            if nav_row != row {
                self.set_error("Cannot surround: not on the editable prompt line");
                return;
            }
            if let Some((c1, c2)) = self.find_object(around, object) {
                if let Some((open, close, _)) = surround_pair_chars(delimiter) {
                    self.desync_shadow();
                    let bytes = prompt_add_surround_bytes(pty, c1, c2, open, close, nav);
                    self.send(bytes.as_slice());
                    self.resync();
                }
            }
        }
    }

    /// Delete the selection, when it is on the prompt line.
    pub fn delete_selection(&mut self)
        requires
            old(self).wf(),
        ensures
            final(self).wf(),
            final(self)@ == old(self)@.selection_deleted(),
    {
        let row: usize = match self.prompt_cursor() {
            Some((row, _, _, _)) => row,
            None => {
                return;
            },
        };
        let sel: Selection = match self.shared.selection.span {
            Some(sel) => sel,
            None => {
                return;
            },
        };
        if sel.pane != self.id {
            return;
        }
        if sel.start_row != row || sel.end_row != row {
            self.set_error("Cannot delete: selection not on the editable prompt line");
            return;
        }
        self.state.mode = Some(Mode::Normal);
        self.clear_selection();
        self.delete_on_prompt(
            PromptDelete::Range {
                start_col: min_of(sel.start_col, sel.end_col),
                end_col: max_of(sel.start_col, sel.end_col),
            },
        );
    }

    /// Select a text object around the cursor.
    pub fn select_text_object(&mut self, around: bool, object: TextObject)
        requires
            old(self).wf(),
        ensures
            final(self).wf(),
            final(self)@ == old(self)@.object_selected(around, object),
    {
        let span = match &self.state.pane {
            Some(pane) => {
                let (row, col): (usize, usize) = match self.state.nav_cursor {
                    Some(pos) => pos,
                    None => pane.grid.cursor(),
                };
                let abs: usize = pane.grid.to_absolute_row(row);
                text_object_span(&pane.grid, abs, col, around, object)
            },
            None => None,
        };
        if let Some(((r1, c1), (r2, c2))) = span {
            if r1 > r2 || (r1 == r2 && c1 > c2) {
                self.jump_to((r1, c1));
                return;
            }
            self.select_stretch((r1, c1), (r2, c2), VisualKind::Char);
        }
    }

    /// Send `text` to the program as a paste.
    pub fn paste_text(&mut self, text: &str)
        requires
            old(self).wf(),
        ensures
            final(self).wf(),
            final(self)@ == old(self)@.text_pasted(text@),
    {
        self.desync_shadow();
        if let Some(pane) = &mut self.state.pane {
            let bytes = paste_bytes(text, pane.bracketed_paste);
            pane.write(bytes.as_slice());
        }
    }

    /// Keep track of a key that was sent to the shell in Insert mode: for undo and
    /// redo, for repeating what was typed, and for whether the shell may be amid a
    /// completion.
    pub fn record_insert_key(&mut self, key: &Key, action: &Action, at_prompt: bool)
        requires
            old(self).wf(),
        ensures
            final(self).wf(),
            final(self)@ == old(self)@.key_recorded(*key, *action, at_prompt),
    {
        if self.state.shadow.is_none() {
            self.state.shadow = Some(PromptShadow::default());
        }
        if let Some(shadow) = &mut self.state.shadow {
            shadow.apply_insert_key(key, at_prompt);
        }
        if let Action::SendBytes(bytes) = action {
            if self.state.insert_session.is_none() {
                self.state.insert_session = Some(InsertSession { anchor: None, run: Vec::new() });
            }
            if let Some(session) = &mut self.state.insert_session {
                append_bytes(&mut session.run, bytes.as_slice());
            }
            assert(Seq::<u8>::empty() + bytes@ =~= bytes@);
        }
        self.state.pending_tab_completion = key.code == KeyCode::Tab;
    }
}

/// An edit that is declined sends nothing.
pub proof fn law_a_declined_edit_sends_nothing(s: SessionView, op: PromptDelete)
    requires
        !s.shared.prompt_editing,
    ensures
        s.prompt_deleted(op).state == s.state,
        s.prompt_changed(op).state == s.state,
        s.case_toggled().state == s.state,
        s.prompt_undone().state == s.state,
        s.prompt_redone().state == s.state,
        s.prompt_deleted(op).shared.notice is Some,
{
}

/// An edit away from the prompt's row sends nothing, and says so.
pub proof fn law_only_the_prompt_is_edited(s: SessionView, op: PromptDelete)
    requires
        s.shared.prompt_editing,
        s.live(),
        !s.on_prompt(),
    ensures
        s.prompt_deleted(op).state == s.state,
        s.prompt_changed(op).state == s.state,
        s.prompt_deleted(op).shared.notice is Some,
        s.prompt_changed(op).shared.notice is Some,
{
}

/// A delete or a change aimed at a row of the history is not carried out, however far the
/// view is scrolled back.
pub proof fn law_the_history_is_not_edited(s: SessionView, op: PromptDelete)
    requires
        s.wf(),
        s.shared.prompt_editing,
        s.live(),
        s.state.nav_cursor matches Some((row, _)) && s.grid().absolute(row as int)
            < s.grid().history(),
    ensures
        !s.on_prompt(),
        s.prompt_deleted(op).state == s.state,
        s.prompt_changed(op).state == s.state,
        s.prompt_deleted(op).shared.notice is Some,
        s.prompt_changed(op).shared.notice is Some,
{
}

/// A jump to the prompt ends on the prompt, from however far back in the history it starts.
pub proof fn law_a_jump_to_the_prompt_lands_on_it(s: SessionView)
    requires
        s.wf(),
        s.live(),
    ensures
        s.jumped_to_prompt().on_prompt(),
        s.jumped_to_prompt().grid().offset() == 0,
        s.jumped_to_prompt().cursor() == s.grid().cursor_at(),
{
}

} // verus!
