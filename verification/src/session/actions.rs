//! Carrying out an action in a pane, and keeping track of what can be repeated.

use vstd::prelude::*;
use crate::grid::Grid;
use crate::input::{
    copy_change, is_change, is_change_action, Action, BlockNav, CursorMove, FindChar, InsertAt,
    Mode, PendingPrefix,
};
use crate::navigation::search::{string_view, SearchFrom};
use crate::prompt_edit::{align_cursor, align_keys, key_bytes, PromptDelete};
use crate::session::search::{erased, kept, typed};
use crate::session::{
    ChangeView, Effect, EffectView, InsertSession, InsertView, LastChange, Session, SessionView,
    SharedView, StateView,
};
use crate::text::minus;

verus! {

broadcast use {Grid::lemma_bounds, Grid::lemma_scrolled};

/// Whether an action begins a visit to Insert mode.
pub open spec fn begins_insert(action: Action) -> bool {
    match action {
        Action::EnterInsert(_) | Action::ChangeLine | Action::ChangeToLineEnd
        | Action::ChangeToLineStart | Action::ChangeWordBack | Action::ChangeWordForward
        | Action::ChangeTextObject(_) | Action::ChangeSearchMatch { .. }
        | Action::SubstituteChar => true,
        _ => false,
    }
}

fn is_insert_start(action: &Action) -> (r: bool)
    ensures
        r == begins_insert(*action),
{
    match action {
        Action::EnterInsert(_) | Action::ChangeLine | Action::ChangeToLineEnd
        | Action::ChangeToLineStart | Action::ChangeWordBack | Action::ChangeWordForward
        | Action::ChangeTextObject(_) | Action::ChangeSearchMatch { .. }
        | Action::SubstituteChar => true,
        _ => false,
    }
}

/// How many times a counted motion is made.
pub open spec fn times(count: usize) -> nat {
    if count == 0 {
        1
    } else {
        count as nat
    }
}

impl SessionView {
    // --------------------------------------------------------------------
    // Modes
    // --------------------------------------------------------------------

    /// With the prompt in view for Insert mode: scrolled to the screen, or, when it was
    /// there already, with the shell's cursor walked to the cursor's column of the
    /// prompt.
    pub open spec fn prompt_aligned(self) -> SessionView {
        match self.state.pane {
            Some(pane) => if pane.grid.offset() > 0 {
                self.with_grid(pane.grid.scrolled(0))
            } else {
                match self.state.nav_cursor {
                    Some((row, col)) => if row == pane.grid.cursor_at().0 {
                        let synced = match self.state.shadow {
                            Some(shadow) => self.with_shadow(
                                shadow.cursor_synced(col as int, self.pty_col()),
                            ),
                            None => self,
                        };
                        synced.sent(key_bytes(align_keys(self.pty_col(), col as int)))
                    } else {
                        self
                    },
                    None => self,
                }
            },
            None => self,
        }
    }

    /// After leaving mode `old` for mode `new`: what belonged to the old mode is put
    /// away.
    pub open spec fn mode_left(self, old: Mode, new: Mode) -> SessionView {
        let cleared = self.with_mode(new).labels_cleared();
        let pushed = if old == Mode::Normal && new != Mode::Normal {
            cleared.jump_pushed()
        } else {
            cleared
        };
        let unselected = if old == Mode::Visual {
            pushed.remembered().unselected()
        } else {
            pushed
        };
        if old == Mode::Normal && new != Mode::Normal && unselected.shared.search.query is Some {
            unselected.with_search(unselected.shared.search.put_away()).refitted()
        } else {
            unselected
        }
    }

    /// After a change to mode `new`.
    #[verifier::opaque]
    pub open spec fn mode_switched(self, new: Mode) -> SessionView {
        let old = self.mode();
        let s = self.mode_left(old, new);
        (match new {
            Mode::Normal => if old != Mode::Normal && old != Mode::Visual {
                s.cursor_seeded()
            } else {
                s
            },
            Mode::Insert => s.prompt_aligned().without_cursor(),
            Mode::BlockFocus | Mode::Page => s.without_cursor(),
            Mode::Visual => s,
        }).redrawn()
    }

    /// In Insert mode, with the cursor first put where `at` says.
    #[verifier::opaque]
    pub open spec fn insert_entered(self, at: InsertAt) -> SessionView {
        (match at {
            InsertAt::Cursor => self,
            InsertAt::After => self.cursor_moved(CursorMove::Right),
            InsertAt::LineEnd => self.cursor_moved(CursorMove::LineEnd),
        }).mode_switched(Mode::Insert)
    }

    // --------------------------------------------------------------------
    // What can be repeated
    // --------------------------------------------------------------------

    /// With the visit to Insert mode over: what was typed is the last change, and where
    /// it began is recorded.
    pub open spec fn insert_finished(self) -> SessionView {
        match self.state.insert_session {
            Some(session) => {
                let s = SessionView {
                    state: StateView { insert_session: None, ..self.state },
                    ..self
                };
                if session.run.len() == 0 {
                    s
                } else {
                    SessionView {
                        state: StateView {
                            change_list: match session.anchor {
                                Some(anchor) => s.state.change_list.logged(anchor),
                                None => s.state.change_list,
                            },
                            last_change: Some(ChangeView::Typed(session.run)),
                            ..s.state
                        },
                        ..s
                    }
                }
            },
            None => self,
        }
    }

    /// With an action about to be carried out kept track of.
    #[verifier::opaque]
    pub open spec fn noted(self, action: Action) -> SessionView {
        if begins_insert(action) {
            SessionView {
                state: StateView {
                    insert_session: Some(
                        InsertView { anchor: self.live_position(), run: Seq::empty() },
                    ),
                    ..self.state
                },
                ..self
            }
        } else if action matches Action::SwitchMode(new) {
            if self.state.mode == Some(Mode::Insert) && action->SwitchMode_0 != Mode::Insert {
                self.insert_finished()
            } else {
                self
            }
        } else if is_change(action) && self.at_prompt() {
            SessionView {
                state: StateView {
                    last_change: Some(ChangeView::Action(action)),
                    ..self.state
                },
                ..self
            }.change_pushed()
        } else {
            self
        }
    }

    /// After the last change is made again.
    #[verifier::opaque]
    pub open spec fn change_repeated(self, selected: Option<Seq<char>>) -> SessionView {
        match self.state.last_change {
            Some(ChangeView::Action(action)) => self.noted(action).performed(action, selected),
            Some(ChangeView::Typed(run)) => if self.at_prompt() {
                self.change_pushed().desynced().sent(run)
            } else {
                self.sent(run)
            },
            None => self,
        }
    }

    // --------------------------------------------------------------------
    // Actions
    // --------------------------------------------------------------------

    /// After a character search is asked for.
    pub open spec fn find_asked(self, find: FindChar) -> SessionView {
        let s = SessionView {
            shared: SharedView { last_find: Some(find), ..self.shared },
            ..self
        };
        let after = s.char_sought(find);
        if s.labels_needed(find) {
            SessionView {
                shared: SharedView { pending: PendingPrefix::FindLabel, ..after.shared },
                ..after
            }
        } else {
            after
        }
    }

    /// After the last character search is made again.
    pub open spec fn find_repeated(self, reverse: bool) -> SessionView {
        match self.shared.last_find {
            Some(find) => self.char_found(
                if reverse {
                    FindChar { forward: !find.forward, ..find }
                } else {
                    find
                },
            ),
            None => self,
        }
    }

    /// With what is under the cursor to be opened.
    pub open spec fn open_asked(self) -> SessionView {
        match (self.state.pane, self.state.nav_cursor) {
            (Some(_), Some((row, col))) => self.with_effect(EffectView::OpenAt(row, col)),
            _ => self,
        }
    }

    /// After an edit of the prompt line.
    #[verifier::opaque]
    pub open spec fn prompt_edited(self, action: Action) -> SessionView {
        match action {
            Action::ChangeSurround { target, replacement } => self.surround_changed(
                target,
                replacement,
            ),
            Action::DeleteSurround(target) => self.surround_deleted(target),
            Action::SurroundTextObject { spec, delimiter } => self.object_surrounded(
                spec.around,
                spec.object,
                delimiter,
            ),
            Action::PromptUndo => self.prompt_undone(),
            Action::PromptRedo => self.prompt_redone(),
            Action::Edit(edit) => self.edited(edit),
            Action::ChangeLine => self.prompt_changed(PromptDelete::Line),
            Action::ChangeToLineEnd => self.prompt_changed(PromptDelete::ToLineEnd),
            Action::ChangeToLineStart => self.prompt_changed(PromptDelete::ToLineStart),
            Action::ChangeWordBack => self.prompt_changed(PromptDelete::WordBack),
            Action::ChangeWordForward => self.prompt_changed(PromptDelete::WordForward),
            Action::ChangeTextObject(spec) => self.object_changed(spec.around, spec.object),
            Action::SubstituteChar => self.prompt_changed(PromptDelete::CharForward),
            Action::ReplaceChar(ch) => self.char_replaced(ch),
            Action::ToggleCaseChar => self.case_toggled(),
            Action::DeleteCharForward => self.prompt_deleted(PromptDelete::CharForward),
            Action::DeleteLine => self.prompt_deleted(PromptDelete::Line),
            Action::DeleteSelection => self.selection_deleted(),
            Action::DeleteTextObject(spec) => self.object_deleted(spec.around, spec.object),
            Action::DeleteToLineEnd => self.prompt_deleted(PromptDelete::ToLineEnd),
            Action::DeleteToLineStart => self.prompt_deleted(PromptDelete::ToLineStart),
            Action::DeleteWordBack => self.prompt_deleted(PromptDelete::WordBack),
            Action::DeleteWordForward => self.prompt_deleted(PromptDelete::WordForward),
            _ => self,
        }
    }

    /// After a step of a search, or what is done to a match.
    #[verifier::opaque]
    pub open spec fn search_acted(self, action: Action) -> SessionView {
        match action {
            Action::SelectSearchMatch { forward } => self.match_selected(forward),
            Action::ChangeSearchMatch { forward } => self.match_changed(forward),
            Action::DeleteSearchMatch { forward } => self.match_deleted(forward),
            Action::SearchStart => self.search_launched(false),
            Action::SearchStartBackward => self.search_launched(true),
            Action::SearchChar(c) => self.query_typed(typed(c)),
            Action::SearchBackspace => self.query_typed(erased()),
            Action::SearchExecute => self.query_typed(kept()),
            Action::SearchCancel => self.search_cancelled(),
            Action::SearchNext => {
                let s = self.search_resumed();
                s.searched(s.shared.search.direction(), SearchFrom::Cursor)
            },
            Action::SearchPrevious => {
                let s = self.search_resumed();
                s.searched(s.shared.search.direction().opposite(), SearchFrom::Cursor)
            },
            Action::SearchWord { forward } => self.word_searched(forward),
            _ => self,
        }
    }

    /// After a motion, a jump or a scroll.
    #[verifier::opaque]
    pub open spec fn view_moved(self, action: Action) -> SessionView {
        match action {
            Action::MoveCursor(mv) => self.cursor_moved(mv).extended(),
            Action::MoveCursorN { count, mv } => self.cursor_moved_n(mv, times(count)).extended(),
            Action::JumpOlder => self.jumped_older(),
            Action::JumpNewer => self.jumped_newer(),
            Action::ChangeOlder => self.changed_older(),
            Action::ChangeNewer => self.changed_newer(),
            Action::JumpToPrompt => self.jumped_to_prompt(),
            Action::JumpToPreviousPrompt => self.jump_pushed().block_focused(BlockNav::Previous),
            Action::SetMark(mark) => self.marked(mark),
            Action::GotoMark(goto) => self.jumped_to_mark(goto.mark, goto.exact),
            Action::FocusBlock(nav) => self.block_focused(nav),
            Action::FindChar(find) => self.find_asked(find),
            Action::FindJump(label) => self.label_picked(label),
            Action::FindCancel => self.labels_cleared(),
            Action::FindRepeat { reverse } => self.find_repeated(reverse),
            Action::QuickSelect => self.quick_entered(),
            Action::QuickJump(label) => self.quick_jumped(label),
            Action::QuickCancel => SessionView {
                shared: SharedView { quick_select: None, ..self.shared },
                ..self
            },
            Action::ScrollPageUp => self.scrolled_to(self.grid().offset() + self.grid().height()),
            Action::ScrollPageDown => self.scrolled_to(
                minus(self.grid().offset(), self.grid().height()),
            ),
            Action::ScrollLineUp => self.scrolled_to(self.grid().offset() + 1),
            Action::ScrollLineDown => self.scrolled_to(minus(self.grid().offset(), 1)),
            Action::ScrollToTop => self.scrolled_to(self.grid().history()),
            Action::ScrollToBottom => self.scrolled_to(0),
            _ => self,
        }
    }

    /// After what is selected is changed, or copied.
    #[verifier::opaque]
    pub open spec fn selection_acted(self, action: Action, selected: Option<Seq<char>>) -> SessionView {
        match action {
            Action::SwapVisualEnds => self.ends_swapped(),
            Action::RestoreVisual => self.visual_restored(),
            Action::EnterVisual(kind) => self.visual_toggled(kind),
            Action::SelectParagraph => self.paragraph_selected(),
            Action::SelectTextObject(spec) => self.object_selected(spec.around, spec.object),
            Action::YankSelection => self.selection_copied(selected).visual_ended(),
            Action::YankSelectionRegister(register) => self.selection_kept(
                register,
                selected,
            ).visual_ended(),
            Action::Copy => self.selection_copied(selected),
            Action::Paste => self.with_effect(EffectView::PasteClipboard),
            Action::PasteRegister { register, after } => self.register_pasted(register),
            Action::YankBlock => self.block_yanked(),
            Action::ToggleFold => self.fold_toggled(),
            _ => self,
        }
    }

    /// After an action that one pane carries out by itself. `selected` is the text under
    /// the selection.
    #[verifier::opaque]
    pub open spec fn performed(self, action: Action, selected: Option<Seq<char>>) -> SessionView {
        match action {
            Action::SendBytes(bytes) => self.sent(bytes@),
            Action::SwitchMode(mode) => self.mode_switched(mode),
            Action::OpenUnderCursor => self.open_asked(),
            Action::ForwardToBlock(bytes) => self.with_effect(
                EffectView::ForwardToBlock(bytes@),
            ),
            _ => self.prompt_edited(action).search_acted(action).view_moved(
                action,
            ).selection_acted(action, selected),
        }
    }

    /// After an action is kept track of and carried out.
    pub open spec fn acted(self, action: Action, selected: Option<Seq<char>>) -> SessionView {
        let s = self.noted(action);
        match action {
            Action::EnterInsert(at) => s.insert_entered(at),
            Action::RepeatLastChange => s.change_repeated(selected),
            _ => s.performed(action, selected),
        }
    }
}

impl Session {
    fn align_prompt(&mut self)
        requires
            old(self).wf(),
        ensures
            final(self).wf(),
            final(self)@ == old(self)@.prompt_aligned(),
    {
        let stored = self.state.nav_cursor;
        let mut walk: Option<(usize, usize)> = None;
        if let Some(pane) = &mut self.state.pane {
            if pane.grid.scroll_offset() > 0 {
                pane.grid.set_scroll_offset(0);
            } else {
                if let Some((row, col)) = stored {
                    let (prompt_row, pty) = pane.grid.cursor();
                    if row == prompt_row {
                        walk = Some((pty, col));
                    }
                }
            }
        }
        if let Some((pty, col)) = walk {
            if let Some(shadow) = &mut self.state.shadow {
                shadow.sync_cursor(col, pty);
            }
            let mut bytes: Vec<u8> = Vec::new();
            align_cursor(&mut bytes, pty, col);
            assert(bytes@ =~= key_bytes(align_keys(pty as int, col as int)));
            self.send(bytes.as_slice());
        }
    }

    fn leave_mode(&mut self, old_mode: Mode, new: Mode)
        requires
            old(self).wf(),
        ensures
            final(self).wf(),
            final(self)@ == old(self)@.mode_left(old_mode, new),
    {
        self.state.mode = Some(new);
        self.clear_find_labels();
        if old_mode == Mode::Normal && new != Mode::Normal {
            self.push_jump();
        }
        if old_mode == Mode::Visual {
            self.remember_visual();
            self.clear_selection();
        }
        if old_mode == Mode::Normal && new != Mode::Normal && self.shared.search.query.is_some() {
            self.put_search_away();
            self.refit();
        }
    }

    /// Change to mode `new`. What belonged to the mode before is put away; Normal mode
    /// entered afresh has its cursor at the shell's, and Insert mode has the prompt in
    /// view.
    pub fn switch_mode(&mut self, new: Mode)
        requires
            old(self).wf(),
        ensures
            final(self).wf(),
            final(self)@ == old(self)@.mode_switched(new),
    {
        proof {
            reveal(SessionView::mode_switched);
        }
        let old_mode: Mode = self.mode();
        self.leave_mode(old_mode, new);
        match new {
            Mode::Normal => {
                if old_mode != Mode::Normal && old_mode != Mode::Visual {
                    self.init_nav_cursor();
                }
            },
            Mode::Insert => {
                self.align_prompt();
                self.clear_nav_cursor();
            },
            Mode::BlockFocus | Mode::Page => {
                self.clear_nav_cursor();
            },
            Mode::Visual => {},
        }
        self.shared.dirty = true;
    }

    fn enter_insert_at(&mut self, at: InsertAt)
        requires
            old(self).wf(),
        ensures
            final(self).wf(),
            final(self)@ == old(self)@.insert_entered(at),
    {
        proof {
            reveal(SessionView::insert_entered);
        }
        match at {
            InsertAt::Cursor => {},
            InsertAt::After => self.move_nav_cursor(CursorMove::Right),
            InsertAt::LineEnd => self.move_nav_cursor(CursorMove::LineEnd),
        }
        self.switch_mode(Mode::Insert);
    }

    fn finish_insert_session(&mut self)
        requires
            old(self).wf(),
        ensures
            final(self).wf(),
            final(self)@ == old(self)@.insert_finished(),
    {
        let taken = self.state.insert_session.take();
        if let Some(session) = taken {
            if session.run.len() > 0 {
                if let Some(anchor) = session.anchor {
                    self.state.change_list.push(anchor);
                }
                self.state.last_change = Some(LastChange::Typed(session.run));
            }
        }
    }

    /// Keep track of an action about to be carried out: where a visit to Insert mode
    /// begins, what was typed when one ends, and any other change of the prompt line.
    pub fn track_change(&mut self, action: &Action)
        requires
            old(self).wf(),
        ensures
            final(self).wf(),
            final(self)@ == old(self)@.noted(*action),
    {
        proof {
            reveal(SessionView::noted);
        }
        if is_insert_start(action) {
            let run: Vec<u8> = Vec::new();
            assert(run@ =~= Seq::empty());
            let anchor = self.live_jump_position();
            self.state.insert_session = Some(InsertSession { anchor, run });
            return;
        }
        if let Action::SwitchMode(new) = action {
            let was_insert: bool = match self.state.mode {
                Some(mode) => mode == Mode::Insert,
                None => false,
            };
            if was_insert && *new != Mode::Insert {
                self.finish_insert_session();
            }
            return;
        }
        if is_change_action(action) && self.at_prompt() {
            self.state.last_change = Some(LastChange::Action(copy_change(action)));
            self.push_change();
        }
    }

    /// `.`: make the last change again where the cursor is now.
    pub fn repeat_last_change(&mut self, selected: &Option<String>)
        requires
            old(self).wf(),
        ensures
            final(self).wf(),
            final(self)@ == old(self)@.change_repeated(string_view(*selected)),
    {
        proof {
            reveal(SessionView::change_repeated);
        }
        let mut action: Option<Action> = None;
        let mut run: Vec<u8> = Vec::new();
        match &self.state.last_change {
            Some(LastChange::Action(a)) => {
                action = Some(copy_change(a));
            },
            Some(LastChange::Typed(bytes)) => {
                crate::text::append_bytes(&mut run, bytes.as_slice());
                assert(run@ =~= bytes@);
            },
            None => {
                return;
            },
        }
        match action {
            Some(action) => {
                self.track_change(&action);
                self.perform(&action, selected);
            },
            None => {
                if self.at_prompt() {
                    self.push_change();
                    self.desync_shadow();
                }
                self.send(run.as_slice());
            },
        }
    }

    fn find_char_asked(&mut self, find: FindChar)
        requires
            old(self).wf(),
        ensures
            final(self).wf(),
            final(self)@ == old(self)@.find_asked(find),
    {
        self.shared.last_find = Some(find);
        if self.find_char_overlay(find) {
            self.shared.pending = PendingPrefix::FindLabel;
        }
    }

    fn find_again(&mut self, reverse: bool)
        requires
            old(self).wf(),
        ensures
            final(self).wf(),
            final(self)@ == old(self)@.find_repeated(reverse),
    {
        if let Some(find) = self.shared.last_find {
            let target = if reverse {
                find.reversed()
            } else {
                find
            };
            self.find_char_move(target);
        }
    }

    fn open_under_cursor(&mut self)
        requires
            old(self).wf(),
        ensures
            final(self).wf(),
            final(self)@ == old(self)@.open_asked(),
    {
        if self.state.pane.is_some() {
            if let Some((row, col)) = self.state.nav_cursor {
                self.emit(Effect::OpenAt(row, col));
            }
        }
    }

    fn edit_prompt(&mut self, action: &Action)
        requires
            old(self).wf(),
        ensures
            final(self).wf(),
            final(self)@ == old(self)@.prompt_edited(*action),
    {
        proof {
            reveal(SessionView::prompt_edited);
        }
        match action {
            Action::ChangeSurround { target, replacement } => self.change_surround(
                *target,
                *replacement,
            ),
            Action::DeleteSurround(target) => self.delete_surround(*target),
            Action::SurroundTextObject { spec, delimiter } => self.surround_text_object(
                spec.around,
                spec.object,
                *delimiter,
            ),
            Action::PromptUndo => self.prompt_history_apply(true),
            Action::PromptRedo => self.prompt_history_apply(false),
            Action::Edit(edit) => self.edit_on_prompt(*edit),
            Action::ChangeLine => self.change_on_prompt(PromptDelete::Line),
            Action::ChangeToLineEnd => self.change_on_prompt(PromptDelete::ToLineEnd),
            Action::ChangeToLineStart => self.change_on_prompt(PromptDelete::ToLineStart),
            Action::ChangeWordBack => self.change_on_prompt(PromptDelete::WordBack),
            Action::ChangeWordForward => self.change_on_prompt(PromptDelete::WordForward),
            Action::ChangeTextObject(spec) => self.change_text_object(spec.around, spec.object),
            Action::SubstituteChar => self.change_on_prompt(PromptDelete::CharForward),
            Action::ReplaceChar(ch) => self.replace_char_on_prompt(*ch),
            Action::ToggleCaseChar => self.toggle_case_on_prompt(),
            Action::DeleteCharForward => self.delete_on_prompt(PromptDelete::CharForward),
            Action::DeleteLine => self.delete_on_prompt(PromptDelete::Line),
            Action::DeleteSelection => self.delete_selection(),
            Action::DeleteTextObject(spec) => self.delete_text_object(spec.around, spec.object),
            Action::DeleteToLineEnd => self.delete_on_prompt(PromptDelete::ToLineEnd),
            Action::DeleteToLineStart => self.delete_on_prompt(PromptDelete::ToLineStart),
            Action::DeleteWordBack => self.delete_on_prompt(PromptDelete::WordBack),
            Action::DeleteWordForward => self.delete_on_prompt(PromptDelete::WordForward),
            _ => {},
        }
    }

    fn act_on_search(&mut self, action: &Action)
        requires
            old(self).wf(),
        ensures
            final(self).wf(),
            final(self)@ == old(self)@.search_acted(*action),
    {
        proof {
            reveal(SessionView::search_acted);
        }
        match action {
            Action::SelectSearchMatch { forward } => self.select_search_match(*forward),
            Action::ChangeSearchMatch { forward } => self.change_search_match(*forward),
            Action::DeleteSearchMatch { forward } => self.delete_search_match(*forward),
            Action::SearchStart => self.search_start(false),
            Action::SearchStartBackward => self.search_start(true),
            Action::SearchChar(c) => self.search_char(*c),
            Action::SearchBackspace => self.search_backspace(),
            Action::SearchExecute => self.search_execute(),
            Action::SearchCancel => self.search_cancel(),
            Action::SearchNext => {
                self.resume_last_search();
                let direction = self.shared.search.search_start_direction();
                self.search_in_pane(direction);
            },
            Action::SearchPrevious => {
                self.resume_last_search();
                let direction = self.shared.search.search_start_direction().reversed();
                self.search_in_pane(direction);
            },
            Action::SearchWord { forward } => self.search_word_under_cursor(*forward),
            _ => {},
        }
    }

    fn move_view(&mut self, action: &Action)
        requires
            old(self).wf(),
        ensures
            final(self).wf(),
            final(self)@ == old(self)@.view_moved(*action),
    {
        proof {
            reveal(SessionView::view_moved);
        }
        match action {
            Action::MoveCursor(mv) => {
                self.move_nav_cursor(*mv);
                self.extend_visual();
            },
            Action::MoveCursorN { count, mv } => {
                self.move_nav_cursor_n(*count, *mv);
                self.extend_visual();
            },
            Action::JumpOlder => self.jump_older(),
            Action::JumpNewer => self.jump_newer(),
            Action::ChangeOlder => self.change_older(),
            Action::ChangeNewer => self.change_newer(),
            Action::JumpToPrompt => self.jump_to_prompt(),
            Action::JumpToPreviousPrompt => self.jump_to_previous_prompt(),
            Action::SetMark(mark) => self.set_mark(*mark),
            Action::GotoMark(goto) => self.goto_mark(goto.mark, goto.exact),
            Action::FocusBlock(nav) => self.focus_block(*nav),
            Action::FindChar(find) => self.find_char_asked(*find),
            Action::FindJump(label) => self.find_jump(*label),
            Action::FindCancel => self.clear_find_labels(),
            Action::FindRepeat { reverse } => self.find_again(*reverse),
            Action::QuickSelect => self.enter_quick_select(),
            Action::QuickJump(label) => self.quick_jump(*label),
            Action::QuickCancel => {
                self.shared.quick_select = None;
            },
            Action::ScrollPageUp => {
                let rows: usize = self.view_rows();
                self.scroll_up(rows);
            },
            Action::ScrollPageDown => {
                let rows: usize = self.view_rows();
                self.scroll_down(rows);
            },
            Action::ScrollLineUp => self.scroll_up(1),
            Action::ScrollLineDown => self.scroll_down(1),
            Action::ScrollToTop => self.scroll_to_top(),
            Action::ScrollToBottom => self.scroll_to_bottom(),
            _ => {},
        }
    }

    fn act_on_selection(&mut self, action: &Action, selected: &Option<String>)
        requires
            old(self).wf(),
        ensures
            final(self).wf(),
            final(self)@ == old(self)@.selection_acted(*action, string_view(*selected)),
    {
        proof {
            reveal(SessionView::selection_acted);
        }
        match action {
            Action::SwapVisualEnds => self.swap_visual_ends(),
            Action::RestoreVisual => self.restore_visual(),
            Action::EnterVisual(kind) => self.toggle_visual(*kind),
            Action::SelectParagraph => self.select_paragraph(),
            Action::SelectTextObject(spec) => self.select_text_object(spec.around, spec.object),
            Action::YankSelection => {
                self.copy_selection(selected);
                self.end_visual();
            },
            Action::YankSelectionRegister(register) => {
                self.keep_selection(*register, selected);
                self.end_visual();
            },
            Action::Copy => self.copy_selection(selected),
            Action::Paste => self.emit(Effect::PasteClipboard),
            Action::PasteRegister { register, .. } => self.paste_register(*register),
            Action::YankBlock => self.yank_block_source(),
            Action::ToggleFold => self.toggle_fold(),
            _ => {},
        }
    }

    /// Carry out an action that one pane carries out by itself. `selected` is the text
    /// under the selection.
    pub fn perform(&mut self, action: &Action, selected: &Option<String>)
        requires
            old(self).wf(),
        ensures
            final(self).wf(),
            final(self)@ == old(self)@.performed(*action, string_view(*selected)),
    {
        proof {
            reveal(SessionView::performed);
        }
        match action {
            Action::SendBytes(bytes) => self.send(bytes.as_slice()),
            Action::SwitchMode(mode) => self.switch_mode(*mode),
            Action::OpenUnderCursor => self.open_under_cursor(),
            Action::ForwardToBlock(bytes) => {
                let mut keys: Vec<u8> = Vec::new();
                crate::text::append_bytes(&mut keys, bytes.as_slice());
                assert(keys@ =~= bytes@);
                self.emit(Effect::ForwardToBlock(keys));
            },
            _ => {
                self.edit_prompt(action);
                self.act_on_search(action);
                self.move_view(action);
                self.act_on_selection(action, selected);
            },
        }
    }

    /// Keep track of an action and carry it out. `selected` is the text under the
    /// selection.
    pub fn handle_action(&mut self, action: &Action, selected: &Option<String>)
        requires
            old(self).wf(),
        ensures
            final(self).wf(),
            final(self)@ == old(self)@.acted(*action, string_view(*selected)),
    {
        self.track_change(action);
        match action {
            Action::EnterInsert(at) => self.enter_insert_at(*at),
            Action::RepeatLastChange => self.repeat_last_change(selected),
            _ => self.perform(action, selected),
        }
    }
}

proof fn lemma_insert_mode(s: SessionView)
    ensures
        s.mode_switched(Mode::Insert).state.mode == Some(Mode::Insert),
        s.mode_switched(Mode::Insert).state.nav_cursor is None,
{
    reveal(SessionView::mode_switched);
}

proof fn lemma_left_keeps_the_pane(s: SessionView, old_mode: Mode, new: Mode)
    ensures
        s.mode_left(old_mode, new).state.pane == s.state.pane,
{
}

proof fn lemma_aligned_is_live(s: SessionView)
    requires
        s.live(),
        s.grid().wf(),
    ensures
        s.prompt_aligned().live(),
        s.prompt_aligned().grid().offset() == 0,
{
    let grid = s.grid();
    if grid.offset() > 0 {
        assert(grid.scrolled(0).offset() == 0);
    }
}

proof fn lemma_insert_mode_live(s: SessionView)
    requires
        s.wf(),
        s.live(),
    ensures
        s.mode_switched(Mode::Insert).grid().offset() == 0,
{
    let left = s.mode_left(s.mode(), Mode::Insert);
    lemma_left_keeps_the_pane(s, s.mode(), Mode::Insert);
    lemma_aligned_is_live(left);
    let aligned = left.prompt_aligned();
    assert(s.mode_switched(Mode::Insert) == aligned.without_cursor().redrawn()) by {
        reveal(SessionView::mode_switched);
    }
}

/// However Insert mode is entered, the pane ends up in it, without a Normal-mode cursor
/// and with the live screen in view.
pub proof fn law_insert_mode_shows_the_prompt(s: SessionView, at: InsertAt)
    requires
        s.wf(),
    ensures
        s.mode_switched(Mode::Insert).state.mode == Some(Mode::Insert),
        s.mode_switched(Mode::Insert).state.nav_cursor is None,
        s.live() ==> s.mode_switched(Mode::Insert).grid().offset() == 0,
        s.insert_entered(at).state.mode == Some(Mode::Insert),
        s.insert_entered(at).state.nav_cursor is None,
{
    lemma_insert_mode(s);
    if s.live() {
        lemma_insert_mode_live(s);
    }
    let placed = match at {
        InsertAt::Cursor => s,
        InsertAt::After => s.cursor_moved(CursorMove::Right),
        InsertAt::LineEnd => s.cursor_moved(CursorMove::LineEnd),
    };
    lemma_insert_mode(placed);
    assert(s.insert_entered(at) == placed.mode_switched(Mode::Insert)) by {
        reveal(SessionView::insert_entered);
    }
}

/// Escape in Normal mode puts a search away and leaves the pane as it is, its mode and
/// its cursor included.
pub proof fn law_escape_stays_in_normal_mode(s: SessionView)
    ensures
        s.search_cancelled().state == s.state,
        s.search_cancelled().shared.search.query is None,
{
}

/// What was typed on a visit to Insert mode is what `.` sends again.
pub proof fn law_dot_sends_what_was_typed(s: SessionView, run: Seq<u8>, selected: Option<Seq<char>>)
    requires
        s.state.last_change == Some(ChangeView::Typed(run)),
        s.live(),
    ensures
        s.acted(Action::RepeatLastChange, selected).state.pane->0.outbox
            == s.state.pane->0.outbox + run,
{
    reveal(SessionView::noted);
    reveal(SessionView::change_repeated);
}

/// An edit is kept to be repeated, and to repeat it is to carry it out again.
pub proof fn law_dot_repeats_the_edit(s: SessionView, action: Action, selected: Option<Seq<char>>)
    requires
        is_change(action),
        !begins_insert(action),
        s.at_prompt(),
    ensures
        s.noted(action).state.last_change == Some(ChangeView::Action(action)),
        s.noted(action).acted(Action::RepeatLastChange, selected) == s.noted(action).acted(
            action,
            selected,
        ),
{
    reveal(SessionView::change_repeated);
    reveal(SessionView::noted);
}

/// To leave Normal mode ends a search, whatever mode follows. What was searched for is
/// kept, to be resumed.
pub proof fn law_leaving_normal_mode_ends_the_search(s: SessionView, new: Mode)
    requires
        s.mode() == Mode::Normal,
        new != Mode::Normal,
    ensures
        s.mode_switched(new).shared.search.query is None,
        s.mode_switched(new).shared.search.last == s.shared.search.last,
{
    reveal(SessionView::mode_switched);
}

/// To leave Normal mode is a jump: where the cursor was is recorded to come back to.
pub proof fn law_leaving_normal_mode_is_a_jump(s: SessionView, new: Mode, pos: (usize, usize))
    requires
        s.mode() == Mode::Normal,
        new != Mode::Normal,
        s.live_position() == Some(pos),
    ensures
        s.mode_switched(new).state.jump_list == s.state.jump_list.jumped(pos),
{
    reveal(SessionView::mode_switched);
}

/// An action that nothing is kept track of for.
pub proof fn lemma_noted_not(s: SessionView, action: Action)
    requires
        !begins_insert(action),
        !(action is SwitchMode),
        !is_change(action),
    ensures
        s.noted(action) == s,
{
    reveal(SessionView::noted);
}

/// An action that leaves the prompt line alone.
pub proof fn lemma_prompt_edited_not(s: SessionView, action: Action)
    requires
        !(action is ChangeSurround),
        !(action is DeleteSurround),
        !(action is SurroundTextObject),
        !(action is PromptUndo),
        !(action is PromptRedo),
        !(action is Edit),
        !(action is ChangeLine),
        !(action is ChangeToLineEnd),
        !(action is ChangeToLineStart),
        !(action is ChangeWordBack),
        !(action is ChangeWordForward),
        !(action is ChangeTextObject),
        !(action is SubstituteChar),
        !(action is ReplaceChar),
        !(action is ToggleCaseChar),
        !(action is DeleteCharForward),
        !(action is DeleteLine),
        !(action is DeleteSelection),
        !(action is DeleteTextObject),
        !(action is DeleteToLineEnd),
        !(action is DeleteToLineStart),
        !(action is DeleteWordBack),
        !(action is DeleteWordForward),
    ensures
        s.prompt_edited(action) == s,
{
    reveal(SessionView::prompt_edited);
}

/// An action that is no step of a search.
pub proof fn lemma_search_acted_not(s: SessionView, action: Action)
    requires
        !(action is SelectSearchMatch),
        !(action is ChangeSearchMatch),
        !(action is DeleteSearchMatch),
        !(action is SearchStart),
        !(action is SearchStartBackward),
        !(action is SearchChar),
        !(action is SearchBackspace),
        !(action is SearchExecute),
        !(action is SearchCancel),
        !(action is SearchNext),
        !(action is SearchPrevious),
        !(action is SearchWord),
    ensures
        s.search_acted(action) == s,
{
    reveal(SessionView::search_acted);
}

/// An action that is no motion.
pub proof fn lemma_view_moved_not(s: SessionView, action: Action)
    requires
        !(action is MoveCursor),
        !(action is MoveCursorN),
        !(action is JumpOlder),
        !(action is JumpNewer),
        !(action is ChangeOlder),
        !(action is ChangeNewer),
        !(action is JumpToPrompt),
        !(action is JumpToPreviousPrompt),
        !(action is SetMark),
        !(action is GotoMark),
        !(action is FocusBlock),
        !(action is FindChar),
        !(action is FindJump),
        !(action is FindCancel),
        !(action is FindRepeat),
        !(action is QuickSelect),
        !(action is QuickJump),
        !(action is QuickCancel),
        !(action is ScrollPageUp),
        !(action is ScrollPageDown),
        !(action is ScrollLineUp),
        !(action is ScrollLineDown),
        !(action is ScrollToTop),
        !(action is ScrollToBottom),
    ensures
        s.view_moved(action) == s,
{
    reveal(SessionView::view_moved);
}

/// An action that leaves what is selected alone.
pub proof fn lemma_selection_acted_not(s: SessionView, action: Action, selected: Option<Seq<char>>)
    requires
        !(action is SwapVisualEnds),
        !(action is RestoreVisual),
        !(action is EnterVisual),
        !(action is SelectParagraph),
        !(action is SelectTextObject),
        !(action is YankSelection),
        !(action is YankSelectionRegister),
        !(action is Copy),
        !(action is Paste),
        !(action is PasteRegister),
        !(action is YankBlock),
        !(action is ToggleFold),
    ensures
        s.selection_acted(action, selected) == s,
{
    reveal(SessionView::selection_acted);
}

/// An action that names a command is none of the pane's.
pub proof fn lemma_named_command(s: SessionView, name: String, selected: Option<Seq<char>>)
    ensures
        s.acted(Action::RunCommand(name), selected) == s,
{
    let action = Action::RunCommand(name);
    lemma_noted_not(s, action);
    lemma_prompt_edited_not(s, action);
    lemma_search_acted_not(s, action);
    lemma_view_moved_not(s, action);
    lemma_selection_acted_not(s, action, selected);
    reveal(SessionView::performed);
}

} // verus!
