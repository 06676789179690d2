//! The labels of a character search and of quick select, scrolling, and what is done
//! with blocks.

use vstd::prelude::*;
use crate::grid::Grid;
use crate::input::FindChar;
use crate::navigation::quick_select::{
    block_at, block_index, find_label, jump_lands, jump_offset, jump_to_block, label_named,
    label_order, labelled_rows, labels_on, nth_label, generate_quick_labels, CellLabel,
};
use crate::navigation::search::string_view;
use crate::navigation::vim::{
    find_char_targets, find_landings, line_chars, nav_line_end, positions, printed_line, reach,
};
use crate::pointer::clipboard::{confirmation, copy_confirmation};
use crate::session::{
    Effect, EffectView, NoticeKind, Session, SessionView, SharedView, StateView,
};
use crate::text::{append_str, least, min_of, string_of};
use crate::words::{find_char, found_char};

verus! {

broadcast use {
    Grid::lemma_bounds,
    Grid::lemma_scrolled,
    vstd::std_specs::hash::group_hash_axioms,
};

/// A label on a cell.
pub open spec fn label_at(pos: (int, int), label: char) -> CellLabel {
    CellLabel { col: pos.1 as usize, label, row: pos.0 as usize }
}

/// A label for each place, in label order, as far as there are labels.
pub open spec fn labelled(places: Seq<(int, int)>) -> Seq<CellLabel> {
    Seq::new(
        least(places.len() as int, label_order().len() as int) as nat,
        |i: int| label_at(places[i], label_order()[i]),
    )
}

fn cell_label(pos: (usize, usize), label: char) -> (r: CellLabel)
    ensures
        r == label_at((pos.0 as int, pos.1 as int), label),
{
    CellLabel { col: pos.1, label, row: pos.0 }
}

fn label_places(places: &Vec<(usize, usize)>) -> (labels: Vec<CellLabel>)
    ensures
        labels@ == labelled(positions(places@)),
{
    let mut labels: Vec<CellLabel> = Vec::new();
    let mut i: usize = 0;
    while i < places.len()
        invariant
            i <= places@.len(),
            labels@ == labelled(positions(places@)).take(
                least(i as int, label_order().len() as int),
            ),
        decreases places@.len() - i,
    {
        let ghost all = labelled(positions(places@));
        if let Some(label) = nth_label(i) {
            let pos: (usize, usize) = places[i];
            assert(positions(places@)[i as int] == (pos.0 as int, pos.1 as int));
            labels.push(cell_label(pos, label));
            assert(all.take(i + 1) =~= all.take(i as int).push(all[i as int]));
        }
        i = i + 1;
    }
    assert(labelled(positions(places@)).take(
        least(i as int, label_order().len() as int),
    ) =~= labelled(positions(places@)));
    labels
}

impl SessionView {
    /// With the labels of a character search up, or not.
    pub open spec fn with_labels(self, labels: Option<Seq<CellLabel>>) -> SessionView {
        SessionView { shared: SharedView { find_labels: labels, ..self.shared }, ..self }
    }

    /// With the cursor on a cell of the view, and a Visual selection extended to it.
    pub open spec fn cursor_put(self, pos: (usize, usize)) -> SessionView {
        self.with_cursor(pos).extended().redrawn()
    }

    /// The landing spots of a character search on screen.
    pub open spec fn landings(self, find: FindChar) -> Seq<(int, int)> {
        let grid = self.grid();
        find_landings(
            grid,
            find,
            (least(self.cursor().0 as int, grid.height() - 1), self.cursor().1 as int),
        )
    }

    /// After `f`, `F`, `t` or `T` and its character: on the one landing spot, or with a
    /// label on each.
    pub open spec fn char_sought(self, find: FindChar) -> SessionView {
        let s = self.with_labels(None);
        if !s.live() || s.landings(find).len() == 0 {
            s
        } else if s.landings(find).len() == 1 {
            s.cursor_put(crate::session::search::pos_of(s.landings(find)[0]))
        } else {
            s.with_labels(Some(labelled(s.landings(find)))).redrawn()
        }
    }

    /// Whether a character search puts labels up.
    pub open spec fn labels_needed(self, find: FindChar) -> bool {
        self.live() && self.landings(find).len() > 1
    }

    /// After a label is picked.
    pub open spec fn label_picked(self, label: char) -> SessionView {
        let s = self.with_labels(None);
        match self.shared.find_labels {
            Some(labels) => match find_label(labels, label, 0) {
                Some(l) => s.jump_pushed().cursor_put((l.row, l.col)).redrawn(),
                None => s.redrawn(),
            },
            None => s.redrawn(),
        }
    }

    /// With the labels of a character search down.
    pub open spec fn labels_cleared(self) -> SessionView {
        if self.shared.find_labels is Some {
            self.with_labels(None).redrawn()
        } else {
            self
        }
    }

    /// After a character search on the cursor's line.
    pub open spec fn char_found(self, find: FindChar) -> SessionView {
        if !self.live() {
            self
        } else {
            let row = least(self.cursor().0 as int, self.grid().height() - 1);
            match found_char(printed_line(self.grid(), row), self.cursor().1 as int, find) {
                Some(target) => self.cursor_put(
                    (row as usize, least(target, reach(self.grid(), row)) as usize),
                ),
                None => self,
            }
        }
    }

    /// With labels on the blocks in view.
    pub open spec fn quick_entered(self) -> SessionView {
        let labels = match self.state.pane {
            Some(pane) => {
                let rows = labelled_rows(pane.grid, pane.offsets, pane.offsets.len() as int);
                if rows.len() > 0 {
                    Some(labels_on(rows))
                } else {
                    None
                }
            },
            None => None,
        };
        SessionView { shared: SharedView { quick_select: labels, dirty: true, ..self.shared }, ..self }
    }

    /// After a block's label is picked.
    pub open spec fn quick_jumped(self, label: char) -> SessionView {
        let s = SessionView { shared: SharedView { quick_select: None, ..self.shared }, ..self };
        match (self.shared.quick_select, self.state.pane) {
            (Some(labels), Some(pane)) => match find_label(labels, label, 0) {
                Some(l) if jump_lands(pane.grid, pane.offsets, l.row as int) => s.with_grid(
                    pane.grid.scrolled(jump_offset(pane.grid, pane.offsets, l.row as int)),
                ).redrawn(),
                _ => s,
            },
            _ => s,
        }
    }

    /// With the view scrolled back by `offset` rows.
    pub open spec fn scrolled_to(self, offset: int) -> SessionView {
        self.with_grid(self.grid().scrolled(offset)).redrawn()
    }

    /// The block that the view is at.
    pub open spec fn block_here(self) -> Option<int> {
        match self.state.pane {
            Some(pane) => {
                let i = block_index(pane.offsets, pane.grid.offset(), pane.offsets.len() as int);
                if i >= 0 {
                    Some(i)
                } else {
                    None
                }
            },
            None => None,
        }
    }

    /// With a block folded that was not, or unfolded that was.
    pub open spec fn fold_toggled(self) -> SessionView {
        match self.block_here() {
            Some(i) => {
                let block = i as usize;
                if self.state.folded.contains(block) {
                    SessionView {
                        state: StateView { folded: self.state.folded.remove(block), ..self.state },
                        ..self
                    }.with_effect(EffectView::UnfoldBlock(self.id, block)).redrawn()
                } else {
                    SessionView {
                        state: StateView { folded: self.state.folded.insert(block), ..self.state },
                        ..self
                    }.with_effect(EffectView::FoldBlock(self.id, block)).redrawn()
                }
            },
            None => self,
        }
    }

    /// With what the block the view is at printed to be copied.
    pub open spec fn block_yanked(self) -> SessionView {
        match (self.state.pane, self.block_here()) {
            (Some(pane), Some(i)) => if i < pane.blocks.len() && pane.blocks[i].text.len() > 0 {
                self.with_effect(
                    EffectView::Copy {
                        text: pane.blocks[i].text,
                        done: "Copied to clipboard"@,
                        failed: None,
                    },
                )
            } else {
                self
            },
            _ => self,
        }
    }

    /// With the command of the block the view is at, and what it printed, to be copied.
    pub open spec fn block_exported(self) -> SessionView {
        match (self.state.pane, self.block_here()) {
            (Some(pane), Some(i)) if i < pane.blocks.len() => self.with_effect(
                EffectView::Copy {
                    text: "$ "@ + pane.blocks[i].command.push('\n') + pane.blocks[i].text,
                    done: "Copied block text to clipboard"@,
                    failed: Some("Could not copy to clipboard"@),
                },
            ),
            (Some(_), _) => self.faulted("No block content to export"@),
            _ => self,
        }
    }

    /// With the selected text `text`, if any, to be copied.
    pub open spec fn selection_copied(self, text: Option<Seq<char>>) -> SessionView {
        match text {
            Some(text) => self.with_effect(
                EffectView::Copy { text, done: confirmation(text), failed: None },
            ),
            None => self,
        }
    }

    /// With the selected text `text`, if any, in a register.
    pub open spec fn selection_kept(self, register: char, text: Option<Seq<char>>) -> SessionView {
        match text {
            Some(t) => {
                let s = SessionView {
                    shared: SharedView {
                        registers: self.shared.registers.insert(register as u32, t),
                        ..self.shared
                    },
                    ..self
                };
                if register == '+' || register == '*' || register == '"' {
                    s.selection_copied(text)
                } else {
                    s.notified("Yanked into register \""@.push(register), NoticeKind::Info)
                }
            },
            None => self,
        }
    }

    /// With a register's text pasted, or the clipboard's to be.
    pub open spec fn register_pasted(self, register: char) -> SessionView {
        if register == '+' || register == '*' {
            self.with_effect(EffectView::PasteClipboard)
        } else if self.shared.registers.contains_key(register as u32) {
            self.text_pasted(self.shared.registers[register as u32])
        } else {
            self
        }
    }
}

impl Session {
    /// Put the cursor on a cell of the view, and extend a Visual selection to it.
    fn move_nav_cursor_to(&mut self, pos: (usize, usize))
        requires
            old(self).wf(),
        ensures
            final(self).wf(),
            final(self)@ == old(self)@.cursor_put(pos),
    {
        self.state.nav_cursor = Some(pos);
        self.extend_visual();
        self.shared.dirty = true;
    }

    /// `f`, `F`, `t` and `T`: go to the character when there is one landing spot on
    /// screen, else put a label on each. Returns whether labels are up.
    pub fn find_char_overlay(&mut self, find: FindChar) -> (r: bool)
        requires
            old(self).wf(),
        ensures
            final(self).wf(),
            final(self)@ == old(self)@.char_sought(find),
            r == old(self)@.labels_needed(find),
    {
        self.shared.find_labels = None;
        let stored = self.state.nav_cursor;
        let targets = match &self.state.pane {
            Some(pane) => {
                let (row, col): (usize, usize) = match stored {
                    Some(pos) => pos,
                    None => pane.grid.cursor(),
                };
                let row: usize = min_of(row, pane.grid.rows() - 1);
                find_char_targets(&pane.grid, row, col, find)
            },
            None => {
                return false;
            },
        };
        assert(positions(targets@).len() == targets@.len());
        if targets.len() == 0 {
            return false;
        }
        if targets.len() == 1 {
            let pos: (usize, usize) = targets[0];
            assert(positions(targets@)[0] == (pos.0 as int, pos.1 as int));
            self.move_nav_cursor_to(pos);
            return false;
        }
        self.shared.find_labels = Some(label_places(&targets));
        self.shared.dirty = true;
        true
    }

    /// Go to the label that was picked, and take the labels down. Where the jump came
    /// from is recorded.
    pub fn find_jump(&mut self, label: char)
        requires
            old(self).wf(),
        ensures
            final(self).wf(),
            final(self)@ == old(self)@.label_picked(label),
    {
        let target = match &self.shared.find_labels {
            Some(labels) => label_named(labels, label),
            None => None,
        };
        self.shared.find_labels = None;
        if let Some(l) = target {
            self.push_jump();
            self.move_nav_cursor_to((l.row, l.col));
        }
        self.shared.dirty = true;
    }

    /// Take the labels of a character search down.
    pub fn clear_find_labels(&mut self)
        requires
            old(self).wf(),
        ensures
            final(self).wf(),
            final(self)@ == old(self)@.labels_cleared(),
    {
        if self.shared.find_labels.is_some() {
            self.shared.find_labels = None;
            self.shared.dirty = true;
        }
    }

    /// Go to a character on the cursor's line.
    pub fn find_char_move(&mut self, find: FindChar)
        requires
            old(self).wf(),
        ensures
            final(self).wf(),
            final(self)@ == old(self)@.char_found(find),
    {
        let stored = self.state.nav_cursor;
        let target = match &self.state.pane {
            Some(pane) => {
                let (row, col): (usize, usize) = match stored {
                    Some(pos) => pos,
                    None => pane.grid.cursor(),
                };
                let row: usize = min_of(row, pane.grid.rows() - 1);
                match find_char(&line_chars(&pane.grid, row), col, find) {
                    Some(c) => Some((row, min_of(c, nav_line_end(&pane.grid, row)))),
                    None => None,
                }
            },
            None => None,
        };
        if let Some(pos) = target {
            self.move_nav_cursor_to(pos);
        }
    }

    /// Put labels on the blocks in view.
    pub fn enter_quick_select(&mut self)
        requires
            old(self).wf(),
        ensures
            final(self).wf(),
            final(self)@ == old(self)@.quick_entered(),
    {
        let labels = match &self.state.pane {
            Some(pane) => generate_quick_labels(&pane.grid, &pane.offsets),
            None => None,
        };
        self.shared.quick_select = labels;
        self.shared.dirty = true;
    }

    /// Go to the block whose label was picked, and take the labels down.
    pub fn quick_jump(&mut self, label: char)
        requires
            old(self).wf(),
        ensures
            final(self).wf(),
            final(self)@ == old(self)@.quick_jumped(label),
    {
        let target = match &self.shared.quick_select {
            Some(labels) => label_named(labels, label),
            None => None,
        };
        self.shared.quick_select = None;
        if let Some(l) = target {
            if let Some(pane) = &mut self.state.pane {
                let ghost before = pane.grid;
                let landed: bool = jump_to_block(&mut pane.grid, &pane.offsets, l.row);
                if landed {
                    self.shared.dirty = true;
                } else {
                    assert(pane.grid == before);
                }
            }
        }
    }

    /// Scroll `lines` rows further back.
    pub fn scroll_up(&mut self, lines: usize)
        requires
            old(self).wf(),
        ensures
            final(self).wf(),
            final(self)@ == old(self)@.scrolled_to(old(self)@.grid().offset() + lines),
    {
        if let Some(pane) = &mut self.state.pane {
            pane.grid.scroll_up_history(lines);
        }
        self.shared.dirty = true;
    }

    /// Scroll `lines` rows toward the screen.
    pub fn scroll_down(&mut self, lines: usize)
        requires
            old(self).wf(),
        ensures
            final(self).wf(),
            final(self)@ == old(self)@.scrolled_to(
                crate::text::minus(old(self)@.grid().offset(), lines as int),
            ),
    {
        if let Some(pane) = &mut self.state.pane {
            pane.grid.scroll_down_history(lines);
        }
        self.shared.dirty = true;
    }

    /// How many rows the view has; none when no program runs.
    pub fn view_rows(&self) -> (r: usize)
        requires
            self.wf(),
        ensures
            self@.live() ==> r == self@.grid().height(),
    {
        match &self.state.pane {
            Some(pane) => pane.grid.rows(),
            None => 0,
        }
    }

    /// Scroll to the oldest row.
    pub fn scroll_to_top(&mut self)
        requires
            old(self).wf(),
        ensures
            final(self).wf(),
            final(self)@ == old(self)@.scrolled_to(old(self)@.grid().history()),
    {
        if let Some(pane) = &mut self.state.pane {
            let all: usize = pane.grid.scrollback_len();
            pane.grid.set_scroll_offset(all);
        }
        self.shared.dirty = true;
    }

    /// Scroll to the screen.
    pub fn scroll_to_bottom(&mut self)
        requires
            old(self).wf(),
        ensures
            final(self).wf(),
            final(self)@ == old(self)@.scrolled_to(0),
    {
        if let Some(pane) = &mut self.state.pane {
            pane.grid.set_scroll_offset(0);
        }
        self.shared.dirty = true;
    }

    /// The block that the view is at.
    pub(crate) fn current_block(&self) -> (r: Option<usize>)
        requires
            self.wf(),
        ensures
            match r {
                Some(i) => self@.block_here() == Some(i as int),
                None => self@.block_here() is None,
            },
    {
        match &self.state.pane {
            Some(pane) => block_at(&pane.offsets, pane.grid.scroll_offset()),
            None => None,
        }
    }

    /// Fold the block that the view is at, or unfold it.
    pub fn toggle_fold(&mut self)
        requires
            old(self).wf(),
        ensures
            final(self).wf(),
            final(self)@ == old(self)@.fold_toggled(),
    {
        if let Some(block) = self.current_block() {
            if self.state.folded.contains(&block) {
                self.state.folded.remove(&block);
                let pane = self.id;
                self.emit(Effect::UnfoldBlock(pane, block));
            } else {
                self.state.folded.insert(block);
                let pane = self.id;
                self.emit(Effect::FoldBlock(pane, block));
            }
            self.shared.dirty = true;
        }
    }

    /// Whether a block is folded.
    pub fn is_block_folded(&self, block: usize) -> (r: bool)
        ensures
            r == self@.state.folded.contains(block),
    {
        self.state.folded.contains(&block)
    }

    /// Copy what the block that the view is at printed.
    pub fn yank_block_source(&mut self)
        requires
            old(self).wf(),
        ensures
            final(self).wf(),
            final(self)@ == old(self)@.block_yanked(),
    {
        let text = match (&self.state.pane, self.current_block()) {
            (Some(pane), Some(i)) => {
                if i < pane.blocks.len() {
                    assert(self@.state.pane->0.blocks[i as int] == pane.blocks@[i as int]@);
                    Some(pane.blocks[i].text.clone())
                } else {
                    None
                }
            },
            _ => None,
        };
        if let Some(text) = text {
            let empty: bool = text.as_str().is_empty();
            if !empty {
                self.emit(
                    Effect::Copy { text, done: "Copied to clipboard".to_owned(), failed: None },
                );
            }
        }
    }

    /// Copy the command of the block that the view is at, and what it printed.
    pub fn export_focused_block_text(&mut self)
        requires
            old(self).wf(),
        ensures
            final(self).wf(),
            final(self)@ == old(self)@.block_exported(),
    {
        if self.state.pane.is_none() {
            return;
        }
        let text = match (&self.state.pane, self.current_block()) {
            (Some(pane), Some(i)) => {
                if i < pane.blocks.len() {
                    assert(self@.state.pane->0.blocks[i as int] == pane.blocks@[i as int]@);
                    let block = &pane.blocks[i];
                    let mut out: Vec<char> = Vec::new();
                    append_str(&mut out, "$ ");
                    append_str(&mut out, block.command.as_str());
                    out.push('\n');
                    append_str(&mut out, block.text.as_str());
                    assert(out@ =~= "$ "@ + block@.command.push('\n') + block@.text);
                    Some(string_of(&out))
                } else {
                    None
                }
            },
            _ => None,
        };
        match text {
            Some(text) => self.emit(
                Effect::Copy {
                    text,
                    done: "Copied block text to clipboard".to_owned(),
                    failed: Some("Could not copy to clipboard".to_owned()),
                },
            ),
            None => self.set_error("No block content to export"),
        }
    }

    /// Copy the selected text, if any.
    pub fn copy_selection(&mut self, text: &Option<String>)
        requires
            old(self).wf(),
        ensures
            final(self).wf(),
            final(self)@ == old(self)@.selection_copied(string_view(*text)),
    {
        if let Some(text) = text {
            self.emit(
                Effect::Copy { text: text.clone(), done: copy_confirmation(text), failed: None },
            );
        }
    }

    /// Keep the selected text, if any, in a register; the clipboard's registers go to the
    /// clipboard too.
    pub fn keep_selection(&mut self, register: char, text: &Option<String>)
        requires
            old(self).wf(),
        ensures
            final(self).wf(),
            final(self)@ == old(self)@.selection_kept(register, string_view(*text)),
    {
        if let Some(t) = text {
            let ghost before = self.shared.registers@;
            self.shared.registers.insert(register as u32, t.clone());
            assert(crate::session::register_texts(self.shared.registers@)
                =~= crate::session::register_texts(before).insert(register as u32, t@));
            if register == '+' || register == '*' || register == '"' {
                self.copy_selection(text);
            } else {
                let mut message: Vec<char> = Vec::new();
                append_str(&mut message, "Yanked into register \"");
                message.push(register);
                assert(message@ =~= "Yanked into register \""@.push(register));
                let message = string_of(&message);
                self.set_notice(&message);
            }
        }
    }

    /// Paste a register's text; the clipboard's registers are read from the clipboard.
    pub fn paste_register(&mut self, register: char)
        requires
            old(self).wf(),
        ensures
            final(self).wf(),
            final(self)@ == old(self)@.register_pasted(register),
    {
        if register == '+' || register == '*' {
            self.emit(Effect::PasteClipboard);
            return;
        }
        let key: u32 = register as u32;
        let text = match self.shared.registers.get(&key) {
            Some(text) => Some(text.clone()),
            None => None,
        };
        if let Some(text) = text {
            self.paste_text(&text);
        }
    }
}

/// What was kept in a register is what is pasted from it.
pub proof fn law_a_register_gives_back_what_was_kept(
    s: SessionView,
    register: char,
    text: Seq<char>,
)
    requires
        register != '+',
        register != '*',
    ensures
        s.selection_kept(register, Some(text)).register_pasted(register)
            == s.selection_kept(register, Some(text)).text_pasted(text),
{
}

/// To fold a block and fold it again leaves it as it was.
pub proof fn law_folding_twice_returns(s: SessionView)
    ensures
        s.fold_toggled().fold_toggled().state == s.state,
{
    if let Some(i) = s.block_here() {
        let block = i as usize;
        let once = s.fold_toggled();
        assert(once.block_here() == s.block_here());
        if s.state.folded.contains(block) {
            assert(s.state.folded.remove(block).insert(block) =~= s.state.folded);
        } else {
            assert(s.state.folded.insert(block).remove(block) =~= s.state.folded);
        }
    }
}

} // verus!
