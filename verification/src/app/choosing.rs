//! What choosing in the palette does, and what a key does in it.

use vstd::prelude::*;
use crate::app::palette::{
    is_directory, key_in_palette, names_directory, palette_key, PaletteKey, PaletteKeyView,
};
use crate::app::{App, AppView, Keymap};
use crate::events::{LogicalKey, PhysicalKey};
use crate::input::{Action, PaneId};
use crate::palette::{Palette, PaletteMode, PaletteView};
use crate::requests::{Request, RequestView};
use crate::session::actions::lemma_named_command;

verus! {

/// Whether the palette stays up after the choice: a directory is a step on the way.
pub open spec fn stays_up(palette: PaletteView) -> bool {
    &&& palette.mode == PaletteMode::Files
    &&& palette.chosen() matches Some(path)
    &&& is_directory(path)
}

/// Whether taking a character back leaves the directory instead: none is left.
pub open spec fn steps_out(palette: PaletteView) -> bool {
    palette.mode == PaletteMode::Files && palette.query.len() == 0
}

impl PaletteView {
    /// What a key leaves of the palette.
    #[verifier::opaque]
    pub open spec fn keyed(self, key: PaletteKeyView) -> PaletteView {
        match key {
            PaletteKeyView::Undo => self.query_undone(),
            PaletteKeyView::Redo => self.query_redone(),
            PaletteKeyView::Up => self.moved_up(),
            PaletteKeyView::Down => self.moved_down(),
            PaletteKeyView::Older => self.recalled_older(),
            PaletteKeyView::Newer => self.recalled_newer(),
            PaletteKeyView::Erase => self.erased(),
            PaletteKeyView::Type(text) => self.all_typed(text, text.len() as int),
            PaletteKeyView::Cancel => self.closed(),
            PaletteKeyView::Confirm => if stays_up(self) {
                self
            } else {
                self.closed()
            },
            PaletteKeyView::Jump(at) => PaletteView { selected: at, ..self }.closed(),
            PaletteKeyView::Other => self,
        }
    }
}

impl AppView {
    /// What the choice in the palette does.
    #[verifier::opaque]
    pub open spec fn confirmed(
        self,
        palette: PaletteView,
        focused: PaneId,
        keymap: Keymap,
    ) -> AppView {
        let me = self.query_recorded(palette.query);
        match (palette.mode, palette.chosen()) {
            (PaletteMode::MuxNew, _) => me.session_started(palette.query, focused),
            (PaletteMode::MuxAttachRemote, _) => me.attached_elsewhere(palette.query),
            (PaletteMode::Pick, choice) => me.picked(choice),
            (_, None) => me,
            (PaletteMode::Commands, Some(name)) => me.command_run(name, focused, keymap),
            (PaletteMode::History, Some(line)) => me.text_sent(focused, line),
            (PaletteMode::RecentDirs, Some(dir)) => me.dir_changed(focused, dir),
            (PaletteMode::Panes, Some(number)) => me.numbered_pane_shown(number),
            (PaletteMode::Swoop, Some(row)) => me.swoop_confirmed(row, focused),
            (PaletteMode::MuxSessions, Some(line)) => me.session_used(line, false),
            (PaletteMode::MuxKill, Some(line)) => me.session_used(line, true),
            (PaletteMode::Files, Some(path)) => me.file_used(path),
        }
    }

    /// With the palette put away without a choice.
    #[verifier::opaque]
    pub open spec fn palette_cancelled(self, palette: PaletteView, focused: PaneId) -> AppView {
        let me = match palette.mode {
            PaletteMode::Swoop => self.swoop_cancelled(focused),
            PaletteMode::Pick => self.picked(None),
            _ => self,
        };
        me.palette_gone().redrawn()
    }

    /// What a key in the palette does.
    #[verifier::opaque]
    pub open spec fn palette_keyed(
        self,
        palette: PaletteView,
        key: PaletteKeyView,
        focused: PaneId,
        keymap: Keymap,
    ) -> AppView {
        match key {
            PaletteKeyView::Undo | PaletteKeyView::Redo => self,
            PaletteKeyView::Cancel => self.palette_cancelled(palette, focused),
            PaletteKeyView::Confirm => {
                let me = self.confirmed(palette, focused, keymap);
                if stays_up(palette) {
                    me.redrawn()
                } else {
                    me.palette_gone().redrawn()
                }
            },
            PaletteKeyView::Jump(at) => self.confirmed(
                PaletteView { selected: at, ..palette },
                focused,
                keymap,
            ).palette_gone().redrawn(),
            PaletteKeyView::Erase => if steps_out(palette) {
                self.asked(RequestView::ListFilesAbove)
            } else {
                self.previewed_if(palette.erased(), focused)
            },
            _ => self.previewed_if(palette.keyed(key), focused),
        }
    }
}

impl App {
    fn confirm_chosen(
        &mut self,
        mode: PaletteMode,
        action: &str,
        focused: PaneId,
        keymap: &Keymap,
    )
        requires
            old(self).wf(),
            old(self)@.has_room(),
        ensures
            final(self).wf(),
            mode == PaletteMode::Commands ==> final(self)@ == old(self)@.command_run(
                action@,
                focused,
                *keymap,
            ),
            mode == PaletteMode::History ==> final(self)@ == old(self)@.text_sent(
                focused,
                action@,
            ),
            mode == PaletteMode::RecentDirs ==> final(self)@ == old(self)@.dir_changed(
                focused,
                action@,
            ),
            mode == PaletteMode::Panes ==> final(self)@ == old(self)@.numbered_pane_shown(action@),
            mode == PaletteMode::Swoop ==> final(self)@ == old(self)@.swoop_confirmed(
                action@,
                focused,
            ),
            mode == PaletteMode::MuxSessions ==> final(self)@ == old(self)@.session_used(
                action@,
                false,
            ),
            mode == PaletteMode::MuxKill ==> final(self)@ == old(self)@.session_used(action@, true),
            mode == PaletteMode::Files ==> final(self)@ == old(self)@.file_used(action@),
    {
        match mode {
            PaletteMode::Commands => self.run_command(action, focused, keymap),
            PaletteMode::History => self.type_text(focused, action),
            PaletteMode::RecentDirs => self.change_dir(focused, action),
            PaletteMode::Panes => self.show_chosen_pane(action),
            PaletteMode::Swoop => self.confirm_swoop(action, focused),
            PaletteMode::MuxSessions => self.use_session(action, false),
            PaletteMode::MuxKill => self.use_session(action, true),
            PaletteMode::Files => self.use_file(action),
            _ => {},
        }
    }

    /// Do what the choice in the palette stands for.
    pub fn confirm_palette_selection(
        &mut self,
        palette: &Palette,
        focused: PaneId,
        keymap: &Keymap,
    )
        requires
            old(self).wf(),
            old(self)@.has_room(),
            palette.wf(),
        ensures
            final(self).wf(),
            final(self)@ == old(self)@.confirmed(palette@, focused, *keymap),
    {
        proof {
            reveal(AppView::confirmed);
        }
        let query = palette.query_text();
        self.record_palette_query(query.as_str());
        let chosen = palette.selected_action();
        match palette.mode {
            PaletteMode::MuxNew => self.start_session(query.as_str(), focused),
            PaletteMode::MuxAttachRemote => self.attach_elsewhere(query.as_str()),
            PaletteMode::Pick => self.answer_page_pick(chosen),
            _ => if let Some(action) = chosen {
                self.confirm_chosen(palette.mode, action.as_str(), focused, keymap);
            },
        }
    }

    fn cancel_palette(&mut self, palette: &Palette, focused: PaneId)
        requires
            old(self).wf(),
        ensures
            final(self).wf(),
            final(self)@ == old(self)@.palette_cancelled(palette@, focused),
    {
        proof {
            reveal(AppView::palette_cancelled);
        }
        match palette.mode {
            PaletteMode::Swoop => self.cancel_swoop(focused),
            PaletteMode::Pick => self.answer_page_pick(None),
            _ => {},
        }
        self.put_away();
    }

    fn change_query(&mut self, palette: &mut Palette, key: PaletteKey, focused: PaneId)
        requires
            old(self).wf(),
            old(palette).wf(),
            !(key@ is Cancel || key@ is Confirm || key@ is Jump),
        ensures
            final(self).wf(),
            final(palette).wf(),
            final(palette)@ == old(palette)@.keyed(key@),
            forall|keymap: Keymap|
                final(self)@ == #[trigger] old(self)@.palette_keyed(
                    old(palette)@,
                    key@,
                    focused,
                    keymap,
                ),
    {
        proof {
            reveal(PaletteView::keyed);
            reveal(AppView::palette_keyed);
        }
        match key {
            PaletteKey::Undo => {
                palette.undo();
                return;
            },
            PaletteKey::Redo => {
                palette.redo();
                return;
            },
            PaletteKey::Erase => {
                if palette.mode == PaletteMode::Files && palette.query.len() == 0 {
                    self.ask(Request::ListFilesAbove);
                    return;
                }
                palette.pop_char();
            },
            PaletteKey::Up => palette.move_up(),
            PaletteKey::Down => palette.move_down(),
            PaletteKey::Older => palette.history_prev(),
            PaletteKey::Newer => palette.history_next(),
            PaletteKey::Type(text) => palette.push_text(text.as_str()),
            _ => {},
        }
        self.preview_if(palette, focused);
    }

    fn close_on_choice(&mut self, palette: &mut Palette, focused: PaneId, keymap: &Keymap)
        requires
            old(self).wf(),
            old(self)@.has_room(),
            old(palette).wf(),
        ensures
            final(self).wf(),
            final(palette).wf(),
            final(palette)@ == old(palette)@.closed(),
            final(self)@ == old(self)@.confirmed(
                old(palette)@,
                focused,
                *keymap,
            ).palette_gone().redrawn(),
    {
        self.confirm_palette_selection(palette, focused, keymap);
        palette.close();
        self.put_away();
    }

    /// Do what a key does in the palette.
    pub fn handle_palette_input(
        &mut self,
        palette: &mut Palette,
        key: &LogicalKey,
        physical: PhysicalKey,
        focused: PaneId,
        keymap: &Keymap,
    )
        requires
            old(self).wf(),
            old(self)@.has_room(),
            old(palette).wf(),
        ensures
            final(self).wf(),
            final(palette).wf(),
            ({
                let step = palette_key(
                    old(palette)@,
                    key@,
                    physical,
                    old(self)@.window.modifiers,
                    *keymap,
                );
                &&& final(palette)@ == old(palette)@.keyed(step)
                &&& final(self)@ == old(self)@.palette_keyed(
                    old(palette)@,
                    step,
                    focused,
                    *keymap,
                )
            }),
    {
        let step = key_in_palette(palette, key, physical, self.window.modifiers, keymap);
        match step {
            PaletteKey::Cancel => {
                proof {
                    reveal(PaletteView::keyed);
                    reveal(AppView::palette_keyed);
                }
                self.cancel_palette(palette, focused);
                palette.close();
            },
            PaletteKey::Confirm => {
                proof {
                    reveal(PaletteView::keyed);
                    reveal(AppView::palette_keyed);
                }
                let stays = match palette.selected_action() {
                    Some(path) => palette.mode == PaletteMode::Files && names_directory(
                        path.as_str(),
                    ),
                    None => false,
                };
                if stays {
                    self.confirm_palette_selection(palette, focused, keymap);
                    self.redraw();
                } else {
                    self.close_on_choice(palette, focused, keymap);
                }
            },
            PaletteKey::Jump(at) => {
                proof {
                    reveal(PaletteView::keyed);
                    reveal(AppView::palette_keyed);
                }
                palette.selected = at;
                self.close_on_choice(palette, focused, keymap);
            },
            _ => self.change_query(palette, step, focused),
        }
    }
}

/// A palette put away with Escape leaves nothing chosen: none is shown any more.
pub proof fn law_escape_puts_the_palette_away(
    app: AppView,
    palette: PaletteView,
    focused: PaneId,
    keymap: Keymap,
)
    ensures
        !palette.keyed(PaletteKeyView::Cancel).active,
        app.palette_keyed(palette, PaletteKeyView::Cancel, focused, keymap).palette is None,
{
    reveal(PaletteView::keyed);
    reveal(AppView::palette_keyed);
    reveal(AppView::palette_cancelled);
}

proof fn lemma_named_command_in_pane(app: AppView, name: String, focused: PaneId)
    requires
        app.panes.dom().contains(focused.0),
    ensures
        app.pane_acted(Action::RunCommand(name), focused) == app,
{
    lemma_named_command(app.session(focused), name, app.selected());
    assert(app.panes.insert(focused.0, app.panes[focused.0]) =~= app.panes);
}

/// A command does the same from the palette as from its key, but that what was typed to
/// find it is remembered.
pub proof fn law_the_palette_runs_commands_as_keys_do(
    app: AppView,
    palette: PaletteView,
    name: String,
    focused: PaneId,
    keymap: Keymap,
)
    requires
        app.panes.dom().contains(focused.0),
        palette.mode == PaletteMode::Commands,
        palette.chosen() == Some(name@),
    ensures
        app.confirmed(palette, focused, keymap) == app.query_recorded(palette.query).acted(
            Action::RunCommand(name),
            focused,
            keymap,
        ),
{
    let me = app.query_recorded(palette.query);
    assert(me.panes == app.panes);
    lemma_named_command_in_pane(me, name, focused);
    assert(app.confirmed(palette, focused, keymap) == me.command_run(name@, focused, keymap)) by {
        reveal(AppView::confirmed);
    }
}

} // verus!
