//! Carrying actions and named commands out.

use vstd::prelude::*;
use crate::app::commands::{find_command, place_before, Command};
use crate::app::{App, AppView, Keymap, ThemeSetting};
use crate::input::{Action, PaneId};
use crate::palette::PaletteMode;
use crate::requests::{FontChange, Request};

verus! {

/// Whether a command is for one pane.
pub open spec fn for_one_pane(command: Command) -> bool {
    match command {
        Command::Block(_)
        | Command::CdRecent
        | Command::ClosePane
        | Command::CopyCwd
        | Command::CopyScrollback
        | Command::ExportBlockSvg
        | Command::ExportBlockText
        | Command::ExportScrollback(_)
        | Command::MuxDetachSession
        | Command::QuickSelect
        | Command::Swoop
        | Command::ToggleFold
        | Command::ToggleMode
        | Command::YankBlock => true,
        _ => false,
    }
}

fn is_for_one_pane(command: Command) -> (r: bool)
    ensures
        r == for_one_pane(command),
{
    match command {
        Command::Block(_)
        | Command::CdRecent
        | Command::ClosePane
        | Command::CopyCwd
        | Command::CopyScrollback
        | Command::ExportBlockSvg
        | Command::ExportBlockText
        | Command::ExportScrollback(_)
        | Command::MuxDetachSession
        | Command::QuickSelect
        | Command::Swoop
        | Command::ToggleFold
        | Command::ToggleMode
        | Command::YankBlock => true,
        _ => false,
    }
}

/// Whether a command is on the tabs, or on how they are laid out.
pub open spec fn on_tabs(command: Command) -> bool {
    match command {
        Command::CloseTab
        | Command::NewTab
        | Command::NextTab
        | Command::PrevTab
        | Command::RecentTab { .. }
        | Command::RenameTab
        | Command::Split(_)
        | Command::TogglePaneZoom => true,
        _ => false,
    }
}

fn is_on_tabs(command: Command) -> (r: bool)
    ensures
        r == on_tabs(command),
{
    match command {
        Command::CloseTab
        | Command::NewTab
        | Command::NextTab
        | Command::PrevTab
        | Command::RecentTab { .. }
        | Command::RenameTab
        | Command::Split(_)
        | Command::TogglePaneZoom => true,
        _ => false,
    }
}

impl App {
    /// Carry out a command for one pane.
    fn run_in_pane(&mut self, command: Command, focused: PaneId)
        requires
            old(self).wf(),
            for_one_pane(command),
        ensures
            final(self).wf(),
            final(self)@ == old(self)@.commanded(command, focused),
    {
        proof {
            reveal(AppView::commanded);
        }
        match command {
            Command::Block(nav) => self.focus_block(nav, focused),
            Command::CdRecent => self.list_recent_dirs(focused),
            Command::ClosePane => self.close_pane(focused),
            Command::CopyCwd => self.copy_pane_cwd(focused),
            Command::CopyScrollback => self.copy_scrollback(focused),
            Command::ExportBlockSvg => self.export_focused_block_svg(focused),
            Command::ExportBlockText => self.export_focused_block_text(focused),
            Command::ExportScrollback(kind) => self.export_scrollback(kind, focused),
            Command::MuxDetachSession => self.detach_session(focused),
            Command::QuickSelect => self.enter_quick_select(focused),
            Command::Swoop => self.open_swoop(focused),
            Command::ToggleFold => self.toggle_folds(focused),
            Command::ToggleMode => self.toggle_mode(focused),
            Command::YankBlock => self.yank_block_source(focused),
            _ => {},
        }
    }

    /// Carry out a command on the tabs and on how they are laid out.
    fn run_on_tabs(&mut self, command: Command, focused: PaneId)
        requires
            old(self).wf(),
            old(self)@.has_room(),
            on_tabs(command),
        ensures
            final(self).wf(),
            final(self)@ == old(self)@.commanded(command, focused),
    {
        proof {
            reveal(AppView::commanded);
        }
        match command {
            Command::CloseTab => self.close_tab(self.tabs.active),
            Command::NewTab => self.new_tab(),
            Command::NextTab => self.cycle_tab(true),
            Command::PrevTab => self.cycle_tab(false),
            Command::RecentTab { forward } => self.recent_tab(forward),
            Command::RenameTab => self.ask_rename(),
            Command::Split(direction) => self.split_pane(direction),
            Command::TogglePaneZoom => self.show_zoom(),
            _ => {},
        }
    }

    /// Carry out a command on the program as a whole.
    fn run_on_program(&mut self, command: Command, focused: PaneId)
        requires
            old(self).wf(),
            !for_one_pane(command),
            !on_tabs(command),
        ensures
            final(self).wf(),
            final(self)@ == old(self)@.commanded(command, focused),
    {
        proof {
            reveal(AppView::commanded);
        }
        match command {
            Command::Focus(dir) => self.ask(Request::FocusNeighbour(dir)),
            Command::MuxAttachRemote => self.open_blank(PaletteMode::MuxAttachRemote),
            Command::MuxKillSession => self.ask(Request::ListSessions { kill: true }),
            Command::MuxListSessions => self.ask(Request::ListSessions { kill: false }),
            Command::MuxNewSession => self.open_blank(PaletteMode::MuxNew),
            Command::OpenSettings => self.ask(Request::OpenSettings),
            Command::Reload => self.reload_later(),
            Command::Search => self.open_search(),
            Command::SelectPane => self.list_panes(),
            Command::ThemeAuto => self.set_theme(ThemeSetting::Auto),
            Command::ThemeDark => self.set_theme(ThemeSetting::Dark),
            Command::ThemeLight => self.set_theme(ThemeSetting::Light),
            Command::ThemeNew => self.ask_theme_name(),
            Command::ToggleRainbowParens => self.toggle_rainbow_parens(),
            Command::ToggleSentenceHighlight => self.toggle_sentence_highlight(),
            _ => {},
        }
    }

    /// Carry a command out.
    pub fn run_named(&mut self, command: Command, focused: PaneId)
        requires
            old(self).wf(),
            old(self)@.has_room(),
        ensures
            final(self).wf(),
            final(self)@ == old(self)@.commanded(command, focused),
    {
        if is_for_one_pane(command) {
            self.run_in_pane(command, focused);
        } else if is_on_tabs(command) {
            self.run_on_tabs(command, focused);
        } else {
            self.run_on_program(command, focused);
        }
    }

    fn toggle_switcher(&mut self, focused: PaneId)
        requires
            old(self).wf(),
            old(self)@.has_room(),
        ensures
            final(self).wf(),
            final(self)@ == old(self)@.palette_toggled(
                old(self)@.commanded(Command::SelectPane, focused),
            ),
    {
        if !self.drop_palette() {
            self.run_named(Command::SelectPane, focused);
            self.redraw();
        }
    }

    /// Do what an action does to the program as a whole, beside what the pane does.
    fn act_on_window(&mut self, action: &Action, focused: PaneId, keymap: &Keymap)
        requires
            old(self).wf(),
            old(self)@.has_room(),
        ensures
            final(self).wf(),
            final(self)@ == old(self)@.window_acted(*action, focused, *keymap),
    {
        proof {
            reveal(AppView::window_acted);
        }
        match action {
            Action::SplitPane(direction) => self.split_pane(*direction),
            Action::ClosePane => self.close_pane(focused),
            Action::CloseOtherPanes => self.close_other_panes(focused),
            Action::ZoomPane => self.toggle_zoom(),
            Action::MoveTabLeft => self.move_tab(true),
            Action::MoveTabRight => self.move_tab(false),
            Action::NewTab => self.new_tab(),
            Action::NextTab => self.cycle_tab(true),
            Action::PrevTab => self.cycle_tab(false),
            Action::GotoTab(n) => self.switch_tab(place_before(*n)),
            Action::CloseTab(which) => {
                let at: usize = match which {
                    Some(n) => place_before(*n),
                    None => self.tabs.active,
                };
                self.close_tab(at);
            },
            Action::FocusPane(dir) => self.ask(Request::FocusNeighbour(*dir)),
            Action::FocusPaneByIndex(n) => self.focus_by_index(place_before(*n)),
            Action::ClosePaneByIndex(n) => self.close_pane_at(place_before(*n)),
            Action::OpenSettings => self.ask(Request::OpenSettings),
            Action::IncreaseFontSize => self.ask(Request::ChangeFont(FontChange::Larger)),
            Action::DecreaseFontSize => self.ask(Request::ChangeFont(FontChange::Smaller)),
            Action::ResetFontSize => self.ask(Request::ChangeFont(FontChange::Reset)),
            Action::TogglePalette => self.toggle_commands(keymap),
            Action::ToggleHistoryPalette => self.toggle_history(),
            Action::TogglePaneSwitcher => self.toggle_switcher(focused),
            Action::ToggleSwoop => self.toggle_swoop(focused),
            _ => {},
        }
    }

    /// Carry out an action that names no command.
    fn carry_out(&mut self, action: &Action, focused: PaneId, keymap: &Keymap)
        requires
            old(self).wf(),
            old(self)@.has_room(),
        ensures
            final(self).wf(),
            final(self)@ == old(self)@.carried_out(*action, focused, *keymap),
    {
        self.act_on_pane(action, focused);
        self.act_on_window(action, focused, keymap);
    }

    /// Run the command named `name`: one of its own, or a window command that the keymap
    /// has under that name.
    pub fn run_command(&mut self, name: &str, focused: PaneId, keymap: &Keymap)
        requires
            old(self).wf(),
            old(self)@.has_room(),
        ensures
            final(self).wf(),
            final(self)@ == old(self)@.command_run(name@, focused, *keymap),
    {
        match find_command(name) {
            Some(command) => self.run_named(command, focused),
            None => match keymap.find(name) {
                Some(action) => self.carry_out(action, focused, keymap),
                None => {},
            },
        }
    }

    /// Carry an action out: what the pane does, what the program as a whole does, or the
    /// command that it names.
    pub fn handle_action(&mut self, action: &Action, focused: PaneId, keymap: &Keymap)
        requires
            old(self).wf(),
            old(self)@.has_room(),
        ensures
            final(self).wf(),
            final(self)@ == old(self)@.acted(*action, focused, *keymap),
    {
        match action {
            Action::RunCommand(name) => {
                self.act_on_pane(action, focused);
                self.run_command(name.as_str(), focused, keymap);
            },
            _ => self.carry_out(action, focused, keymap),
        }
    }
}

} // verus!
