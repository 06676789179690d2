//! What actions and named commands do to the program as a whole.

use vstd::prelude::*;
use crate::app::palette::{plain_entries, recent_dirs};
use crate::app::{
    copy_option, ids_below, lemma_put_back, lemma_session, lemma_with_session, phrase, App,
    AppView, Config, Keymap, ThemeSetting, ThemeView, WindowState,
};
use crate::events::texts;
use crate::grid::Grid;
use crate::input::{Action, BlockNav, Direction, FocusDir, Key, Mode, PaneId};
use crate::navigation::export::{export_scrollback_plain, plain_rows, text_rows};
use crate::navigation::quick_select::block_at;
use crate::navigation::search::string_view;
use crate::palette::{entry_views, EntryView, PaletteEntry, PaletteMode};
use crate::requests::{Export, FontChange, Request, RequestView};
use crate::session::{
    block_views, Effect, EffectView, SearchView, SessionView, SharedView, StateView,
};
use crate::tabs::{Tab, TabsView};
use crate::text::{append_str, decimal, decimal_chars, minus, same_text, string_of};

verus! {

broadcast use {
    Grid::lemma_bounds,
    Grid::lemma_scrolled,
    vstd::std_specs::hash::group_hash_axioms,
    lemma_put_back,
    lemma_session,
    lemma_with_session,
};

// ------------------------------------------------------------------------
// Commands
// ------------------------------------------------------------------------

/// A command that the palette and the menus name.
#[derive(Clone, Copy, Debug, PartialEq, Eq, Structural)]
pub enum Command {
    Block(BlockNav),
    CdRecent,
    ClosePane,
    CloseTab,
    CopyCwd,
    CopyScrollback,
    ExportBlockSvg,
    ExportBlockText,
    ExportScrollback(Export),
    Focus(FocusDir),
    MuxAttachRemote,
    MuxDetachSession,
    MuxKillSession,
    MuxListSessions,
    MuxNewSession,
    NewTab,
    NextTab,
    OpenSettings,
    PrevTab,
    QuickSelect,
    RecentTab { forward: bool },
    Reload,
    RenameTab,
    Search,
    SelectPane,
    Split(Direction),
    Swoop,
    ThemeAuto,
    ThemeDark,
    ThemeLight,
    ThemeNew,
    ToggleFold,
    ToggleMode,
    TogglePaneZoom,
    ToggleRainbowParens,
    ToggleSentenceHighlight,
    YankBlock,
}

/// The command that `name` names.
pub open spec fn command_named(name: Seq<char>) -> Option<Command> {
    if name == "new_tab"@ {
        Some(Command::NewTab)
    } else if name == "close_tab"@ {
        Some(Command::CloseTab)
    } else if name == "rename_tab"@ {
        Some(Command::RenameTab)
    } else if name == "next_tab"@ {
        Some(Command::NextTab)
    } else if name == "prev_tab"@ {
        Some(Command::PrevTab)
    } else if name == "recent_tab_back"@ {
        Some(Command::RecentTab { forward: false })
    } else if name == "recent_tab_forward"@ {
        Some(Command::RecentTab { forward: true })
    } else if name == "reload"@ {
        Some(Command::Reload)
    } else if name == "toggle_mode"@ {
        Some(Command::ToggleMode)
    } else if name == "split_horizontal"@ {
        Some(Command::Split(Direction::Horizontal))
    } else if name == "split_vertical"@ {
        Some(Command::Split(Direction::Vertical))
    } else if name == "close_pane"@ {
        Some(Command::ClosePane)
    } else if name == "copy_cwd"@ {
        Some(Command::CopyCwd)
    } else if name == "focus_down"@ {
        Some(Command::Focus(FocusDir::Down))
    } else if name == "focus_up"@ {
        Some(Command::Focus(FocusDir::Up))
    } else if name == "focus_left"@ {
        Some(Command::Focus(FocusDir::Left))
    } else if name == "focus_right"@ {
        Some(Command::Focus(FocusDir::Right))
    } else if name == "search"@ {
        Some(Command::Search)
    } else if name == "next_block"@ {
        Some(Command::Block(BlockNav::Next))
    } else if name == "prev_block"@ {
        Some(Command::Block(BlockNav::Previous))
    } else if name == "quick_select"@ {
        Some(Command::QuickSelect)
    } else if name == "yank_block"@ {
        Some(Command::YankBlock)
    } else if name == "toggle_fold"@ {
        Some(Command::ToggleFold)
    } else if name == "theme_dark"@ {
        Some(Command::ThemeDark)
    } else if name == "theme_light"@ {
        Some(Command::ThemeLight)
    } else if name == "theme_auto"@ {
        Some(Command::ThemeAuto)
    } else if name == "theme_new"@ {
        Some(Command::ThemeNew)
    } else if name == "open_settings"@ {
        Some(Command::OpenSettings)
    } else if name == "toggle_pane_zoom"@ {
        Some(Command::TogglePaneZoom)
    } else if name == "cd_recent"@ {
        Some(Command::CdRecent)
    } else if name == "select_pane"@ {
        Some(Command::SelectPane)
    } else if name == "swoop"@ {
        Some(Command::Swoop)
    } else if name == "copy_scrollback"@ {
        Some(Command::CopyScrollback)
    } else if name == "export_scrollback_ansi"@ {
        Some(Command::ExportScrollback(Export::ScrollbackAnsi))
    } else if name == "export_scrollback_editor"@ {
        Some(Command::ExportScrollback(Export::ScrollbackText))
    } else if name == "export_scrollback_html"@ {
        Some(Command::ExportScrollback(Export::ScrollbackHtml))
    } else if name == "export_block_text"@ {
        Some(Command::ExportBlockText)
    } else if name == "export_block_svg"@ {
        Some(Command::ExportBlockSvg)
    } else if name == "toggle_rainbow_parens"@ {
        Some(Command::ToggleRainbowParens)
    } else if name == "toggle_sentence_highlight"@ {
        Some(Command::ToggleSentenceHighlight)
    } else if name == "mux_list_sessions"@ {
        Some(Command::MuxListSessions)
    } else if name == "mux_new_session"@ {
        Some(Command::MuxNewSession)
    } else if name == "mux_attach_remote"@ {
        Some(Command::MuxAttachRemote)
    } else if name == "mux_kill_session"@ {
        Some(Command::MuxKillSession)
    } else if name == "mux_detach_session"@ {
        Some(Command::MuxDetachSession)
    } else {
        None
    }
}

/// The command that `name` names.
pub fn find_command(name: &str) -> (r: Option<Command>)
    ensures
        r == command_named(name@),
{
    if same_text(name, "new_tab") {
        Some(Command::NewTab)
    } else if same_text(name, "close_tab") {
        Some(Command::CloseTab)
    } else if same_text(name, "rename_tab") {
        Some(Command::RenameTab)
    } else if same_text(name, "next_tab") {
        Some(Command::NextTab)
    } else if same_text(name, "prev_tab") {
        Some(Command::PrevTab)
    } else if same_text(name, "recent_tab_back") {
        Some(Command::RecentTab { forward: false })
    } else if same_text(name, "recent_tab_forward") {
        Some(Command::RecentTab { forward: true })
    } else if same_text(name, "reload") {
        Some(Command::Reload)
    } else if same_text(name, "toggle_mode") {
        Some(Command::ToggleMode)
    } else if same_text(name, "split_horizontal") {
        Some(Command::Split(Direction::Horizontal))
    } else if same_text(name, "split_vertical") {
        Some(Command::Split(Direction::Vertical))
    } else if same_text(name, "close_pane") {
        Some(Command::ClosePane)
    } else if same_text(name, "copy_cwd") {
        Some(Command::CopyCwd)
    } else if same_text(name, "focus_down") {
        Some(Command::Focus(FocusDir::Down))
    } else if same_text(name, "focus_up") {
        Some(Command::Focus(FocusDir::Up))
    } else if same_text(name, "focus_left") {
        Some(Command::Focus(FocusDir::Left))
    } else if same_text(name, "focus_right") {
        Some(Command::Focus(FocusDir::Right))
    } else if same_text(name, "search") {
        Some(Command::Search)
    } else if same_text(name, "next_block") {
        Some(Command::Block(BlockNav::Next))
    } else if same_text(name, "prev_block") {
        Some(Command::Block(BlockNav::Previous))
    } else if same_text(name, "quick_select") {
        Some(Command::QuickSelect)
    } else if same_text(name, "yank_block") {
        Some(Command::YankBlock)
    } else if same_text(name, "toggle_fold") {
        Some(Command::ToggleFold)
    } else if same_text(name, "theme_dark") {
        Some(Command::ThemeDark)
    } else if same_text(name, "theme_light") {
        Some(Command::ThemeLight)
    } else if same_text(name, "theme_auto") {
        Some(Command::ThemeAuto)
    } else if same_text(name, "theme_new") {
        Some(Command::ThemeNew)
    } else if same_text(name, "open_settings") {
        Some(Command::OpenSettings)
    } else if same_text(name, "toggle_pane_zoom") {
        Some(Command::TogglePaneZoom)
    } else if same_text(name, "cd_recent") {
        Some(Command::CdRecent)
    } else if same_text(name, "select_pane") {
        Some(Command::SelectPane)
    } else if same_text(name, "swoop") {
        Some(Command::Swoop)
    } else if same_text(name, "copy_scrollback") {
        Some(Command::CopyScrollback)
    } else if same_text(name, "export_scrollback_ansi") {
        Some(Command::ExportScrollback(Export::ScrollbackAnsi))
    } else if same_text(name, "export_scrollback_editor") {
        Some(Command::ExportScrollback(Export::ScrollbackText))
    } else if same_text(name, "export_scrollback_html") {
        Some(Command::ExportScrollback(Export::ScrollbackHtml))
    } else if same_text(name, "export_block_text") {
        Some(Command::ExportBlockText)
    } else if same_text(name, "export_block_svg") {
        Some(Command::ExportBlockSvg)
    } else if same_text(name, "toggle_rainbow_parens") {
        Some(Command::ToggleRainbowParens)
    } else if same_text(name, "toggle_sentence_highlight") {
        Some(Command::ToggleSentenceHighlight)
    } else if same_text(name, "mux_list_sessions") {
        Some(Command::MuxListSessions)
    } else if same_text(name, "mux_new_session") {
        Some(Command::MuxNewSession)
    } else if same_text(name, "mux_attach_remote") {
        Some(Command::MuxAttachRemote)
    } else if same_text(name, "mux_kill_session") {
        Some(Command::MuxKillSession)
    } else if same_text(name, "mux_detach_session") {
        Some(Command::MuxDetachSession)
    } else {
        None
    }
}

// ------------------------------------------------------------------------
// What each command does
// ------------------------------------------------------------------------

/// A pane as the pane switcher lists it: the number and name of its tab, and the digit
/// that chooses it.
pub open spec fn pane_entry(pane: PaneId, tab: int, title: Seq<char>, place: int) -> EntryView {
    EntryView {
        action: decimal(pane.0 as nat),
        label: decimal((tab + 1) as nat) + ": "@ + title,
        shortcut: decimal((place + 1) as nat),
    }
}

/// What a command toggled reads as.
pub open spec fn switched_word(on: bool) -> Seq<char> {
    if on {
        "enabled"@
    } else {
        "disabled"@
    }
}

impl AppView {
    /// The first `n` panes of tab `i` as the pane switcher lists them.
    pub open spec fn tab_entries(self, i: int, n: int) -> Seq<EntryView> {
        Seq::new(
            n as nat,
            |j: int| pane_entry(self.tabs.all[i].ids()[j], i, self.tab_name(i), j),
        )
    }

    /// The panes of the first `n` tabs as the pane switcher lists them.
    pub open spec fn pane_entries(self, n: int) -> Seq<EntryView>
        decreases n,
    {
        if n <= 0 {
            Seq::empty()
        } else {
            self.pane_entries(n - 1) + self.tab_entries(
                n - 1,
                self.tabs.all[n - 1].ids().len() as int,
            )
        }
    }

    /// With the tabs as `tabs` are, on screen too.
    pub open spec fn with_tabs(self, tabs: TabsView) -> AppView {
        AppView { tabs, ..self }.refitted().redrawn()
    }

    /// With the pane in focus filling its tab, or not any more.
    #[verifier::opaque]
    pub open spec fn zoomed(self) -> AppView {
        let tab = self.tabs.tab();
        AppView { tabs: self.tabs.with_tab(Tab { zoomed: !tab.zoomed, ..tab }), ..self }.refitted()
    }

    /// With focus on the pane at `i` of the shown tab, if there is one.
    pub open spec fn focus_given(self, i: int) -> AppView {
        let tab = self.tabs.tab();
        AppView {
            tabs: self.tabs.with_tab(
                if i < tab.ids().len() {
                    tab.with_focus(tab.ids()[i])
                } else {
                    tab
                },
            ),
            ..self
        }
    }

    /// With a new name asked for the shown tab.
    #[verifier::opaque]
    pub open spec fn rename_asked(self) -> AppView {
        AppView {
            tab_rename_input: Some(
                match self.tabs.names[self.tabs.active as int] {
                    Some(name) => name,
                    None => Seq::empty(),
                },
            ),
            ..self
        }
    }

    /// With the program to start again in its place.
    pub open spec fn reload_asked(self) -> AppView {
        AppView { window: WindowState { pending_reload: true, ..self.window }, ..self }
    }

    /// With a name asked for new colors.
    pub open spec fn theme_asked(self) -> AppView {
        AppView { theme_name_input: Some(Seq::empty()), ..self }
    }

    /// With a pane in Normal mode if it was in Insert mode, and in Insert mode if not.
    #[verifier::opaque]
    pub open spec fn mode_toggled(self, focused: PaneId) -> AppView {
        self.with_mode(
            focused,
            if self.session(focused).mode() == Mode::Insert {
                Mode::Normal
            } else {
                Mode::Insert
            },
        )
    }

    /// With the directories that a pane was in listed.
    #[verifier::opaque]
    pub open spec fn dirs_listed(self, focused: PaneId) -> AppView {
        let dirs = match self.state(focused).pane {
            Some(pane) => recent_dirs(pane.blocks, pane.blocks.len() as int),
            None => Seq::empty(),
        };
        self.listed(PaletteMode::RecentDirs, plain_entries(dirs))
    }

    /// With the directory of a pane copied.
    #[verifier::opaque]
    pub open spec fn cwd_copied(self, focused: PaneId) -> AppView {
        let cwd = match self.state(focused).pane {
            Some(pane) => pane.cwd,
            None => None,
        };
        match cwd {
            Some(cwd) => self.with_effect(
                EffectView::Copy {
                    text: cwd,
                    done: "copied "@ + cwd + ""@,
                    failed: Some("clipboard unavailable"@),
                },
            ),
            None => self.told("no working directory reported yet"@),
        }
    }

    /// With a search begun, nothing typed yet.
    pub open spec fn search_opened(self) -> AppView {
        AppView {
            shared: SharedView {
                search: SearchView { query: Some(Seq::empty()), ..self.shared.search },
                ..self.shared
            },
            ..self
        }
    }

    /// With the first block of a pane folded when none is, and none when some are.
    #[verifier::opaque]
    pub open spec fn folds_toggled(self, focused: PaneId) -> AppView {
        let s = self.session(focused);
        self.with_session(
            SessionView {
                state: StateView {
                    folded: if s.state.folded == Set::<usize>::empty() {
                        Set::empty().insert(0usize)
                    } else {
                        Set::empty()
                    },
                    ..s.state
                },
                ..s
            },
        ).redrawn()
    }

    /// With other colors.
    #[verifier::opaque]
    pub open spec fn themed(self, theme: ThemeView) -> AppView {
        AppView { theme, ..self }.asked(RequestView::RebuildTheme).redrawn()
    }

    /// With the buffer of a pane copied.
    #[verifier::opaque]
    pub open spec fn scrollback_copied(self, focused: PaneId) -> AppView {
        match self.state(focused).pane {
            Some(pane) => self.with_effect(
                EffectView::Copy {
                    text: plain_rows(pane.grid, text_rows(pane.grid, pane.grid.total())),
                    done: "copied scrollback to clipboard"@,
                    failed: Some("could not copy to clipboard"@),
                },
            ),
            None => self,
        }
    }

    /// With the buffer of a pane to be written and opened.
    #[verifier::opaque]
    pub open spec fn scrollback_exported(self, kind: Export, focused: PaneId) -> AppView {
        if self.session(focused).live() {
            self.asked(RequestView::Export { kind, pane: focused })
        } else {
            self
        }
    }

    /// With the drawing of the block in view to be written and opened.
    #[verifier::opaque]
    pub open spec fn drawing_exported(self, focused: PaneId) -> AppView {
        let s = self.session(focused);
        if !s.live() {
            self
        } else if s.drawing() is Some {
            self.asked(RequestView::Export { kind: Export::BlockDrawing, pane: focused })
        } else {
            self.faulted("Focused block has no SVG graphic"@)
        }
    }

    /// With brackets colored by depth, or not any more.
    #[verifier::opaque]
    pub open spec fn parens_toggled(self) -> AppView {
        let on = !self.config.rainbow_parens;
        AppView { config: Config { rainbow_parens: on, ..self.config }, ..self }.told(
            "rainbow parens "@ + switched_word(on) + ""@,
        )
    }

    /// With sentences told apart, or not any more.
    #[verifier::opaque]
    pub open spec fn sentences_toggled(self) -> AppView {
        let on = !self.config.sentence_highlight;
        AppView { config: Config { sentence_highlight: on, ..self.config }, ..self }.told(
            "sentence highlight "@ + switched_word(on) + ""@,
        )
    }

    /// With a pane detached from its session, unless it is the only pane.
    #[verifier::opaque]
    pub open spec fn detached(self, focused: PaneId) -> AppView {
        let session = match self.state(focused).pane {
            Some(pane) => pane.mux_session,
            None => None,
        };
        match session {
            Some(name) => if self.tabs.all.len() <= 1 && self.tabs.all[0].ids().len() <= 1 {
                self.told(
                    "cannot detach the only pane — close the window or open another tab"@,
                )
            } else {
                self.told("detached from mux session '"@ + name + "'"@).pane_close_asked(focused)
            },
            None => self.told("this pane is not attached to a mux session"@),
        }
    }

    /// What a command does.
    #[verifier::opaque]
    pub open spec fn commanded(self, command: Command, focused: PaneId) -> AppView {
        match command {
            Command::Block(nav) => self.with_session(self.session(focused).block_focused(nav)),
            Command::CdRecent => self.dirs_listed(focused),
            Command::ClosePane => self.pane_close_asked(focused),
            Command::CloseTab => self.tab_close_asked(self.tabs.active as int),
            Command::CopyCwd => self.cwd_copied(focused),
            Command::CopyScrollback => self.scrollback_copied(focused),
            Command::ExportBlockSvg => self.drawing_exported(focused),
            Command::ExportBlockText => self.with_session(self.session(focused).block_exported()),
            Command::ExportScrollback(kind) => self.scrollback_exported(kind, focused),
            Command::Focus(dir) => self.asked(RequestView::FocusNeighbour(dir)),
            Command::MuxAttachRemote => self.listed(PaletteMode::MuxAttachRemote, Seq::empty()),
            Command::MuxDetachSession => self.detached(focused),
            Command::MuxKillSession => self.asked(RequestView::ListSessions { kill: true }),
            Command::MuxListSessions => self.asked(RequestView::ListSessions { kill: false }),
            Command::MuxNewSession => self.listed(PaletteMode::MuxNew, Seq::empty()),
            Command::NewTab => self.tab_opened(self.start_cwd(self.tabs.tab().focus)),
            Command::NextTab => self.with_tabs(self.tabs.cycled(true)),
            Command::OpenSettings => self.asked(RequestView::OpenSettings),
            Command::PrevTab => self.with_tabs(self.tabs.cycled(false)),
            Command::QuickSelect => self.with_session(self.session(focused).quick_entered()),
            Command::RecentTab { forward } => self.with_tabs(self.tabs.walked(forward)),
            Command::Reload => self.reload_asked(),
            Command::RenameTab => self.rename_asked(),
            Command::Search => self.search_opened(),
            Command::SelectPane => self.listed(
                PaletteMode::Panes,
                self.pane_entries(self.tabs.all.len() as int),
            ),
            Command::Split(direction) => self.pane_split(
                direction,
                self.start_cwd(self.tabs.tab().focus),
            ),
            Command::Swoop => self.swoop_opened(focused),
            Command::ThemeAuto => self.themed(ThemeView::Auto),
            Command::ThemeDark => self.themed(ThemeView::Dark),
            Command::ThemeLight => self.themed(ThemeView::Light),
            Command::ThemeNew => self.theme_asked(),
            Command::ToggleFold => self.folds_toggled(focused),
            Command::ToggleMode => self.mode_toggled(focused),
            Command::TogglePaneZoom => self.zoomed().redrawn(),
            Command::ToggleRainbowParens => self.parens_toggled(),
            Command::ToggleSentenceHighlight => self.sentences_toggled(),
            Command::YankBlock => self.with_session(self.session(focused).block_yanked()),
        }
    }

    /// With a palette put away when there is one, and the list that `command` shows up
    /// when there is none.
    pub open spec fn palette_toggled(self, shown: AppView) -> AppView {
        if self.palette is Some {
            self.palette_gone().redrawn()
        } else {
            shown.redrawn()
        }
    }

    /// What an action does to the program as a whole, beside what the pane does.
    #[verifier::opaque]
    pub open spec fn window_acted(self, action: Action, focused: PaneId, keymap: Keymap) -> AppView {
        match action {
            Action::SplitPane(direction) => self.pane_split(
                direction,
                self.start_cwd(self.tabs.tab().focus),
            ),
            Action::ClosePane => self.pane_close_asked(focused),
            Action::CloseOtherPanes => self.others_closed(focused),
            Action::ZoomPane => self.zoomed(),
            Action::MoveTabLeft => if self.tabs.active > 0 {
                self.with_tabs(
                    self.tabs.swapped(self.tabs.active as int, self.tabs.active - 1),
                )
            } else {
                self
            },
            Action::MoveTabRight => if self.tabs.active + 1 < self.tabs.all.len() {
                self.with_tabs(
                    self.tabs.swapped(self.tabs.active as int, self.tabs.active + 1),
                )
            } else {
                self
            },
            Action::NewTab => self.tab_opened(self.start_cwd(self.tabs.tab().focus)),
            Action::NextTab => self.with_tabs(self.tabs.cycled(true)),
            Action::PrevTab => self.with_tabs(self.tabs.cycled(false)),
            Action::GotoTab(n) => self.with_tabs(self.tabs.switched(minus(n as int, 1))),
            Action::CloseTab(which) => self.tab_close_asked(
                match which {
                    Some(n) => minus(n as int, 1),
                    None => self.tabs.active as int,
                },
            ),
            Action::FocusPane(dir) => self.asked(RequestView::FocusNeighbour(dir)),
            Action::FocusPaneByIndex(n) => self.focus_given(minus(n as int, 1)),
            Action::ClosePaneByIndex(n) => {
                let ids = self.tabs.tab().ids();
                if minus(n as int, 1) < ids.len() {
                    self.pane_close_asked(ids[minus(n as int, 1)])
                } else {
                    self
                }
            },
            Action::OpenSettings => self.asked(RequestView::OpenSettings),
            Action::IncreaseFontSize => self.asked(RequestView::ChangeFont(FontChange::Larger)),
            Action::DecreaseFontSize => self.asked(RequestView::ChangeFont(FontChange::Smaller)),
            Action::ResetFontSize => self.asked(RequestView::ChangeFont(FontChange::Reset)),
            Action::TogglePalette => self.palette_toggled(
                self.listed(PaletteMode::Commands, entry_views(keymap.menu@)),
            ),
            Action::ToggleHistoryPalette => self.palette_toggled(
                self.listed(PaletteMode::History, plain_entries(self.shell_history)),
            ),
            Action::TogglePaneSwitcher => self.palette_toggled(
                self.commanded(Command::SelectPane, focused),
            ),
            Action::ToggleSwoop => self.palette_toggled(self.swoop_opened(focused)),
            _ => self,
        }
    }

    /// What an action does to the pane it is for.
    pub open spec fn pane_acted(self, action: Action, focused: PaneId) -> AppView {
        self.with_pane(focused, self.session(focused).acted(action, self.selected()))
    }

    /// What an action that names no command does.
    pub open spec fn carried_out(self, action: Action, focused: PaneId, keymap: Keymap) -> AppView {
        self.pane_acted(action, focused).window_acted(action, focused, keymap)
    }

    /// What the command named `name` does: one of its own, or a window command that the
    /// keymap has under that name.
    pub open spec fn command_run(self, name: Seq<char>, focused: PaneId, keymap: Keymap) -> AppView {
        match command_named(name) {
            Some(command) => self.commanded(command, focused),
            None => {
                let at = keymap.named(name, 0);
                if 0 <= at < keymap.commands@.len() {
                    self.carried_out(keymap.commands@[at].action, focused, keymap)
                } else {
                    self
                }
            },
        }
    }

    /// What an action does.
    pub open spec fn acted(self, action: Action, focused: PaneId, keymap: Keymap) -> AppView {
        match action {
            Action::RunCommand(name) => self.pane_acted(action, focused).command_run(
                name@,
                focused,
                keymap,
            ),
            _ => self.carried_out(action, focused, keymap),
        }
    }
}

impl SessionView {
    /// The drawing of the block that the view is at.
    pub open spec fn drawing(self) -> Option<Seq<char>> {
        match self.block_here() {
            Some(i) if i < self.state.pane->0.blocks.len() => self.state.pane->0.blocks[i].svg,
            _ => None,
        }
    }
}

// ------------------------------------------------------------------------
// Carrying them out
// ------------------------------------------------------------------------

proof fn lemma_same_tabs_below(tabs: TabsView, after: TabsView, next: u64)
    requires
        ids_below(tabs, next),
        forall|i: int|
            0 <= i < after.all.len() ==> exists|j: int|
                0 <= j < tabs.all.len() && (#[trigger] after.all[i]).ids() == tabs.all[j].ids(),
    ensures
        ids_below(after, next),
{
    assert forall|i: int, id: PaneId|
        #![trigger after.all[i].ids().contains(id)]
        0 <= i < after.all.len() && after.all[i].ids().contains(id) implies id.0 < next by {
        let j = choose|j: int|
            0 <= j < tabs.all.len() && after.all[i].ids() == tabs.all[j].ids();
        assert(tabs.all[j].ids().contains(id));
    }
}

impl App {
    /// Show tab `i`, if there is one.
    pub fn switch_tab(&mut self, i: usize)
        requires
            old(self).wf(),
        ensures
            final(self).wf(),
            final(self)@ == old(self)@.with_tabs(old(self)@.tabs.switched(i as int)),
    {
        let ghost before = self@.tabs;
        self.tabs.switch_tab(i);
        proof {
            assert(self@.tabs.all == before.all);
            assert(ids_below(before, self@.next_pane_id));
            assert(ids_below(self@.tabs, self@.next_pane_id));
        }
        self.refit();
        self.redraw();
    }

    /// Show the tab after the shown one, or before it, around the end.
    pub fn cycle_tab(&mut self, forward: bool)
        requires
            old(self).wf(),
        ensures
            final(self).wf(),
            final(self)@ == old(self)@.with_tabs(old(self)@.tabs.cycled(forward)),
    {
        let ghost before = self@.tabs;
        self.tabs.cycle_tab(forward);
        proof {
            assert(self@.tabs.all == before.all);
            assert(ids_below(before, self@.next_pane_id));
            assert(ids_below(self@.tabs, self@.next_pane_id));
        }
        self.refit();
        self.redraw();
    }

    /// Show the tab that was used before the one a walk has come to, or after it.
    pub fn recent_tab(&mut self, forward: bool)
        requires
            old(self).wf(),
        ensures
            final(self).wf(),
            final(self)@ == old(self)@.with_tabs(old(self)@.tabs.walked(forward)),
    {
        let ghost before = self@.tabs;
        self.tabs.recent_tab(forward);
        proof {
            assert(self@.tabs.all == before.all);
            assert(ids_below(before, self@.next_pane_id));
            assert(ids_below(self@.tabs, self@.next_pane_id));
        }
        self.refit();
        self.redraw();
    }

    /// Let the tabs at `a` and `b` change places.
    pub fn swap_tabs(&mut self, a: usize, b: usize)
        requires
            old(self).wf(),
        ensures
            final(self).wf(),
            final(self)@ == old(self)@.with_tabs(old(self)@.tabs.swapped(a as int, b as int)),
    {
        let ghost before = self@.tabs;
        self.tabs.swap_tabs(a, b);
        proof {
            assert forall|i: int| 0 <= i < self@.tabs.all.len() implies exists|j: int|
                0 <= j < before.all.len() && (#[trigger] self@.tabs.all[i]).ids()
                    == before.all[j].ids() by {
                let j = if a == b || a >= before.all.len() || b >= before.all.len() {
                    i
                } else if i == a {
                    b as int
                } else if i == b {
                    a as int
                } else {
                    i
                };
                assert(self@.tabs.all[i] == before.all[j]);
            }
            lemma_same_tabs_below(before, self@.tabs, self@.next_pane_id);
        }
        self.refit();
        self.redraw();
    }

    fn put_tab(&mut self, tab: Tab)
        requires
            old(self).wf(),
            tab.wf(),
            tab.ids() == old(self)@.tabs.tab().ids(),
        ensures
            final(self).wf(),
            final(self)@ == (AppView { tabs: old(self)@.tabs.with_tab(tab), ..old(self)@ }),
    {
        let ghost before = self@.tabs;
        let at: usize = self.tabs.active;
        self.tabs.all[at] = tab;
        proof {
            assert(self.tabs.all@ =~= before.all.update(at as int, tab));
            assert forall|i: int| 0 <= i < self@.tabs.all.len() implies (
            #[trigger] self@.tabs.all[i]).wf() by {
                if i != at {
                    assert(before.all[i].wf());
                }
            }
            assert forall|i: int| 0 <= i < self@.tabs.all.len() implies exists|j: int|
                0 <= j < before.all.len() && (#[trigger] self@.tabs.all[i]).ids()
                    == before.all[j].ids() by {
                assert(self@.tabs.all[i].ids() == before.all[i].ids());
            }
            lemma_same_tabs_below(before, self@.tabs, self@.next_pane_id);
        }
    }

    fn copy_tab(&self) -> (r: Tab)
        requires
            self.wf(),
        ensures
            r == self@.tabs.tab(),
            r.wf(),
    {
        let tab = self.tabs.tab();
        assert(self@.tabs.all[self@.tabs.active as int].wf());
        Tab { focus: tab.focus, layout: tab.export_tree(), zoomed: tab.zoomed }
    }

    /// Let the pane in focus fill its tab, or not any more.
    pub fn toggle_zoom(&mut self)
        requires
            old(self).wf(),
        ensures
            final(self).wf(),
            final(self)@ == old(self)@.zoomed(),
    {
        proof {
            reveal(AppView::zoomed);
        }
        let mut tab = self.copy_tab();
        tab.toggle_zoom();
        self.put_tab(tab);
        self.refit();
    }

    pub(crate) fn show_zoom(&mut self)
        requires
            old(self).wf(),
        ensures
            final(self).wf(),
            final(self)@ == old(self)@.zoomed().redrawn(),
    {
        self.toggle_zoom();
        self.redraw();
    }

    pub(crate) fn reload_later(&mut self)
        requires
            old(self).wf(),
        ensures
            final(self).wf(),
            final(self)@ == old(self)@.reload_asked(),
    {
        self.window.pending_reload = true;
    }

    pub(crate) fn ask_theme_name(&mut self)
        requires
            old(self).wf(),
        ensures
            final(self).wf(),
            final(self)@ == old(self)@.theme_asked(),
    {
        let name = String::new();
        assert(name@ =~= Seq::empty());
        self.theme_name_input = Some(name);
    }

    /// Give the pane at `i` of the shown tab focus, if there is one.
    pub fn focus_by_index(&mut self, i: usize)
        requires
            old(self).wf(),
        ensures
            final(self).wf(),
            final(self)@ == old(self)@.focus_given(i as int),
    {
        let mut tab = self.copy_tab();
        tab.focus_by_index(i);
        self.put_tab(tab);
    }

    /// Give a pane of the shown tab focus, if it is there.
    pub fn focus_pane(&mut self, pane: PaneId)
        requires
            old(self).wf(),
        ensures
            final(self).wf(),
            final(self)@ == (AppView {
                tabs: old(self)@.tabs.with_tab(old(self)@.tabs.tab().with_focus(pane)),
                ..old(self)@
            }).redrawn(),
    {
        let mut tab = self.copy_tab();
        tab.give_focus(pane);
        self.put_tab(tab);
        self.redraw();
    }

    pub(crate) fn ask_rename(&mut self)
        requires
            old(self).wf(),
        ensures
            final(self).wf(),
            final(self)@ == old(self)@.rename_asked(),
    {
        proof {
            reveal(AppView::rename_asked);
        }
        let at: usize = self.tabs.active;
        assert(self@.tabs.names[at as int] == string_view(self.tabs.names@[at as int]));
        let name = match &self.tabs.names[at] {
            Some(name) => name.as_str().to_owned(),
            None => String::new(),
        };
        self.tab_rename_input = Some(name);
    }

    pub(crate) fn toggle_mode(&mut self, focused: PaneId)
        requires
            old(self).wf(),
        ensures
            final(self).wf(),
            final(self)@ == old(self)@.mode_toggled(focused),
    {
        proof {
            reveal(AppView::mode_toggled);
        }
        let mode = match self.mode(focused) {
            Mode::Insert => Mode::Normal,
            _ => Mode::Insert,
        };
        self.set_mode(focused, mode);
    }

    fn pane_cwd(&self, focused: PaneId) -> (r: Option<String>)
        ensures
            string_view(r) == (match self@.state(focused).pane {
                Some(pane) => pane.cwd,
                None => None,
            }),
    {
        match self.panes.get(&focused.0) {
            Some(state) => match &state.pane {
                Some(pane) => copy_option(&pane.cwd),
                None => None,
            },
            None => None,
        }
    }

    /// Copy the directory of a pane.
    pub fn copy_pane_cwd(&mut self, focused: PaneId)
        requires
            old(self).wf(),
        ensures
            final(self).wf(),
            final(self)@ == old(self)@.cwd_copied(focused),
    {
        proof {
            reveal(AppView::cwd_copied);
        }
        match self.pane_cwd(focused) {
            Some(cwd) => {
                let done = phrase("copied ", cwd.as_str(), "");
                self.emit(
                    Effect::Copy {
                        text: cwd,
                        done,
                        failed: Some("clipboard unavailable".to_owned()),
                    },
                );
            },
            None => self.set_notice("no working directory reported yet"),
        }
    }

    pub(crate) fn open_search(&mut self)
        requires
            old(self).wf(),
        ensures
            final(self).wf(),
            final(self)@ == old(self)@.search_opened(),
    {
        let query = String::new();
        assert(query@ =~= Seq::empty());
        self.shared.search.query = Some(query);
    }

    pub(crate) fn toggle_folds(&mut self, focused: PaneId)
        requires
            old(self).wf(),
        ensures
            final(self).wf(),
            final(self)@ == old(self)@.folds_toggled(focused),
    {
        proof {
            reveal(AppView::folds_toggled);
        }
        let mut s = self.enter(focused);
        if s.state.folded.is_empty() {
            assert(s.state.folded@ =~= Set::empty());
            s.state.folded.insert(0);
        } else {
            s.state.folded.clear();
        }
        self.leave(s);
        self.redraw();
    }

    /// Use other colors.
    pub fn set_theme(&mut self, theme: ThemeSetting)
        requires
            old(self).wf(),
        ensures
            final(self).wf(),
            final(self)@ == old(self)@.themed(theme@),
    {
        proof {
            reveal(AppView::themed);
        }
        self.theme = theme;
        self.ask(Request::RebuildTheme);
        self.redraw();
    }

    /// Copy the buffer of a pane.
    pub fn copy_scrollback(&mut self, focused: PaneId)
        requires
            old(self).wf(),
        ensures
            final(self).wf(),
            final(self)@ == old(self)@.scrollback_copied(focused),
    {
        proof {
            reveal(AppView::scrollback_copied);
        }
        let text = match self.panes.get(&focused.0) {
            Some(state) => {
                assert(self@.panes.dom().contains(focused.0));
                match &state.pane {
                    Some(pane) => Some(export_scrollback_plain(&pane.grid)),
                    None => None,
                }
            },
            None => None,
        };
        if let Some(text) = text {
            self.emit(
                Effect::Copy {
                    text,
                    done: "copied scrollback to clipboard".to_owned(),
                    failed: Some("could not copy to clipboard".to_owned()),
                },
            );
        }
    }

    fn is_live(&self, pane: PaneId) -> (r: bool)
        ensures
            r == self@.session(pane).live(),
    {
        match self.panes.get(&pane.0) {
            Some(state) => state.pane.is_some(),
            None => false,
        }
    }

    pub(crate) fn export_scrollback(&mut self, kind: Export, focused: PaneId)
        requires
            old(self).wf(),
        ensures
            final(self).wf(),
            final(self)@ == old(self)@.scrollback_exported(kind, focused),
    {
        proof {
            reveal(AppView::scrollback_exported);
        }
        if self.is_live(focused) {
            self.ask(Request::Export { kind, pane: focused });
        }
    }

    /// The drawing of the block that the view of a pane is at.
    pub fn block_drawing(&self, pane: PaneId) -> (r: Option<String>)
        requires
            self.wf(),
        ensures
            string_view(r) == self@.session(pane).drawing(),
    {
        let shown = match self.panes.get(&pane.0) {
            Some(state) => match &state.pane {
                Some(shown) => shown,
                None => {
                    return None;
                },
            },
            None => {
                return None;
            },
        };
        match block_at(&shown.offsets, shown.grid.scroll_offset()) {
            Some(i) => if i < shown.blocks.len() {
                assert(shown@.blocks[i as int] == shown.blocks@[i as int]@);
                copy_option(&shown.blocks[i].svg)
            } else {
                None
            },
            None => None,
        }
    }

    /// Have the drawing of the block in view written and opened.
    pub fn export_focused_block_svg(&mut self, focused: PaneId)
        requires
            old(self).wf(),
        ensures
            final(self).wf(),
            final(self)@ == old(self)@.drawing_exported(focused),
    {
        proof {
            reveal(AppView::drawing_exported);
        }
        if !self.is_live(focused) {
            return;
        }
        if self.block_drawing(focused).is_some() {
            self.ask(Request::Export { kind: Export::BlockDrawing, pane: focused });
        } else {
            self.set_error("Focused block has no SVG graphic");
        }
    }

    /// Color brackets by depth, or not any more.
    pub fn toggle_rainbow_parens(&mut self)
        requires
            old(self).wf(),
        ensures
            final(self).wf(),
            final(self)@ == old(self)@.parens_toggled(),
    {
        proof {
            reveal(AppView::parens_toggled);
        }
        self.config.rainbow_parens = !self.config.rainbow_parens;
        let word: &str = if self.config.rainbow_parens {
            "enabled"
        } else {
            "disabled"
        };
        let text = phrase("rainbow parens ", word, "");
        self.set_notice(text.as_str());
    }

    /// Tell sentences apart, or not any more.
    pub fn toggle_sentence_highlight(&mut self)
        requires
            old(self).wf(),
        ensures
            final(self).wf(),
            final(self)@ == old(self)@.sentences_toggled(),
    {
        proof {
            reveal(AppView::sentences_toggled);
        }
        self.config.sentence_highlight = !self.config.sentence_highlight;
        let word: &str = if self.config.sentence_highlight {
            "enabled"
        } else {
            "disabled"
        };
        let text = phrase("sentence highlight ", word, "");
        self.set_notice(text.as_str());
    }

    pub(crate) fn detach_session(&mut self, focused: PaneId)
        requires
            old(self).wf(),
        ensures
            final(self).wf(),
            final(self)@ == old(self)@.detached(focused),
    {
        proof {
            reveal(AppView::detached);
        }
        let session = match self.panes.get(&focused.0) {
            Some(state) => match &state.pane {
                Some(pane) => copy_option(&pane.mux_session),
                None => None,
            },
            None => None,
        };
        match session {
            Some(name) => {
                let panes = self.tabs.all[0].panes();
                if self.tabs.all.len() <= 1 && panes.len() <= 1 {
                    self.set_notice(
                        "cannot detach the only pane — close the window or open another tab",
                    );
                } else {
                    let text = phrase("detached from mux session '", name.as_str(), "'");
                    self.set_notice(text.as_str());
                    self.close_pane(focused);
                }
            },
            None => self.set_notice("this pane is not attached to a mux session"),
        }
    }

    pub(crate) fn list_recent_dirs(&mut self, focused: PaneId)
        requires
            old(self).wf(),
        ensures
            final(self).wf(),
            final(self)@ == old(self)@.dirs_listed(focused),
    {
        proof {
            reveal(AppView::dirs_listed);
        }
        let mut dirs: Vec<String> = Vec::new();
        assert(texts(dirs@) =~= Seq::empty());
        if let Some(state) = self.panes.get(&focused.0) {
            if let Some(pane) = &state.pane {
                let total: usize = pane.blocks.len();
                let ghost blocks = block_views(pane.blocks@);
                let mut n: usize = 0;
                while n < total
                    invariant
                        total == pane.blocks@.len(),
                        blocks == block_views(pane.blocks@),
                        n <= total,
                        texts(dirs@) == recent_dirs(blocks, n as int),
                    decreases total - n,
                {
                    let at: usize = total - n - 1;
                    assert(blocks[at as int] == pane.blocks@[at as int]@);
                    if let Some(dir) = &pane.blocks[at].cwd {
                        if !lists_text(&dirs, dir.as_str()) {
                            let ghost before = dirs@;
                            dirs.push(dir.as_str().to_owned());
                            assert(texts(dirs@) =~= texts(before).push(dir@));
                        }
                    }
                    n = n + 1;
                }
            }
        }
        self.open_texts(PaletteMode::RecentDirs, &dirs);
    }

    pub(crate) fn list_panes(&mut self)
        requires
            old(self).wf(),
        ensures
            final(self).wf(),
            final(self)@ == old(self)@.listed(
                PaletteMode::Panes,
                old(self)@.pane_entries(old(self)@.tabs.all.len() as int),
            ),
    {
        let mut entries: Vec<PaletteEntry> = Vec::new();
        let mut i: usize = 0;
        assert(entry_views(entries@) =~= self@.pane_entries(0));
        while i < self.tabs.all.len()
            invariant
                self.wf(),
                *self == *old(self),
                i <= self@.tabs.all.len(),
                entry_views(entries@) == self@.pane_entries(i as int),
            decreases self@.tabs.all.len() - i,
        {
            let panes = self.tabs.all[i].panes();
            let title = self.tab_title(i);
            let mut j: usize = 0;
            let ghost before = entry_views(entries@);
            assert(before + self@.tab_entries(i as int, 0) =~= before);
            while j < panes.len()
                invariant
                    i < usize::MAX,
                    panes@ == self@.tabs.all[i as int].ids(),
                    title@ == self@.tab_name(i as int),
                    j <= panes@.len(),
                    entry_views(entries@) == before + self@.tab_entries(i as int, j as int),
                decreases panes@.len() - j,
            {
                let total: usize = panes.len();
                let mut label = decimal_chars((i + 1) as u64);
                append_str(&mut label, ": ");
                append_str(&mut label, title.as_str());
                let entry = PaletteEntry {
                    action: string_of(&decimal_chars(panes[j].0)),
                    label: string_of(&label),
                    shortcut: string_of(&decimal_chars((j + 1) as u64)),
                };
                let ghost so_far = entries@;
                let ghost added = entry@;
                entries.push(entry);
                proof {
                    assert(added == pane_entry(
                        panes@[j as int],
                        i as int,
                        self@.tab_name(i as int),
                        j as int,
                    ));
                    assert(entry_views(entries@) =~= entry_views(so_far).push(added));
                    assert(self@.tab_entries(i as int, j + 1) =~= self@.tab_entries(
                        i as int,
                        j as int,
                    ).push(added));
                    assert(before + self@.tab_entries(i as int, j + 1) =~= (before
                        + self@.tab_entries(i as int, j as int)).push(added));
                }
                j = j + 1;
            }
            i = i + 1;
        }
        self.open_list(PaletteMode::Panes, entries);
    }

    pub(crate) fn open_blank(&mut self, mode: PaletteMode)
        requires
            old(self).wf(),
        ensures
            final(self).wf(),
            final(self)@ == old(self)@.listed(mode, Seq::empty()),
    {
        let entries: Vec<PaletteEntry> = Vec::new();
        assert(entry_views(entries@) =~= Seq::empty());
        self.open_list(mode, entries);
    }

    pub(crate) fn focus_block(&mut self, nav: BlockNav, focused: PaneId)
        requires
            old(self).wf(),
        ensures
            final(self).wf(),
            final(self)@ == old(self)@.with_session(
                old(self)@.session(focused).block_focused(nav),
            ),
    {
        let mut s = self.enter(focused);
        s.focus_block(nav);
        self.leave(s);
    }

    pub(crate) fn enter_quick_select(&mut self, focused: PaneId)
        requires
            old(self).wf(),
        ensures
            final(self).wf(),
            final(self)@ == old(self)@.with_session(old(self)@.session(focused).quick_entered()),
    {
        let mut s = self.enter(focused);
        s.enter_quick_select();
        self.leave(s);
    }

    pub(crate) fn yank_block_source(&mut self, focused: PaneId)
        requires
            old(self).wf(),
        ensures
            final(self).wf(),
            final(self)@ == old(self)@.with_session(old(self)@.session(focused).block_yanked()),
    {
        let mut s = self.enter(focused);
        s.yank_block_source();
        self.leave(s);
    }

    /// Copy the command of the block that the view is at, and what it printed.
    pub fn export_focused_block_text(&mut self, focused: PaneId)
        requires
            old(self).wf(),
        ensures
            final(self).wf(),
            final(self)@ == old(self)@.with_session(old(self)@.session(focused).block_exported()),
    {
        let mut s = self.enter(focused);
        s.export_focused_block_text();
        self.leave(s);
    }

    /// Keep track of a key that was sent to the program of a pane in Insert mode.
    pub fn record_insert_key(&mut self, pane: PaneId, key: &Key, action: &Action, at_prompt: bool)
        requires
            old(self).wf(),
        ensures
            final(self).wf(),
            final(self)@ == old(self)@.with_session(
                old(self)@.session(pane).key_recorded(*key, *action, at_prompt),
            ),
    {
        let mut s = self.enter(pane);
        s.record_insert_key(key, action, at_prompt);
        self.leave(s);
    }

    /// Whether a block of a pane is folded.
    pub fn is_block_folded(&self, pane: PaneId, block: usize) -> (r: bool)
        ensures
            r == self@.state(pane).folded.contains(block),
    {
        match self.panes.get(&pane.0) {
            Some(state) => state.folded.contains(&block),
            None => false,
        }
    }

    /// Put a palette away, if there is one: whether there was.
    pub(crate) fn drop_palette(&mut self) -> (r: bool)
        requires
            old(self).wf(),
        ensures
            final(self).wf(),
            r == (old(self)@.palette is Some),
            final(self)@ == (if old(self)@.palette is Some {
                old(self)@.palette_gone().redrawn()
            } else {
                old(self)@
            }),
    {
        if self.palette.is_some() {
            self.palette = None;
            self.redraw();
            true
        } else {
            false
        }
    }

    pub(crate) fn toggle_commands(&mut self, keymap: &Keymap)
        requires
            old(self).wf(),
        ensures
            final(self).wf(),
            final(self)@ == old(self)@.palette_toggled(
                old(self)@.listed(PaletteMode::Commands, entry_views(keymap.menu@)),
            ),
    {
        if !self.drop_palette() {
            self.open_commands(keymap);
            self.redraw();
        }
    }

    pub(crate) fn toggle_history(&mut self)
        requires
            old(self).wf(),
        ensures
            final(self).wf(),
            final(self)@ == old(self)@.palette_toggled(
                old(self)@.listed(PaletteMode::History, plain_entries(old(self)@.shell_history)),
            ),
    {
        if !self.drop_palette() {
            self.open_history();
            self.redraw();
        }
    }

    pub(crate) fn toggle_swoop(&mut self, focused: PaneId)
        requires
            old(self).wf(),
        ensures
            final(self).wf(),
            final(self)@ == old(self)@.palette_toggled(old(self)@.swoop_opened(focused)),
    {
        if !self.drop_palette() {
            self.open_swoop(focused);
            self.redraw();
        }
    }

    pub(crate) fn move_tab(&mut self, left: bool)
        requires
            old(self).wf(),
        ensures
            final(self).wf(),
            final(self)@ == ({
                let tabs = old(self)@.tabs;
                if left && tabs.active > 0 {
                    old(self)@.with_tabs(tabs.swapped(tabs.active as int, tabs.active - 1))
                } else if !left && tabs.active + 1 < tabs.all.len() {
                    old(self)@.with_tabs(tabs.swapped(tabs.active as int, tabs.active + 1))
                } else {
                    old(self)@
                }
            }),
    {
        let at: usize = self.tabs.active;
        if left {
            if at > 0 {
                self.swap_tabs(at, at - 1);
            }
        } else if at < self.tabs.all.len() - 1 {
            self.swap_tabs(at, at + 1);
        }
    }

    pub(crate) fn close_pane_at(&mut self, i: usize)
        requires
            old(self).wf(),
        ensures
            final(self).wf(),
            final(self)@ == ({
                let ids = old(self)@.tabs.tab().ids();
                if i < ids.len() {
                    old(self)@.pane_close_asked(ids[i as int])
                } else {
                    old(self)@
                }
            }),
    {
        let panes = self.tabs.tab().panes();
        if i < panes.len() {
            self.close_pane(panes[i]);
        }
    }

    pub(crate) fn act_on_pane(&mut self, action: &Action, focused: PaneId)
        requires
            old(self).wf(),
        ensures
            final(self).wf(),
            final(self)@ == old(self)@.pane_acted(*action, focused),
    {
        let selected = self.selected_text();
        let mut s = self.enter(focused);
        s.handle_action(action, &selected);
        self.leave_at(focused, s);
    }
}

/// The place that is counted as `n` from one.
pub(crate) fn place_before(n: usize) -> (r: usize)
    ensures
        r == minus(n as int, 1),
{
    if n > 0 {
        n - 1
    } else {
        0
    }
}

fn lists_text(list: &Vec<String>, text: &str) -> (r: bool)
    ensures
        r == texts(list@).contains(text@),
{
    let mut i: usize = 0;
    while i < list.len()
        invariant
            i <= list@.len(),
            forall|j: int| 0 <= j < i ==> (#[trigger] texts(list@)[j]) != text@,
        decreases list@.len() - i,
    {
        if same_text(list[i].as_str(), text) {
            assert(texts(list@)[i as int] == text@);
            return true;
        }
        assert(texts(list@)[i as int] == list@[i as int]@);
        i = i + 1;
    }
    false
}

} // verus!
