//! The program as a whole: its tabs and panes, the pages over them, the palette, and
//! what the event loop keeps.

pub mod actions;
pub mod choices;
pub mod choosing;
pub mod commands;
pub mod naming;
pub mod outcomes;
pub mod output;
pub mod pages;
pub mod palette;
pub mod panes;
pub mod pointer;
pub mod ticks;
pub mod titles;
pub mod window;

use std::collections::HashMap;
use vstd::prelude::*;
use crate::events::texts;
use crate::grid::Grid;
use crate::input::{Action, Key, Mode, PaneId};
use crate::jobs::{Jobs, JobsView};
use crate::navigation::search::string_view;
use crate::pages::{Pages, PagesView, PageSlot, slot_views, SlotView};
use crate::palette::{Palette, PaletteEntry, PaletteView};
use crate::pointer::clipboard::{text_under, unless_empty};
use crate::requests::{Request, RequestView};
use crate::session::{
    effect_views, Effect, EffectView, Notice, NoticeKind, NoticeView, PaneState, Session,
    SessionView, Shared, SharedView, StateView, NOTICE_DURATION,
};
use crate::tabs::{leaves, Layout, Tab, Tabs, TabsView};
use crate::text::minus;

verus! {

broadcast use {
    Grid::lemma_bounds,
    Grid::lemma_scrolled,
    vstd::std_specs::hash::group_hash_axioms,
};

// ------------------------------------------------------------------------
// What the program holds
// ------------------------------------------------------------------------

/// The keys held with another.
#[derive(Clone, Copy, Debug, PartialEq, Eq, Structural)]
pub struct Modifiers {
    pub alt: bool,
    pub ctrl: bool,
    pub shift: bool,
}

/// A window command by its name.
#[derive(Debug)]
pub struct NamedAction {
    pub action: Action,
    pub name: String,
}

/// What keys and names stand for.
#[derive(Debug)]
pub struct Keymap {
    /// The window commands that have a name.
    pub commands: Vec<NamedAction>,
    /// What the palette lists.
    pub menu: Vec<PaletteEntry>,
    pub redo: Key,
    pub undo: Key,
}

impl Keymap {
    /// The place of the first command from `i` on that is named `name`.
    pub open spec fn named(self, name: Seq<char>, i: int) -> int
        decreases self.commands@.len() - i,
    {
        if 0 <= i < self.commands@.len() && self.commands@[i].name@ != name {
            self.named(name, i + 1)
        } else {
            i
        }
    }

    /// The window command named `name`.
    pub fn find(&self, name: &str) -> (r: Option<&Action>)
        ensures
            match r {
                Some(action) => self.named(name@, 0) < self.commands@.len()
                    && self.named(name@, 0) >= 0 && *action == self.commands@[self.named(
                    name@,
                    0,
                )].action,
                None => self.named(name@, 0) == self.commands@.len(),
            },
    {
        let mut i: usize = 0;
        while i < self.commands.len()
            invariant
                i <= self.commands@.len(),
                self.named(name@, i as int) == self.named(name@, 0),
            decreases self.commands@.len() - i,
        {
            if crate::text::same_text(self.commands[i].name.as_str(), name) {
                return Some(&self.commands[i].action);
            }
            i = i + 1;
        }
        None
    }
}

/// Which colors are used.
#[derive(Debug)]
pub enum ThemeSetting {
    /// As the system has them.
    Auto,
    Dark,
    Light,
    Named(String),
}

/// Which colors are used, by name.
pub enum ThemeView {
    Auto,
    Dark,
    Light,
    Named(Seq<char>),
}

impl View for ThemeSetting {
    type V = ThemeView;

    open spec fn view(&self) -> ThemeView {
        match *self {
            ThemeSetting::Auto => ThemeView::Auto,
            ThemeSetting::Dark => ThemeView::Dark,
            ThemeSetting::Light => ThemeView::Light,
            ThemeSetting::Named(name) => ThemeView::Named(name@),
        }
    }
}

/// What the user has set.
#[derive(Clone, Copy, Debug)]
pub struct Config {
    /// Whether the cursor blinks.
    pub blink: bool,
    /// The most trust that a block is given.
    pub block_max_trust: u8,
    /// Whether programs may read the clipboard.
    pub clipboard_read: bool,
    pub rainbow_parens: bool,
    pub sentence_highlight: bool,
}

/// What the event loop times.
#[derive(Clone, Copy, Debug)]
pub struct Clock {
    /// When the cursor blinks next.
    pub blink_next_flip: u64,
    /// Whether the cursor is in its visible phase.
    pub blink_phase: bool,
    /// When something last happened.
    pub last_activity: u64,
    /// When the prefix that is held was opened.
    pub pending_since: Option<u64>,
}

/// What the program knows of its window.
#[derive(Clone, Copy, Debug)]
pub struct WindowState {
    /// Whether there is something to draw on.
    pub drawn: bool,
    pub exit_requested: bool,
    pub focused: bool,
    pub modifiers: Modifiers,
    pub pending_reload: bool,
    pub settings_open: bool,
    /// Whether key presses are to be passed over: they are made up when the window gets
    /// focus with keys held.
    pub suppress_synthesized_keys: bool,
    /// Whether this system makes such presses up.
    pub synthesizes_presses: bool,
}

/// A selection drag.
#[derive(Clone, Copy, Debug)]
pub struct Drag {
    /// When the edge may scroll again.
    pub auto_scroll_next: u64,
    pub mouse_down: bool,
}

/// A pane that was closed: where it was, where its shell was, and the pages over it.
pub struct ClosedPane {
    pub cwd: Option<String>,
    /// How its tab was split, where that is worth going back to.
    pub layout: Option<Layout>,
    pub pages: Vec<PageSlot>,
    pub pane: PaneId,
    pub tab: usize,
}

/// A pane that was closed by its contents.
pub struct ClosedView {
    pub cwd: Option<Seq<char>>,
    pub layout: Option<Layout>,
    pub pages: Seq<SlotView>,
    pub pane: PaneId,
    pub tab: usize,
}

impl View for ClosedPane {
    type V = ClosedView;

    open spec fn view(&self) -> ClosedView {
        ClosedView {
            cwd: string_view(self.cwd),
            layout: self.layout,
            pages: slot_views(self.pages@),
            pane: self.pane,
            tab: self.tab,
        }
    }
}

/// Closed panes by their contents.
pub open spec fn closed_views(closed: Seq<ClosedPane>) -> Seq<ClosedView> {
    Seq::new(closed.len(), |i: int| closed[i]@)
}

/// The program as a whole.
pub struct App {
    pub clock: Clock,
    pub closed: Vec<ClosedPane>,
    pub config: Config,
    pub drag: Drag,
    pub jobs: Jobs,
    pub next_pane_id: u64,
    pub pages: Pages,
    pub palette: Option<Palette>,
    /// What was typed in the palette and acted on, the last first.
    pub palette_history: Vec<String>,
    pub panes: HashMap<u64, PaneState>,
    pub shared: Shared,
    /// The commands the shell remembers.
    pub shell_history: Vec<String>,
    /// Where the cursor was when the lines of a pane were listed to jump between.
    pub swoop_origin: Option<(PaneId, (usize, usize))>,
    /// What is typed of a tab's new name.
    pub tab_rename_input: Option<String>,
    pub tabs: Tabs,
    pub theme: ThemeSetting,
    /// What is typed of a new theme's name.
    pub theme_name_input: Option<String>,
    /// The title each pane's program has set.
    pub titles: HashMap<u64, String>,
    pub window: WindowState,
}

/// The program as a whole by its contents.
pub struct AppView {
    pub clock: Clock,
    pub closed: Seq<ClosedView>,
    pub config: Config,
    pub drag: Drag,
    pub jobs: JobsView,
    pub next_pane_id: u64,
    pub pages: PagesView,
    pub palette: Option<PaletteView>,
    pub palette_history: Seq<Seq<char>>,
    pub panes: Map<u64, StateView>,
    pub shared: SharedView,
    pub shell_history: Seq<Seq<char>>,
    pub swoop_origin: Option<(PaneId, (usize, usize))>,
    pub tab_rename_input: Option<Seq<char>>,
    pub tabs: TabsView,
    pub theme: ThemeView,
    pub theme_name_input: Option<Seq<char>>,
    pub titles: Map<u64, Seq<char>>,
    pub window: WindowState,
}

/// Panes by what they remember.
pub open spec fn state_views(panes: Map<u64, PaneState>) -> Map<u64, StateView> {
    panes.map_values(|state: PaneState| state@)
}

/// Titles by their texts.
pub open spec fn title_texts(titles: Map<u64, String>) -> Map<u64, Seq<char>> {
    titles.map_values(|title: String| title@)
}

pub open spec fn palette_view(palette: Option<Palette>) -> Option<PaletteView> {
    match palette {
        Some(palette) => Some(palette@),
        None => None,
    }
}

impl View for App {
    type V = AppView;

    open spec fn view(&self) -> AppView {
        AppView {
            clock: self.clock,
            closed: closed_views(self.closed@),
            config: self.config,
            drag: self.drag,
            jobs: self.jobs@,
            next_pane_id: self.next_pane_id,
            pages: self.pages@,
            palette: palette_view(self.palette),
            palette_history: texts(self.palette_history@),
            panes: state_views(self.panes@),
            shared: self.shared@,
            shell_history: texts(self.shell_history@),
            swoop_origin: self.swoop_origin,
            tab_rename_input: string_view(self.tab_rename_input),
            tabs: self.tabs@,
            theme: self.theme@,
            theme_name_input: string_view(self.theme_name_input),
            titles: title_texts(self.titles@),
            window: self.window,
        }
    }
}

impl AppView {
    /// What is held is in order, and every pane of a tab has a number that was given
    /// out.
    pub open spec fn wf(self) -> bool {
        &&& self.jobs.wf()
        &&& self.pages.wf()
        &&& self.palette matches Some(palette) ==> palette.wf()
        &&& self.tabs.wf()
        &&& forall|k: u64| #[trigger] self.panes.dom().contains(k) ==> self.panes[k].wf()
        &&& ids_below(self.tabs, self.next_pane_id)
        &&& forall|i: int|
            0 <= i < self.closed.len() ==> closed_ok(#[trigger] self.closed[i], self.next_pane_id)
    }

    /// The numbers given out have not run out.
    pub open spec fn has_room(self) -> bool {
        &&& self.jobs.next_id < u64::MAX
        &&& self.next_pane_id < u64::MAX
        &&& self.pages.next_id < u64::MAX
        &&& self.tabs.all.len() < usize::MAX
    }

    /// What a pane remembers. One that nothing is known of is fresh.
    pub open spec fn state(self, id: PaneId) -> StateView {
        if self.panes.dom().contains(id.0) {
            self.panes[id.0]
        } else {
            StateView::fresh()
        }
    }

    /// A pane, with what all panes share.
    pub open spec fn session(self, id: PaneId) -> SessionView {
        SessionView { id, shared: self.shared, state: self.state(id) }
    }

    /// With a pane, and what all panes share, as `s` has them.
    pub open spec fn with_session(self, s: SessionView) -> AppView {
        AppView { panes: self.panes.insert(s.id.0, s.state), shared: s.shared, ..self }
    }

    /// With pane `id`, and what all panes share, as `s` has them.
    pub open spec fn with_pane(self, id: PaneId, s: SessionView) -> AppView {
        AppView { panes: self.panes.insert(id.0, s.state), shared: s.shared, ..self }
    }

    /// With something changed on screen.
    pub open spec fn redrawn(self) -> AppView {
        AppView { shared: SharedView { dirty: true, ..self.shared }, ..self }
    }

    /// With a notice raised.
    pub open spec fn notified(self, text: Seq<char>, kind: NoticeKind) -> AppView {
        AppView {
            shared: SharedView {
                notice: Some(NoticeView { kind, raised: self.shared.now, text }),
                dirty: true,
                ..self.shared
            },
            ..self
        }
    }

    /// With a fault reported.
    pub open spec fn faulted(self, text: Seq<char>) -> AppView {
        self.notified(text, NoticeKind::Error)
    }

    /// With something confirmed.
    pub open spec fn told(self, text: Seq<char>) -> AppView {
        self.notified(text, NoticeKind::Info)
    }

    /// With `effect` to be done.
    pub open spec fn with_effect(self, effect: EffectView) -> AppView {
        AppView {
            shared: SharedView { effects: self.shared.effects.push(effect), ..self.shared },
            ..self
        }
    }

    /// With `request` made of the world outside.
    pub open spec fn asked(self, request: RequestView) -> AppView {
        self.with_effect(EffectView::Ask(request))
    }

    /// With the panes to be fitted to their room, where there is a window to fit them to.
    pub open spec fn refitted(self) -> AppView {
        if self.window.drawn {
            self.with_effect(EffectView::ResizePanes)
        } else {
            self
        }
    }

    /// With pane `id` in mode `mode`.
    pub open spec fn with_mode(self, id: PaneId, mode: Mode) -> AppView {
        self.with_session(self.session(id).with_mode(mode))
    }

    /// The grid that a selection in a pane is made on: what the page over it has drawn,
    /// or what the pane shows.
    pub open spec fn selection_grid(self, pane: PaneId) -> Option<Grid> {
        if self.pages.covers(pane) && self.pages.slots[pane.0].painted is Some {
            self.pages.slots[pane.0].painted
        } else {
            match self.state(pane).pane {
                Some(pane) => Some(pane.grid),
                None => None,
            }
        }
    }

    /// The text under the selection.
    pub open spec fn selected(self) -> Option<Seq<char>> {
        match self.shared.selection.span {
            Some(sel) => match self.selection_grid(sel.pane) {
                Some(grid) => unless_empty(text_under(grid, sel)),
                None => None,
            },
            None => None,
        }
    }

    /// The notice that is still to be shown.
    pub open spec fn live_notice(self) -> Option<NoticeView> {
        match self.shared.notice {
            Some(notice) => if minus(self.shared.now as int, notice.raised as int)
                < NOTICE_DURATION {
                Some(notice)
            } else {
                None
            },
            None => None,
        }
    }
}

/// Every pane of the tabs has a number below `next`.
pub open spec fn ids_below(tabs: TabsView, next: u64) -> bool {
    forall|i: int, id: PaneId|
        #![trigger tabs.all[i].ids().contains(id)]
        0 <= i < tabs.all.len() && tabs.all[i].ids().contains(id) ==> id.0 < next
}

/// What is kept of a closed pane is in order: its tab had each pane once, with a number
/// below `next`, and what its pages had drawn is in order.
pub open spec fn closed_ok(closed: ClosedView, next: u64) -> bool {
    &&& closed.pane.0 < next
    &&& closed.layout matches Some(layout) ==> {
        &&& leaves(layout).no_duplicates()
        &&& forall|i: int| 0 <= i < leaves(layout).len() ==> (#[trigger] leaves(layout)[i]).0 < next
    }
    &&& forall|i: int|
        0 <= i < closed.pages.len() ==> crate::pages::slot_ok(#[trigger] closed.pages[i])
}

/// A pane taken out and put back is as it was put back.
pub broadcast proof fn lemma_put_back(panes: Map<u64, StateView>, k: u64, state: StateView)
    ensures
        #[trigger] panes.remove(k).insert(k, state) == panes.insert(k, state),
{
    assert(panes.remove(k).insert(k, state) =~= panes.insert(k, state));
}

/// With a pane as a session leaves it, what is held is in order as long as the session
/// is.
pub broadcast proof fn lemma_with_session(app: AppView, s: SessionView)
    requires
        app.wf(),
        s.wf(),
    ensures
        #[trigger] app.with_session(s).wf(),
{
    let after = app.with_session(s);
    assert forall|k: u64| #[trigger] after.panes.dom().contains(k) implies after.panes[k].wf() by {
        if k != s.id.0 {
            assert(app.panes.dom().contains(k));
        }
    }
}

/// A pane, and what all panes share, is in order.
pub broadcast proof fn lemma_session(app: AppView, id: PaneId)
    requires
        app.wf(),
    ensures
        #[trigger] app.session(id).wf(),
{
}

/// Three texts one after the other.
pub fn phrase(a: &str, b: &str, c: &str) -> (r: String)
    ensures
        r@ == a@ + b@ + c@,
{
    let mut chars = crate::text::chars_of(a);
    crate::text::append_str(&mut chars, b);
    crate::text::append_str(&mut chars, c);
    crate::text::string_of(&chars)
}

/// The same text again, where there is one.
pub fn copy_option(text: &Option<String>) -> (r: Option<String>)
    ensures
        string_view(r) == string_view(*text),
{
    match text {
        Some(text) => Some(text.as_str().to_owned()),
        None => None,
    }
}

impl App {
    /// What is held is in order.
    pub open spec fn wf(self) -> bool {
        self@.wf()
    }

    /// The program as it starts at `now`: one tab with one pane, whose shell has not
    /// started.
    pub fn new(palette_history: Vec<String>, now: u64) -> (r: App)
        ensures
            r.wf(),
            r@ == (AppView {
                clock: Clock {
                    blink_next_flip: crate::events::later(
                        now,
                        crate::events::CURSOR_BLINK_PERIOD,
                    ) as u64,
                    blink_phase: true,
                    last_activity: now,
                    pending_since: None,
                },
                closed: Seq::empty(),
                config: Config {
                    blink: true,
                    block_max_trust: 0,
                    clipboard_read: false,
                    rainbow_parens: false,
                    sentence_highlight: false,
                },
                drag: Drag { auto_scroll_next: now, mouse_down: false },
                jobs: JobsView { next_id: 0, running: Seq::empty() },
                next_pane_id: 1,
                pages: PagesView::empty(),
                palette: None,
                palette_history: texts(palette_history@),
                panes: Map::empty().insert(
                    0u64,
                    StateView { mode: Some(Mode::Insert), ..StateView::fresh() },
                ),
                shared: SharedView {
                    dirty: true,
                    now,
                    status_bar_enabled: true,
                    ..SharedView::fresh()
                },
                shell_history: Seq::empty(),
                swoop_origin: None,
                tab_rename_input: None,
                tabs: TabsView {
                    active: 0,
                    all: seq![
                        Tab { focus: PaneId(0), layout: Layout::Leaf(PaneId(0)), zoomed: false },
                    ],
                    mru: seq![0usize],
                    names: seq![None],
                    walk: None,
                },
                theme: ThemeView::Auto,
                theme_name_input: None,
                titles: Map::empty(),
                window: WindowState {
                    drawn: false,
                    exit_requested: false,
                    focused: true,
                    modifiers: Modifiers { alt: false, ctrl: false, shift: false },
                    pending_reload: false,
                    settings_open: false,
                    suppress_synthesized_keys: false,
                    synthesizes_presses: false,
                },
            }),
    {
        let mut shared = Shared::default();
        shared.dirty = true;
        shared.now = now;
        shared.status_bar_enabled = true;
        let mut panes: HashMap<u64, PaneState> = HashMap::new();
        let mut first = PaneState::default();
        first.mode = Some(Mode::default());
        let ghost state = first@;
        panes.insert(0, first);
        let r = App {
            clock: Clock {
                blink_next_flip: crate::events::after(now, crate::events::CURSOR_BLINK_PERIOD),
                blink_phase: true,
                last_activity: now,
                pending_since: None,
            },
            closed: Vec::new(),
            config: Config {
                blink: true,
                block_max_trust: 0,
                clipboard_read: false,
                rainbow_parens: false,
                sentence_highlight: false,
            },
            drag: Drag { auto_scroll_next: now, mouse_down: false },
            jobs: Jobs::new(),
            next_pane_id: 1,
            pages: Pages::new(),
            palette: None,
            palette_history,
            panes,
            shared,
            shell_history: Vec::new(),
            swoop_origin: None,
            tab_rename_input: None,
            tabs: Tabs::new(),
            theme: ThemeSetting::Auto,
            theme_name_input: None,
            titles: HashMap::new(),
            window: WindowState {
                drawn: false,
                exit_requested: false,
                focused: true,
                modifiers: Modifiers { alt: false, ctrl: false, shift: false },
                pending_reload: false,
                settings_open: false,
                suppress_synthesized_keys: false,
                synthesizes_presses: false,
            },
        };
        proof {
            assert(closed_views(r.closed@) =~= Seq::empty());
            assert(texts(r.shell_history@) =~= Seq::empty());
            assert(title_texts(r.titles@) =~= Map::empty());
            assert(r@.panes =~= Map::empty().insert(0u64, state));
            assert(r@.tabs.all[0].ids() =~= seq![PaneId(0)]);
            assert(ids_below(r@.tabs, 1)) by {
                assert forall|i: int, id: PaneId|
                    #![trigger r@.tabs.all[i].ids().contains(id)]
                    0 <= i < r@.tabs.all.len() && r@.tabs.all[i].ids().contains(id) implies id.0
                    < 1 by {
                    let j = choose|j: int|
                        0 <= j < r@.tabs.all[i].ids().len() && r@.tabs.all[i].ids()[j] == id;
                    assert(j == 0);
                }
            }
        }
        r
    }

    /// Take a pane out to work on it, with what all panes share.
    pub(crate) fn enter(&mut self, id: PaneId) -> (s: Session)
        requires
            old(self).wf(),
        ensures
            s@ == old(self)@.session(id),
            s.wf(),
            final(self)@ == (AppView {
                panes: old(self)@.panes.remove(id.0),
                shared: SharedView::fresh(),
                ..old(self)@
            }),
    {
        let ghost before = self@;
        let mut shared = Shared::default();
        std::mem::swap(&mut shared, &mut self.shared);
        let state = match self.panes.remove(&id.0) {
            Some(state) => state,
            None => PaneState::default(),
        };
        assert(self@.panes =~= before.panes.remove(id.0));
        Session { id, shared, state }
    }

    /// Put a pane back, with what all panes share.
    pub(crate) fn leave(&mut self, s: Session)
        ensures
            final(self)@ == old(self)@.with_session(s@),
    {
        let ghost before = self@;
        let ghost after = s@;
        self.shared = s.shared;
        self.panes.insert(s.id.0, s.state);
        assert(self@.panes =~= before.panes.insert(after.id.0, after.state));
    }

    /// Put a pane back as pane `id`, with what all panes share.
    pub(crate) fn leave_at(&mut self, id: PaneId, s: Session)
        ensures
            final(self)@ == old(self)@.with_pane(id, s@),
    {
        let ghost before = self@;
        let ghost after = s@;
        self.shared = s.shared;
        self.panes.insert(id.0, s.state);
        assert(self@.panes =~= before.panes.insert(id.0, after.state));
    }

    /// The Normal-mode cursor of pane `id`.
    pub fn nav_cursor(&self, id: PaneId) -> (r: Option<(usize, usize)>)
        ensures
            r == self@.state(id).nav_cursor,
    {
        match self.panes.get(&id.0) {
            Some(state) => state.nav_cursor,
            None => None,
        }
    }

    /// Put the Normal-mode cursor of pane `id` at `pos`.
    pub fn set_nav_cursor(&mut self, id: PaneId, pos: (usize, usize))
        requires
            old(self).wf(),
        ensures
            final(self).wf(),
            final(self)@ == old(self)@.with_session(old(self)@.session(id).with_cursor(pos)),
    {
        broadcast use {lemma_put_back, lemma_session, lemma_with_session};

        let mut s = self.enter(id);
        s.set_nav_cursor(pos);
        self.leave(s);
    }

    /// Take the Normal-mode cursor of pane `id` away.
    pub fn clear_nav_cursor(&mut self, id: PaneId)
        requires
            old(self).wf(),
        ensures
            final(self).wf(),
            final(self)@ == old(self)@.with_session(old(self)@.session(id).without_cursor()),
    {
        broadcast use {lemma_put_back, lemma_session, lemma_with_session};

        let mut s = self.enter(id);
        s.clear_nav_cursor();
        self.leave(s);
    }

    /// The mode pane `id` is in.
    pub fn mode(&self, id: PaneId) -> (r: Mode)
        ensures
            r == self@.session(id).mode(),
    {
        match self.panes.get(&id.0) {
            Some(state) => match state.mode {
                Some(mode) => mode,
                None => Mode::Insert,
            },
            None => Mode::Insert,
        }
    }

    /// Put pane `id` in mode `mode`.
    pub fn set_mode(&mut self, id: PaneId, mode: Mode)
        requires
            old(self).wf(),
        ensures
            final(self).wf(),
            final(self)@ == old(self)@.with_mode(id, mode),
    {
        broadcast use {lemma_put_back, lemma_session, lemma_with_session};

        let mut s = self.enter(id);
        s.state.mode = Some(mode);
        assert(s@ == old(self)@.session(id).with_mode(mode));
        self.leave(s);
    }

    /// The tab that is shown.
    pub fn tab(&self) -> (r: &Tab)
        requires
            self.wf(),
        ensures
            *r == self@.tabs.tab(),
    {
        self.tabs.tab()
    }

    /// The pane that has focus.
    pub fn focused(&self) -> (r: PaneId)
        requires
            self.wf(),
        ensures
            r == self@.tabs.tab().focus,
    {
        self.tabs.tab().focused()
    }

    /// Whether the numbers given out have not run out.
    pub fn has_numbers_left(&self) -> (r: bool)
        ensures
            r == self@.has_room(),
    {
        self.jobs.has_number_left() && self.next_pane_id < u64::MAX && self.pages.next_id
            < u64::MAX && self.tabs.all.len() < usize::MAX
    }

    /// Have `effect` done.
    pub fn emit(&mut self, effect: Effect)
        ensures
            final(self)@ == old(self)@.with_effect(effect@),
    {
        let ghost before = self.shared.effects@;
        self.shared.effects.push(effect);
        assert(effect_views(self.shared.effects@) =~= effect_views(before).push(effect@));
    }

    /// Make `request` of the world outside.
    pub fn ask(&mut self, request: Request)
        ensures
            final(self)@ == old(self)@.asked(request@),
    {
        self.emit(Effect::Ask(request));
    }

    /// Have what is on screen drawn again.
    pub fn redraw(&mut self)
        ensures
            final(self)@ == old(self)@.redrawn(),
    {
        self.shared.dirty = true;
    }

    /// Have the panes fitted to their room, where there is a window to fit them to.
    pub fn refit(&mut self)
        ensures
            final(self)@ == old(self)@.refitted(),
    {
        if self.window.drawn {
            self.emit(Effect::ResizePanes);
        }
    }

    /// Raise a notice, and have it drawn.
    pub fn show_notice(&mut self, text: &str, kind: NoticeKind)
        ensures
            final(self)@ == old(self)@.notified(text@, kind),
    {
        self.shared.notice = Some(
            Notice { kind, raised: self.shared.now, text: text.to_owned() },
        );
        self.shared.dirty = true;
    }

    /// Report a fault.
    pub fn set_error(&mut self, text: &str)
        ensures
            final(self)@ == old(self)@.faulted(text@),
    {
        self.show_notice(text, NoticeKind::Error);
    }

    /// Confirm something.
    pub fn set_notice(&mut self, text: &str)
        ensures
            final(self)@ == old(self)@.told(text@),
    {
        self.show_notice(text, NoticeKind::Info);
    }

    /// The notice that is still to be shown: its text and its kind.
    pub fn active_notice(&self) -> (r: Option<(&str, NoticeKind)>)
        ensures
            match r {
                Some((text, kind)) => self@.live_notice() matches Some(notice) && notice.text
                    == text@ && notice.kind == kind,
                None => self@.live_notice() is None,
            },
    {
        match &self.shared.notice {
            Some(notice) => {
                let now: u64 = self.shared.now;
                if now <= notice.raised || now - notice.raised < NOTICE_DURATION {
                    Some((notice.text.as_str(), notice.kind))
                } else {
                    None
                }
            },
            None => None,
        }
    }

    /// Whether the status bar is there.
    pub fn status_bar_visible(&self) -> (r: bool)
        ensures
            r == (self@.shared.status_bar_enabled || self@.shared.search.query is Some),
    {
        crate::events::status_bar_shown(
            self.shared.status_bar_enabled,
            self.shared.search.query.is_some(),
        )
    }

    /// The grid that a selection in a pane is made on.
    pub fn selection_grid(&self, pane: PaneId) -> (r: Option<&Grid>)
        requires
            self.wf(),
        ensures
            match r {
                Some(grid) => self@.selection_grid(pane) == Some(*grid) && grid.wf(),
                None => self@.selection_grid(pane) is None,
            },
    {
        if let Some(slot) = self.pages.slots.get(&pane.0) {
            assert(self@.pages.slots.dom().contains(pane.0));
            if let Some(grid) = &slot.painted {
                return Some(grid);
            }
        }
        match self.panes.get(&pane.0) {
            Some(state) => {
                assert(self@.panes.dom().contains(pane.0));
                match &state.pane {
                    Some(pane) => Some(&pane.grid),
                    None => None,
                }
            },
            None => None,
        }
    }

    /// The text under the selection.
    pub fn selected_text(&self) -> (r: Option<String>)
        requires
            self.wf(),
        ensures
            string_view(r) == self@.selected(),
    {
        match self.shared.selection.span {
            Some(sel) => match self.selection_grid(sel.pane) {
                Some(grid) => crate::pointer::clipboard::selected_text(grid, sel),
                None => None,
            },
            None => None,
        }
    }

    /// The next pane's number.
    pub fn alloc_pane_id(&mut self) -> (r: PaneId)
        requires
            old(self).wf(),
            old(self)@.next_pane_id < u64::MAX,
        ensures
            final(self).wf(),
            final(self)@ == (AppView {
                next_pane_id: (old(self)@.next_pane_id + 1) as u64,
                ..old(self)@
            }),
            r == PaneId(old(self)@.next_pane_id),
    {
        let id: u64 = self.next_pane_id;
        self.next_pane_id = id + 1;
        PaneId(id)
    }
}

/// What a pane is given does not reach another: each has a cursor and a mode of its own.
pub proof fn law_panes_are_kept_apart(app: AppView, a: PaneId, b: PaneId, s: SessionView)
    requires
        s.id == a,
        a != b,
    ensures
        app.with_session(s).state(b) == app.state(b),
        app.with_session(s).state(a) == s.state,
{
}

/// A pane's number is given out once: no pane that is open has it.
pub proof fn law_a_new_pane_has_a_number_of_its_own(app: AppView, i: int)
    requires
        app.wf(),
        0 <= i < app.tabs.all.len(),
    ensures
        !app.tabs.all[i].ids().contains(PaneId(app.next_pane_id)),
{
}

/// A notice is shown for its time and no longer.
pub proof fn law_a_notice_is_shown_for_its_time(app: AppView, text: Seq<char>, kind: NoticeKind, now: u64)
    requires
        app.shared.now <= now,
    ensures
        ({
            let later = AppView {
                shared: SharedView { now, ..app.notified(text, kind).shared },
                ..app.notified(text, kind)
            };
            later.live_notice() is Some <==> now - app.shared.now < NOTICE_DURATION
        }),
{
}

} // verus!
