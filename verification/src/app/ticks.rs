//! What the event loop does: on what happens to the window, and each time before it waits.

use vstd::prelude::*;
use crate::app::output::{any_output, output_views, OutputView, PaneOutput};
use crate::app::{
    lemma_put_back, lemma_session, lemma_with_session, phrase, App, AppView, Clock, Config, Drag,
    Modifiers, ThemeSetting, ThemeView, WindowState,
};
use crate::events::{
    after, hint_due, hint_shown, later, next_wakeup, theme_name, theme_name_ok, wakeup, CURSOR_BLINK_PERIOD,
};
use crate::grid::Grid;
use crate::input::{Mode, PaneId, PendingPrefix};
use crate::navigation::search::string_view;
use crate::pointer::{Selection, SelectionState};
use crate::requests::{Export, Request, RequestView};
use crate::session::{SessionView, SharedView};
use crate::text::{minus, trim_text, trimmed};

verus! {

broadcast use {
    Grid::lemma_bounds,
    Grid::lemma_scrolled,
    vstd::std_specs::hash::group_hash_axioms,
    lemma_put_back,
    lemma_session,
    lemma_with_session,
};

/// How often a selection drag at an edge scrolls, in milliseconds.
pub const AUTO_SCROLL_INTERVAL: u64 = 50;

// ------------------------------------------------------------------------
// What happens to the window
// ------------------------------------------------------------------------

/// Something that happens to the window.
#[derive(Clone, Copy, Debug)]
pub enum WindowEvent {
    CloseRequested,
    Focused(bool),
    ModifiersChanged(Modifiers),
    RedrawRequested,
    Resized { width: u32, height: u32 },
    /// The surface has been fitted to a scale that has changed.
    SurfaceRescaled,
    /// The surface has been fitted to the window, which may be minimized.
    SurfaceResized { minimized: bool },
    /// The system's colors have changed.
    ThemeChanged,
}

/// What tells a program that its window got focus.
pub open spec fn focus_report(focused: bool) -> Seq<u8> {
    if focused {
        seq![27u8, 91u8, 73u8]
    } else {
        seq![27u8, 91u8, 79u8]
    }
}

impl AppView {
    /// With something having happened at `now`.
    pub open spec fn active_at(self, now: u64) -> AppView {
        AppView {
            clock: Clock { last_activity: now, ..self.clock },
            shared: SharedView { now, ..self.shared },
            ..self
        }
    }

    /// With the window in focus, or not any more.
    pub open spec fn window_focused(self, focused: bool) -> AppView {
        AppView {
            clock: if focused {
                self.clock
            } else {
                Clock { pending_since: None, ..self.clock }
            },
            shared: SharedView {
                dirty: self.shared.dirty || self.window.focused != focused,
                pending: if focused {
                    self.shared.pending
                } else {
                    PendingPrefix::Idle
                },
                ..self.shared
            },
            window: WindowState {
                focused,
                suppress_synthesized_keys: self.window.suppress_synthesized_keys || (focused
                    && self.window.synthesizes_presses),
                ..self.window
            },
            ..self
        }
    }

    /// With the program in focus told that the window got focus, or lost it, where it wants
    /// to know.
    pub open spec fn focus_reported(self, focused: bool) -> AppView {
        let s = self.session(self.tabs.tab().focus);
        if s.state.pane matches Some(pane) && pane.focus_events {
            self.with_session(s.sent(focus_report(focused)))
        } else {
            self
        }
    }

    /// With other keys held.
    pub open spec fn modifiers_held(self, modifiers: Modifiers) -> AppView {
        AppView {
            window: WindowState { modifiers, suppress_synthesized_keys: false, ..self.window },
            ..self
        }
    }

    /// With the panes fitted to a surface that has changed.
    pub open spec fn surface_fitted(self, minimized: bool) -> AppView {
        let me = self.refitted().asked(RequestView::SnapWindow).redrawn();
        if minimized {
            me
        } else {
            me.asked(RequestView::SaveState)
        }
    }

    /// What an event does.
    #[verifier::opaque]
    pub open spec fn window_changed(self, event: WindowEvent, now: u64) -> AppView {
        let me = self.active_at(now);
        match event {
            WindowEvent::CloseRequested => me.asked(RequestView::Quit),
            WindowEvent::Focused(focused) => me.window_focused(focused).focus_reported(focused),
            WindowEvent::ModifiersChanged(modifiers) => me.modifiers_held(modifiers),
            WindowEvent::RedrawRequested => me.asked(RequestView::Render),
            WindowEvent::Resized { width, height } => if width > 0 && height > 0 {
                me.asked(RequestView::ResizeSurface { width, height })
            } else {
                me
            },
            WindowEvent::SurfaceRescaled => me.refitted().redrawn(),
            WindowEvent::SurfaceResized { minimized } => me.surface_fitted(minimized),
            WindowEvent::ThemeChanged => if me.theme == ThemeView::Auto && me.window.drawn {
                me.asked(RequestView::RebuildTheme).redrawn()
            } else {
                me
            },
        }
    }
}

impl App {
    fn note_activity(&mut self, now: u64)
        requires
            old(self).wf(),
        ensures
            final(self).wf(),
            final(self)@ == old(self)@.active_at(now),
    {
        self.clock.last_activity = now;
        self.shared.now = now;
    }

    fn change_focus(&mut self, focused: bool)
        requires
            old(self).wf(),
        ensures
            final(self).wf(),
            final(self)@ == old(self)@.window_focused(focused),
    {
        if focused && self.window.synthesizes_presses {
            self.window.suppress_synthesized_keys = true;
        }
        if !focused {
            self.shared.pending = PendingPrefix::Idle;
            self.clock.pending_since = None;
        }
        if self.window.focused != focused {
            self.window.focused = focused;
            self.shared.dirty = true;
        }
    }

    fn report_focus(&mut self, focused: bool)
        requires
            old(self).wf(),
        ensures
            final(self).wf(),
            final(self)@ == old(self)@.focus_reported(focused),
    {
        let pane = self.focused();
        let wants = match self.panes.get(&pane.0) {
            Some(state) => match &state.pane {
                Some(pane) => pane.focus_events,
                None => false,
            },
            None => false,
        };
        if wants {
            let mut s = self.enter(pane);
            let bytes: [u8; 3] = if focused {
                [27u8, 91u8, 73u8]
            } else {
                [27u8, 91u8, 79u8]
            };
            assert(bytes@ =~= focus_report(focused));
            s.send(&bytes);
            self.leave(s);
        }
    }

    fn hold_modifiers(&mut self, modifiers: Modifiers)
        requires
            old(self).wf(),
        ensures
            final(self).wf(),
            final(self)@ == old(self)@.modifiers_held(modifiers),
    {
        self.window.modifiers = modifiers;
        self.window.suppress_synthesized_keys = false;
    }

    fn fit_surface(&mut self, minimized: bool)
        requires
            old(self).wf(),
        ensures
            final(self).wf(),
            final(self)@ == old(self)@.surface_fitted(minimized),
    {
        self.refit();
        self.ask(Request::SnapWindow);
        self.redraw();
        if !minimized {
            self.ask(Request::SaveState);
        }
    }

    fn follow_system_theme(&mut self)
        requires
            old(self).wf(),
        ensures
            final(self).wf(),
            final(self)@ == (if old(self)@.theme == ThemeView::Auto && old(self)@.window.drawn {
                old(self)@.asked(RequestView::RebuildTheme).redrawn()
            } else {
                old(self)@
            }),
    {
        let auto = match &self.theme {
            ThemeSetting::Auto => true,
            _ => false,
        };
        if auto && self.window.drawn {
            self.ask(Request::RebuildTheme);
            self.redraw();
        }
    }

    /// Do what something that happens to the window at `now` asks for.
    pub fn window_event(&mut self, event: WindowEvent, now: u64)
        requires
            old(self).wf(),
        ensures
            final(self).wf(),
            final(self)@ == old(self)@.window_changed(event, now),
    {
        proof {
            reveal(AppView::window_changed);
        }
        self.note_activity(now);
        match event {
            WindowEvent::CloseRequested => self.ask(Request::Quit),
            WindowEvent::Focused(focused) => {
                self.change_focus(focused);
                self.report_focus(focused);
            },
            WindowEvent::ModifiersChanged(modifiers) => self.hold_modifiers(modifiers),
            WindowEvent::RedrawRequested => self.ask(Request::Render),
            WindowEvent::Resized { width, height } => if width > 0 && height > 0 {
                self.ask(Request::ResizeSurface { width, height });
            },
            WindowEvent::SurfaceRescaled => {
                self.refit();
                self.redraw();
            },
            WindowEvent::SurfaceResized { minimized } => self.fit_surface(minimized),
            WindowEvent::ThemeChanged => self.follow_system_theme(),
        }
    }
}

// ------------------------------------------------------------------------
// A drag at an edge
// ------------------------------------------------------------------------

/// A pointer that is held near the top or the bottom of the panes, and how many rows that
/// scrolls by.
#[derive(Clone, Copy, Debug)]
pub struct Edge {
    pub lines: usize,
    pub up: bool,
}

impl AppView {
    /// With the pane of a selection scrolled at an edge, at most once in an interval.
    pub open spec fn edge_scrolled(self, pane: PaneId, edge: Edge, now: u64) -> AppView {
        if now >= self.drag.auto_scroll_next {
            let s = self.session(pane);
            let me = AppView {
                drag: Drag {
                    auto_scroll_next: later(now, AUTO_SCROLL_INTERVAL) as u64,
                    ..self.drag
                },
                ..self
            };
            me.with_session(
                s.with_grid(
                    s.grid().scrolled(
                        if edge.up {
                            s.grid().offset() + edge.lines
                        } else {
                            minus(s.grid().offset(), edge.lines as int)
                        },
                    ),
                ),
            )
        } else {
            self
        }
    }

    /// The cell at the edge of the view of a pane.
    pub open spec fn edge_cell(self, pane: PaneId, up: bool) -> (usize, usize) {
        let grid = self.session(pane).grid();
        if up {
            (0, 0)
        } else {
            (minus(grid.height(), 1) as usize, minus(grid.width(), 1) as usize)
        }
    }

    /// With a selection that ends at the edge of the view of its pane, and the cursor with
    /// it.
    pub open spec fn edge_selected(self, sel: Selection, up: bool) -> AppView {
        let (row, col) = self.edge_cell(sel.pane, up);
        let s = self.session(sel.pane);
        let end = Selection {
            end_row: s.grid().absolute(row as int) as usize,
            end_col: col,
            ..sel
        };
        self.with_session(
            SessionView {
                shared: SharedView {
                    selection: SelectionState { span: Some(end), ..s.shared.selection },
                    ..s.shared
                },
                ..s
            }.cursor_tracked(row, col),
        ).redrawn()
    }

    /// With a selection drag at an edge followed.
    #[verifier::opaque]
    pub open spec fn auto_scrolled(self, edge: Option<Edge>, now: u64) -> AppView {
        match (self.shared.selection.span, edge) {
            (Some(sel), Some(edge)) => if self.drag.mouse_down && self.session(sel.pane).live() {
                self.edge_scrolled(sel.pane, edge, now).edge_selected(sel, edge.up)
            } else {
                self
            },
            _ => self,
        }
    }
}

impl App {
    fn scroll_edge(&mut self, pane: PaneId, edge: Edge, now: u64)
        requires
            old(self).wf(),
            old(self)@.session(pane).live(),
        ensures
            final(self).wf(),
            final(self)@ == old(self)@.edge_scrolled(pane, edge, now),
            final(self)@.session(pane).live(),
    {
        if now >= self.drag.auto_scroll_next {
            self.drag.auto_scroll_next = after(now, AUTO_SCROLL_INTERVAL);
            let mut s = self.enter(pane);
            if let Some(shown) = &mut s.state.pane {
                if edge.up {
                    shown.grid.scroll_up_history(edge.lines);
                } else {
                    shown.grid.scroll_down_history(edge.lines);
                }
            }
            self.leave(s);
        }
    }

    fn select_to_edge(&mut self, sel: Selection, up: bool)
        requires
            old(self).wf(),
            old(self)@.session(sel.pane).live(),
        ensures
            final(self).wf(),
            final(self)@ == old(self)@.edge_selected(sel, up),
    {
        let mut s = self.enter(sel.pane);
        if let Some(shown) = &s.state.pane {
            let (row, col): (usize, usize) = if up {
                (0, 0)
            } else {
                (shown.grid.rows() - 1, shown.grid.cols() - 1)
            };
            let end_row: usize = shown.grid.to_absolute_row(row);
            s.shared.selection.span = Some(Selection { end_row, end_col: col, ..sel });
            s.track_nav_cursor_to_mouse(row, col);
        }
        self.leave(s);
        self.redraw();
    }

    /// While a selection is dragged near the top or the bottom of the panes, scroll its
    /// pane and let the selection go on to the edge of what is then in view.
    pub fn auto_scroll_selection(&mut self, edge: Option<Edge>, now: u64)
        requires
            old(self).wf(),
        ensures
            final(self).wf(),
            final(self)@ == old(self)@.auto_scrolled(edge, now),
    {
        proof {
            reveal(AppView::auto_scrolled);
        }
        if !self.drag.mouse_down {
            return;
        }
        if let (Some(sel), Some(edge)) = (self.shared.selection.span, edge) {
            let live = match self.panes.get(&sel.pane.0) {
                Some(state) => state.pane.is_some(),
                None => false,
            };
            if live {
                self.scroll_edge(sel.pane, edge, now);
                self.select_to_edge(sel, edge.up);
            }
        }
    }
}

// ------------------------------------------------------------------------
// Each time before the loop waits
// ------------------------------------------------------------------------

/// Settings that have changed, and what is wrong with them.
#[derive(Debug)]
pub struct ConfigChange {
    pub config: Config,
    pub error: Option<String>,
}

/// What the event loop has to tell.
pub struct News {
    /// Settings that have changed.
    pub config: Option<ConfigChange>,
    /// Panes whose programs have ended.
    pub dead: Vec<PaneId>,
    pub edge: Option<Edge>,
    pub output: Vec<PaneOutput>,
    /// Whether the program was told to start again.
    pub reload: bool,
}

/// What the event loop does next.
#[derive(Clone, Copy, Debug, PartialEq, Eq, Structural)]
pub enum Next {
    Quit,
    Reload,
    /// Wait until then.
    Wait(u64),
}

impl AppView {
    /// With settings as they are now.
    #[verifier::opaque]
    pub open spec fn config_changed(self, config: Config, error: Option<Seq<char>>) -> AppView {
        let me = AppView { config, ..self };
        let told = match error {
            Some(error) => me.faulted(error),
            None => me,
        };
        AppView {
            clock: Clock {
                blink_phase: told.clock.blink_phase || !config.blink,
                ..told.clock
            },
            ..told
        }.asked(RequestView::UpdateTitle).asked(RequestView::RebuildTheme).refitted().redrawn()
    }

    /// The same, where they have changed.
    pub open spec fn config_followed(self, change: Option<ConfigChange>) -> AppView {
        match change {
            Some(change) => self.config_changed(change.config, string_view(change.error)),
            None => self,
        }
    }

    /// With the Normal-mode cursor of the pane in focus at the shell's.
    #[verifier::opaque]
    pub open spec fn shell_followed(self) -> AppView {
        let s = self.session(self.tabs.tab().focus);
        if s.state.mode == Some(Mode::Normal) {
            self.with_session(s.cursor_seeded())
        } else {
            self
        }
    }

    /// With the Normal-mode cursor at the shell's once it has echoed an edit, and the output
    /// shown.
    #[verifier::opaque]
    pub open spec fn echo_followed(self, now: u64) -> AppView {
        let me = AppView { clock: Clock { last_activity: now, ..self.clock }, ..self };
        if me.shared.nav_resync_pending {
            let seeded = me.shell_followed();
            AppView {
                shared: SharedView { nav_resync_pending: false, ..seeded.shared },
                ..seeded
            }.redrawn().asked(RequestView::UpdateTitle)
        } else {
            me.redrawn().asked(RequestView::UpdateTitle)
        }
    }

    /// Without a notice that has been shown for its time.
    #[verifier::opaque]
    pub open spec fn notice_expired(self) -> AppView {
        if self.shared.notice is Some && self.live_notice() is None {
            AppView { shared: SharedView { notice: None, ..self.shared }, ..self }.redrawn()
        } else {
            self
        }
    }

    /// With the cursor in its other phase, when that is due.
    #[verifier::opaque]
    pub open spec fn blinked(self, now: u64) -> AppView {
        if self.config.blink && now >= self.clock.blink_next_flip {
            AppView {
                clock: Clock {
                    blink_next_flip: later(now, CURSOR_BLINK_PERIOD) as u64,
                    blink_phase: !self.clock.blink_phase,
                    ..self.clock
                },
                ..self
            }.redrawn()
        } else {
            self
        }
    }

    /// With the keys that may follow a prefix shown, when that is due.
    #[verifier::opaque]
    pub open spec fn hint_followed(self, now: u64) -> AppView {
        if hint_due(self.shared.pending, self.clock.pending_since, now) {
            self.redrawn()
        } else {
            self
        }
    }

    /// With the time as it is, the settings as they are, and the wish to start again noted.
    #[verifier::opaque]
    pub open spec fn told_at(self, now: u64, change: Option<ConfigChange>, reload: bool) -> AppView {
        let me = AppView { shared: SharedView { now, ..self.shared }, ..self }.config_followed(
            change,
        );
        AppView {
            window: WindowState {
                pending_reload: me.window.pending_reload || reload,
                ..me.window
            },
            ..me
        }
    }

    /// With what programs have written taken in.
    #[verifier::opaque]
    pub open spec fn output_followed(self, outputs: Seq<OutputView>, now: u64) -> AppView {
        let me = self.output_taken(outputs);
        if any_output(outputs) {
            me.echo_followed(now)
        } else {
            me
        }
    }

    /// With all that is timed done.
    pub open spec fn timers_followed(self, edge: Option<Edge>, now: u64) -> AppView {
        self.notice_expired().blinked(now).hint_followed(now).auto_scrolled(edge, now)
    }

    /// When the loop looks again.
    pub open spec fn wakeup_at(self, now: u64) -> int {
        wakeup(
            self.clock.last_activity,
            now,
            if self.config.blink {
                Some(self.clock.blink_next_flip)
            } else {
                None
            },
            self.shared.pending,
            self.clock.pending_since,
        )
    }

    /// With the wish to start again granted.
    pub open spec fn reload_granted(self) -> AppView {
        AppView { window: WindowState { pending_reload: false, ..self.window }, ..self }
    }

    /// With the wish to end granted.
    pub open spec fn exit_granted(self) -> AppView {
        AppView { window: WindowState { exit_requested: false, ..self.window }, ..self }
    }

    /// What the loop finds, and what it does next: start again, when that is wanted; end,
    /// when the last shell has; or go on.
    pub open spec fn ticked(self, now: u64, news: News) -> (AppView, Next) {
        let told = self.told_at(now, news.config, news.reload);
        if told.window.pending_reload {
            (told.reload_granted(), Next::Reload)
        } else {
            let reaped = told.reaped(news.dead@, news.dead@.len() as int);
            if reaped.window.exit_requested {
                (reaped.exit_granted(), Next::Quit)
            } else {
                let after = reaped.output_followed(output_views(news.output@), now).timers_followed(
                    news.edge,
                    now,
                );
                (after, Next::Wait(after.wakeup_at(now) as u64))
            }
        }
    }
}

impl App {
    fn take_config(&mut self, change: ConfigChange)
        requires
            old(self).wf(),
        ensures
            final(self).wf(),
            final(self)@ == old(self)@.config_changed(change.config, string_view(change.error)),
    {
        proof {
            reveal(AppView::config_changed);
        }
        self.config = change.config;
        if let Some(error) = change.error {
            self.set_error(error.as_str());
        }
        if !self.config.blink {
            self.clock.blink_phase = true;
        }
        self.ask(Request::UpdateTitle);
        self.ask(Request::RebuildTheme);
        self.refit();
        self.redraw();
    }

    /// Use settings that have changed: whether they have.
    pub fn reload_config_if_changed(&mut self, change: Option<ConfigChange>) -> (r: bool)
        requires
            old(self).wf(),
        ensures
            final(self).wf(),
            final(self)@ == old(self)@.config_followed(change),
            r == (change is Some),
    {
        match change {
            Some(change) => {
                self.take_config(change);
                true
            },
            None => false,
        }
    }

    fn set_time(&mut self, now: u64)
        requires
            old(self).wf(),
        ensures
            final(self).wf(),
            final(self)@ == (AppView {
                shared: SharedView { now, ..old(self)@.shared },
                ..old(self)@
            }),
    {
        self.shared.now = now;
    }

    fn note_reload(&mut self, reload: bool)
        requires
            old(self).wf(),
        ensures
            final(self).wf(),
            final(self)@ == (AppView {
                window: WindowState {
                    pending_reload: old(self)@.window.pending_reload || reload,
                    ..old(self)@.window
                },
                ..old(self)@
            }),
    {
        if reload {
            self.window.pending_reload = true;
        }
    }

    fn hear(&mut self, now: u64, change: Option<ConfigChange>, reload: bool)
        requires
            old(self).wf(),
        ensures
            final(self).wf(),
            final(self)@ == old(self)@.told_at(now, change, reload),
    {
        proof {
            reveal(AppView::told_at);
        }
        self.set_time(now);
        self.reload_config_if_changed(change);
        self.note_reload(reload);
    }

    fn seed_cursor(&mut self)
        requires
            old(self).wf(),
        ensures
            final(self).wf(),
            final(self)@ == old(self)@.shell_followed(),
    {
        proof {
            reveal(AppView::shell_followed);
        }
        let pane = self.focused();
        let normal = match self.panes.get(&pane.0) {
            Some(state) => match state.mode {
                Some(Mode::Normal) => true,
                _ => false,
            },
            None => false,
        };
        if normal {
            let mut s = self.enter(pane);
            s.init_nav_cursor();
            self.leave(s);
        }
    }

    fn clear_resync(&mut self)
        requires
            old(self).wf(),
        ensures
            final(self).wf(),
            final(self)@ == (AppView {
                shared: SharedView { nav_resync_pending: false, ..old(self)@.shared },
                ..old(self)@
            }),
    {
        self.shared.nav_resync_pending = false;
    }

    fn note_output(&mut self, now: u64)
        requires
            old(self).wf(),
        ensures
            final(self).wf(),
            final(self)@ == (AppView {
                clock: Clock { last_activity: now, ..old(self)@.clock },
                ..old(self)@
            }),
    {
        self.clock.last_activity = now;
    }

    fn follow_echo(&mut self, now: u64)
        requires
            old(self).wf(),
        ensures
            final(self).wf(),
            final(self)@ == old(self)@.echo_followed(now),
    {
        proof {
            reveal(AppView::echo_followed);
        }
        self.note_output(now);
        if self.shared.nav_resync_pending {
            self.seed_cursor();
            self.clear_resync();
        }
        self.redraw();
        self.ask(Request::UpdateTitle);
    }

    fn follow_output(&mut self, outputs: Vec<PaneOutput>, now: u64)
        requires
            old(self).wf(),
            forall|i: int| 0 <= i < outputs@.len() ==> (#[trigger] outputs@[i])@.wf(),
        ensures
            final(self).wf(),
            final(self)@ == old(self)@.output_followed(output_views(outputs@), now),
    {
        proof {
            reveal(AppView::output_followed);
        }
        if self.drain_all_panes(outputs) {
            self.follow_echo(now);
        }
    }

    fn expire_notice(&mut self)
        requires
            old(self).wf(),
        ensures
            final(self).wf(),
            final(self)@ == old(self)@.notice_expired(),
    {
        proof {
            reveal(AppView::notice_expired);
        }
        if self.shared.notice.is_some() && self.active_notice().is_none() {
            self.shared.notice = None;
            self.redraw();
        }
    }

    fn blink(&mut self, now: u64)
        requires
            old(self).wf(),
        ensures
            final(self).wf(),
            final(self)@ == old(self)@.blinked(now),
    {
        proof {
            reveal(AppView::blinked);
        }
        if self.config.blink && now >= self.clock.blink_next_flip {
            self.clock.blink_phase = !self.clock.blink_phase;
            self.clock.blink_next_flip = after(now, CURSOR_BLINK_PERIOD);
            self.redraw();
        }
    }

    fn show_hint(&mut self, now: u64)
        requires
            old(self).wf(),
        ensures
            final(self).wf(),
            final(self)@ == old(self)@.hint_followed(now),
    {
        proof {
            reveal(AppView::hint_followed);
        }
        if hint_shown(self.shared.pending, self.clock.pending_since, now) {
            self.redraw();
        }
    }

    fn find_wakeup(&self, now: u64) -> (r: u64)
        ensures
            r == self@.wakeup_at(now),
    {
        let blink = if self.config.blink {
            Some(self.clock.blink_next_flip)
        } else {
            None
        };
        next_wakeup(
            self.clock.last_activity,
            now,
            blink,
            self.shared.pending,
            self.clock.pending_since,
        )
    }

    fn grant_reload(&mut self)
        requires
            old(self).wf(),
        ensures
            final(self).wf(),
            final(self)@ == old(self)@.reload_granted(),
    {
        self.window.pending_reload = false;
    }

    fn grant_exit(&mut self)
        requires
            old(self).wf(),
        ensures
            final(self).wf(),
            final(self)@ == old(self)@.exit_granted(),
    {
        self.window.exit_requested = false;
    }

    /// Take in what the event loop has to tell at `now`, before it waits: what it does next.
    pub fn about_to_wait(&mut self, now: u64, news: News) -> (r: Next)
        requires
            old(self).wf(),
            forall|i: int| 0 <= i < news.output@.len() ==> (#[trigger] news.output@[i])@.wf(),
        ensures
            final(self).wf(),
            (final(self)@, r) == old(self)@.ticked(now, news),
    {
        self.hear(now, news.config, news.reload);
        if self.window.pending_reload {
            self.grant_reload();
            return Next::Reload;
        }
        self.reap_dead_panes(&news.dead);
        if self.window.exit_requested {
            self.grant_exit();
            return Next::Quit;
        }
        self.follow_output(news.output, now);
        self.expire_notice();
        self.blink(now);
        self.show_hint(now);
        self.auto_scroll_selection(news.edge, now);
        Next::Wait(self.find_wakeup(now))
    }
}

// ------------------------------------------------------------------------
// Files and colors
// ------------------------------------------------------------------------

/// What is said when something written to a file could not be, before the reason.
pub open spec fn write_fault(kind: Export) -> Seq<char> {
    match kind {
        Export::ScrollbackAnsi => "could not write ANSI scrollback file: "@,
        Export::ScrollbackText => "could not write scrollback file: "@,
        Export::ScrollbackHtml => "could not write scrollback HTML: "@,
        Export::BlockDrawing => "Could not write SVG file: "@,
    }
}

/// The name of the file that something is written to at a time: what stands before the
/// seconds, and what stands after.
pub open spec fn file_parts(kind: Export) -> (Seq<char>, Seq<char>) {
    match kind {
        Export::ScrollbackAnsi => ("winter-scrollback-ansi-"@, ".txt"@),
        Export::ScrollbackText => ("winter-scrollback-"@, ".txt"@),
        Export::ScrollbackHtml => ("winter-scrollback-"@, ".html"@),
        Export::BlockDrawing => ("winter-block-"@, ".svg"@),
    }
}

/// The name of the file that something is written to, `seconds` after the epoch.
pub fn export_file_name(kind: Export, seconds: u64) -> (r: String)
    ensures
        r@ == file_parts(kind).0 + crate::text::decimal(seconds as nat) + file_parts(kind).1,
{
    let digits = crate::text::string_of(&crate::text::decimal_chars(seconds));
    match kind {
        Export::ScrollbackAnsi => phrase("winter-scrollback-ansi-", digits.as_str(), ".txt"),
        Export::ScrollbackText => phrase("winter-scrollback-", digits.as_str(), ".txt"),
        Export::ScrollbackHtml => phrase("winter-scrollback-", digits.as_str(), ".html"),
        Export::BlockDrawing => phrase("winter-block-", digits.as_str(), ".svg"),
    }
}

/// Colors that the system has.
#[derive(Clone, Copy, Debug, PartialEq, Eq, Structural)]
pub enum SystemTheme {
    Dark,
    Light,
}

/// Where colors come from.
#[derive(Debug)]
pub enum ColorSource {
    Dark,
    /// As they are where nothing is known.
    Fallback,
    Light,
    /// From the file of that name, or as in `Dark` where there is none.
    Named(String),
}

/// Where the colors of a theme come from, where the system has `system`.
pub fn color_source(theme: &ThemeSetting, system: Option<SystemTheme>) -> (r: ColorSource)
    ensures
        match theme@ {
            ThemeView::Dark => r is Dark,
            ThemeView::Light => r is Light,
            ThemeView::Auto => match system {
                Some(SystemTheme::Dark) => r is Dark,
                Some(SystemTheme::Light) => r is Light,
                None => r is Fallback,
            },
            ThemeView::Named(name) => r matches ColorSource::Named(own) && own@ == name,
        },
{
    match theme {
        ThemeSetting::Dark => ColorSource::Dark,
        ThemeSetting::Light => ColorSource::Light,
        ThemeSetting::Auto => match system {
            Some(SystemTheme::Dark) => ColorSource::Dark,
            Some(SystemTheme::Light) => ColorSource::Light,
            None => ColorSource::Fallback,
        },
        ThemeSetting::Named(name) => ColorSource::Named(name.as_str().to_owned()),
    }
}

impl AppView {
    /// With something written to a file opened: text in the user's editor, anything else
    /// with what the system has for it, which may fail.
    #[verifier::opaque]
    pub open spec fn export_opened(
        self,
        kind: Export,
        path: Seq<char>,
        failed: Option<Seq<char>>,
    ) -> AppView {
        match kind {
            Export::ScrollbackAnsi => self.asked(RequestView::OpenEditor { path, line: None }).told(
                "opened ANSI scrollback in editor"@,
            ),
            Export::ScrollbackText => self.asked(RequestView::OpenEditor { path, line: None }).told(
                "opened scrollback in editor"@,
            ),
            Export::ScrollbackHtml => match failed {
                None => self.told("opened "@ + path + ""@),
                Some(reason) => self.faulted("could not open HTML file: "@ + reason + ""@),
            },
            Export::BlockDrawing => match failed {
                None => self.told("Opened "@ + path + ""@),
                Some(reason) => self.faulted("Could not open SVG file: "@ + reason + ""@),
            },
        }
    }

    /// With the colors in use kept under a name and used under it, or the reason why not
    /// reported.
    #[verifier::opaque]
    pub open spec fn theme_kept(self, name: Seq<char>, failed: Option<Seq<char>>) -> AppView {
        match failed {
            Some(reason) => self.faulted(reason),
            None => self.themed(ThemeView::Named(trimmed(name))).told(
                "Created theme \""@ + trimmed(name) + "\""@,
            ),
        }
    }
}

impl App {
    /// Say what came of writing something to a file.
    pub fn export_failed(&mut self, kind: Export, reason: &str)
        requires
            old(self).wf(),
        ensures
            final(self).wf(),
            final(self)@ == old(self)@.faulted(write_fault(kind) + reason@ + ""@),
    {
        let text = match kind {
            Export::ScrollbackAnsi => phrase("could not write ANSI scrollback file: ", reason, ""),
            Export::ScrollbackText => phrase("could not write scrollback file: ", reason, ""),
            Export::ScrollbackHtml => phrase("could not write scrollback HTML: ", reason, ""),
            Export::BlockDrawing => phrase("Could not write SVG file: ", reason, ""),
        };
        self.set_error(text.as_str());
    }

    /// Open something that has been written to `path`. `failed` tells why what the system
    /// has for it could not open it.
    pub fn export_written(&mut self, kind: Export, path: &str, failed: &Option<String>)
        requires
            old(self).wf(),
        ensures
            final(self).wf(),
            final(self)@ == old(self)@.export_opened(kind, path@, string_view(*failed)),
    {
        proof {
            reveal(AppView::export_opened);
        }
        match kind {
            Export::ScrollbackAnsi => {
                self.ask(Request::OpenEditor { path: path.to_owned(), line: None });
                self.set_notice("opened ANSI scrollback in editor");
            },
            Export::ScrollbackText => {
                self.ask(Request::OpenEditor { path: path.to_owned(), line: None });
                self.set_notice("opened scrollback in editor");
            },
            Export::ScrollbackHtml => match failed {
                None => {
                    let text = phrase("opened ", path, "");
                    self.set_notice(text.as_str());
                },
                Some(reason) => {
                    let text = phrase("could not open HTML file: ", reason.as_str(), "");
                    self.set_error(text.as_str());
                },
            },
            Export::BlockDrawing => match failed {
                None => {
                    let text = phrase("Opened ", path, "");
                    self.set_notice(text.as_str());
                },
                Some(reason) => {
                    let text = phrase("Could not open SVG file: ", reason.as_str(), "");
                    self.set_error(text.as_str());
                },
            },
        }
    }

    /// Whether a name can be given to colors, the white space around it aside: the name
    /// without it, or nothing, which is reported.
    pub fn check_theme_name(&mut self, name: &str) -> (r: Option<String>)
        requires
            old(self).wf(),
        ensures
            final(self).wf(),
            string_view(r) == (if theme_name_ok(trimmed(name@)) {
                Some(trimmed(name@))
            } else {
                None
            }),
            final(self)@ == (if theme_name_ok(trimmed(name@)) {
                old(self)@
            } else {
                old(self)@.faulted("Theme name must use only letters, numbers, - or _"@)
            }),
    {
        match theme_name(name) {
            Some(name) => Some(name),
            None => {
                self.set_error("Theme name must use only letters, numbers, - or _");
                None
            },
        }
    }

    /// Use the colors in use under a name that they have been kept under. `failed` tells why
    /// they could not be.
    pub fn create_named_theme(&mut self, name: &str, failed: &Option<String>)
        requires
            old(self).wf(),
        ensures
            final(self).wf(),
            final(self)@ == old(self)@.theme_kept(name@, string_view(*failed)),
    {
        proof {
            reveal(AppView::theme_kept);
        }
        match failed {
            Some(reason) => self.set_error(reason.as_str()),
            None => {
                let short = trim_text(name);
                let text = phrase("Created theme \"", short.as_str(), "\"");
                self.set_theme(ThemeSetting::Named(short));
                self.set_notice(text.as_str());
            },
        }
    }
}

// ------------------------------------------------------------------------
// Laws
// ------------------------------------------------------------------------

/// A drag held at an edge scrolls once in an interval, however often the loop comes round:
/// a second turn within it leaves the view where it was.
pub proof fn law_an_edge_scrolls_once_in_an_interval(
    app: AppView,
    pane: PaneId,
    edge: Edge,
    now: u64,
    then: u64,
)
    requires
        now >= app.drag.auto_scroll_next,
        now + AUTO_SCROLL_INTERVAL <= u64::MAX,
        now <= then < now + AUTO_SCROLL_INTERVAL,
    ensures
        app.edge_scrolled(pane, edge, now).edge_scrolled(pane, edge, then) == app.edge_scrolled(
            pane,
            edge,
            now,
        ),
{
}

/// A window that loses focus forgets the prefix that was held.
pub proof fn law_losing_focus_drops_the_prefix(app: AppView, now: u64)
    ensures
        app.window_changed(WindowEvent::Focused(false), now).shared.pending
            == PendingPrefix::Idle,
        app.window_changed(WindowEvent::Focused(false), now).clock.pending_since is None,
{
    reveal(AppView::window_changed);
}

} // verus!
