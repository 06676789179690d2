//! Opening, splitting and closing panes and tabs, and what panes report.

use vstd::prelude::*;
use crate::app::{
    closed_ok, closed_views, copy_option, ids_below, lemma_put_back, lemma_session,
    lemma_with_session, phrase, App, AppView, ClosedPane, ClosedView, WindowState,
};
use crate::grid::Grid;
use crate::input::{Direction, Mode, PaneId};
use crate::jobs::jobs_of;
use crate::navigation::search::string_view;
use crate::pages::{slot_ok, slot_views, PageSlot, PagesView, SlotView};
use crate::requests::{Request, RequestView};
use crate::session::{Pane, PaneView, SessionView, StateView};
use crate::tabs::{layout_panes, leaves, panes_without, Layout, Tab, TabsView};

verus! {

broadcast use {
    Grid::lemma_bounds,
    Grid::lemma_scrolled,
    vstd::std_specs::hash::group_hash_axioms,
    lemma_put_back,
    lemma_session,
    lemma_with_session,
};

/// Columns of a pane when there is no window to fit it to.
pub const DEFAULT_COLS: usize = 80;

/// Rows of a pane when there is no window to fit it to.
pub const DEFAULT_ROWS: usize = 24;

/// Whether what is worth keeping of a pane that closes is all of it, or its pages only.
#[derive(Clone, Copy, Debug, PartialEq, Eq, Structural)]
pub enum Closing {
    Forget,
    Keep,
}

/// Half of a window's cells, as a split divides them.
pub open spec fn halved(direction: Direction) -> (usize, usize) {
    match direction {
        Direction::Vertical => ((DEFAULT_COLS / 2) as usize, DEFAULT_ROWS),
        Direction::Horizontal => (DEFAULT_COLS, (DEFAULT_ROWS / 2) as usize),
    }
}

/// Whether a tab's panes have stayed what they were but for `pane`, so that the tab can
/// be split again as it was.
pub open spec fn still_fits(held: Seq<PaneId>, snapshot: Seq<PaneId>, pane: PaneId) -> bool {
    &&& snapshot.len() == held.len() + 1
    &&& forall|i: int| 0 <= i < held.len() ==> snapshot.contains(#[trigger] held[i])
    &&& snapshot.contains(pane)
}

impl AppView {
    /// The directory that what is started from a pane starts in: what the page over it
    /// looks at, or where its shell is.
    pub open spec fn start_cwd(self, pane: PaneId) -> Option<Seq<char>> {
        if self.pages.covers(pane) && self.pages.slots[pane.0].cwd is Some {
            self.pages.slots[pane.0].cwd
        } else {
            match self.state(pane).pane {
                Some(pane) => pane.cwd,
                None => None,
            }
        }
    }

    /// How many cells a pane's shell starts with: as many as fit its room, or half of the
    /// default where there is no window.
    pub open spec fn spawn_cells(self, direction: Direction) -> Option<(usize, usize)> {
        if self.window.drawn {
            None
        } else {
            Some(halved(direction))
        }
    }

    /// With the pane in focus split, and a shell asked for in the new one.
    #[verifier::opaque]
    pub open spec fn pane_split(self, direction: Direction, cwd: Option<Seq<char>>) -> AppView {
        let id = PaneId(self.next_pane_id);
        AppView {
            next_pane_id: (self.next_pane_id + 1) as u64,
            tabs: self.tabs.with_tab(self.tabs.tab().after_split(direction, id)),
            ..self
        }.asked(
            RequestView::SpawnShell { pane: id, cells: self.spawn_cells(direction), cwd },
        ).redrawn()
    }

    /// With a tab opened, and a shell asked for in it.
    #[verifier::opaque]
    pub open spec fn tab_opened(self, cwd: Option<Seq<char>>) -> AppView {
        let id = PaneId(self.next_pane_id);
        AppView {
            next_pane_id: (self.next_pane_id + 1) as u64,
            tabs: self.tabs.opened(
                Tab { focus: id, layout: Layout::Leaf(id), zoomed: false },
            ),
            ..self
        }.asked(
            RequestView::SpawnShell {
                pane: id,
                cells: if self.window.drawn {
                    None
                } else {
                    Some((DEFAULT_COLS, DEFAULT_ROWS))
                },
                cwd,
            },
        ).redrawn()
    }

    /// With `pane` running in pane `id`, which is in Insert mode.
    pub open spec fn shell_running(self, id: PaneId, pane: PaneView) -> AppView {
        let s = self.session(id);
        self.with_session(
            SessionView {
                state: StateView { mode: Some(Mode::Insert), pane: Some(pane), ..s.state },
                ..s
            },
        ).refitted().redrawn()
    }

    /// With a tab opened in which `pane` runs.
    pub open spec fn tab_opened_with(self, pane: PaneView) -> AppView {
        let id = PaneId(self.next_pane_id);
        AppView {
            next_pane_id: (self.next_pane_id + 1) as u64,
            tabs: self.tabs.opened(
                Tab { focus: id, layout: Layout::Leaf(id), zoomed: false },
            ),
            ..self
        }.shell_running(id, pane)
    }

    /// With all that is known of a pane gone, its jobs given up, and its shell to be taken
    /// away.
    pub open spec fn pane_dropped(self, pane: PaneId) -> AppView {
        AppView {
            jobs: self.jobs.cancelled(pane),
            pages: self.pages.without(pane),
            panes: self.panes.remove(pane.0),
            titles: self.titles.remove(pane.0),
            ..self
        }.asked(RequestView::CancelJobs(jobs_of(self.jobs.running, pane))).asked(
            RequestView::DropPane(pane),
        )
    }

    /// With the first `n` of `panes` dropped.
    pub open spec fn panes_dropped(self, panes: Seq<PaneId>, n: int) -> AppView
        decreases n,
    {
        if n <= 0 {
            self
        } else {
            self.panes_dropped(panes, n - 1).pane_dropped(panes[n - 1])
        }
    }

    /// With what is worth keeping of a pane of tab `at` kept: all of it, or its pages.
    #[verifier::opaque]
    pub open spec fn stashed(self, pane: PaneId, at: int, closing: Closing) -> AppView {
        if closing == Closing::Forget && self.pages.over(pane).len() == 0 {
            self
        } else {
            AppView {
                closed: self.closed.push(
                    ClosedView {
                        cwd: match self.state(pane).pane {
                            Some(pane) => pane.cwd,
                            None => None,
                        },
                        layout: if closing == Closing::Keep {
                            Some(self.tabs.all[at].layout)
                        } else {
                            None
                        },
                        pages: self.pages.over(pane),
                        pane,
                        tab: at as usize,
                    },
                ),
                ..self
            }
        }
    }

    /// With tab `at` as `tab` is.
    pub open spec fn with_tab_at(self, at: int, tab: Tab) -> AppView {
        AppView { tabs: TabsView { all: self.tabs.all.update(at, tab), ..self.tabs }, ..self }
    }

    /// Without tab `at` and its panes. The last tab does not go: the program is to end.
    #[verifier::opaque]
    pub open spec fn tab_dropped(self, at: int) -> AppView {
        if at >= self.tabs.all.len() {
            self
        } else if self.tabs.all.len() <= 1 {
            AppView { window: WindowState { exit_requested: true, ..self.window }, ..self }
        } else {
            let ids = self.tabs.all[at].ids();
            let gone = self.panes_dropped(ids, ids.len() as int);
            AppView { tabs: gone.tabs.closed(at), ..gone }.refitted().redrawn()
        }
    }

    /// Without pane `pane`, whose sibling takes its room. The last pane of a tab takes the
    /// tab with it, and the last of all stays.
    #[verifier::opaque]
    pub open spec fn pane_closed(self, pane: PaneId, closing: Closing) -> AppView {
        let at = self.tabs.holding(pane, 0);
        if at >= self.tabs.all.len() {
            self
        } else if self.tabs.all[at].ids().len() <= 1 {
            if self.tabs.all.len() <= 1 {
                self
            } else {
                self.tab_dropped(at)
            }
        } else {
            let gone = self.stashed(pane, at, closing).pane_dropped(pane).with_tab_at(
                at,
                self.tabs.all[at].after_close(pane),
            );
            (if at == self.tabs.active {
                gone.refitted()
            } else {
                gone
            }).redrawn()
        }
    }

    /// With a pane closed, or asked about when there are edits in it that are nowhere
    /// else.
    #[verifier::opaque]
    pub open spec fn pane_close_asked(self, pane: PaneId) -> AppView {
        if self.pages.unsaved(pane) {
            self.asked(RequestView::AskBeforeClosing(pane)).redrawn()
        } else {
            self.pane_closed(pane, Closing::Keep)
        }
    }

    /// The place of the first of `panes` from `i` on with edits in it that are nowhere
    /// else.
    pub open spec fn first_unsaved(self, panes: Seq<PaneId>, i: int) -> int
        decreases panes.len() - i,
    {
        if 0 <= i < panes.len() && !self.pages.unsaved(panes[i]) {
            self.first_unsaved(panes, i + 1)
        } else {
            i
        }
    }

    /// With a tab closed, or asked about when there are edits in it that are nowhere else.
    #[verifier::opaque]
    pub open spec fn tab_close_asked(self, at: int) -> AppView {
        if at >= self.tabs.all.len() {
            self
        } else {
            let ids = self.tabs.all[at].ids();
            let unsaved = self.first_unsaved(ids, 0);
            if unsaved < ids.len() {
                self.asked(RequestView::AskBeforeClosing(ids[unsaved])).redrawn()
            } else {
                self.tab_dropped(at)
            }
        }
    }

    /// With the first `n` of `panes` closed.
    pub open spec fn panes_closed(self, panes: Seq<PaneId>, n: int) -> AppView
        decreases n,
    {
        if n <= 0 {
            self
        } else {
            self.panes_closed(panes, n - 1).pane_closed(panes[n - 1], Closing::Keep)
        }
    }

    /// With every pane of the shown tab but `focused` closed, or asked about.
    #[verifier::opaque]
    pub open spec fn others_closed(self, focused: PaneId) -> AppView {
        let others = panes_without(self.tabs.tab().ids(), focused);
        if self.first_unsaved(others, 0) < others.len() {
            self.asked(RequestView::AskBeforeClosingOthers(focused)).redrawn()
        } else {
            self.panes_closed(others, others.len() as int)
        }
    }

    /// With a pane whose shell has ended gone, and its tab with it where it was the only
    /// one.
    #[verifier::opaque]
    pub open spec fn pane_reaped(self, pane: PaneId) -> AppView {
        let at = self.tabs.holding(pane, 0);
        if at >= self.tabs.all.len() {
            self
        } else if self.tabs.all[at].ids().len() > 1 {
            self.pane_closed(pane, Closing::Forget)
        } else {
            self.tab_dropped(at)
        }
    }

    /// With the first `n` of `dead` reaped.
    pub open spec fn reaped(self, dead: Seq<PaneId>, n: int) -> AppView
        decreases n,
    {
        if n <= 0 {
            self
        } else {
            self.reaped(dead, n - 1).pane_reaped(dead[n - 1])
        }
    }

    /// With the tab that has `pane` shown, and the pane in focus.
    pub open spec fn pane_shown(self, pane: PaneId) -> AppView {
        let at = self.tabs.holding(pane, 0);
        if at >= self.tabs.all.len() {
            self
        } else {
            let shown = self.tabs.switched(at);
            AppView { tabs: shown.with_tab(shown.tab().with_focus(pane)), ..self }.asked(
                RequestView::UpdateTitle,
            ).redrawn()
        }
    }

    /// With a pane that got no shell taken out again, its pages kept.
    #[verifier::opaque]
    pub open spec fn shell_given_up(self, id: PaneId) -> AppView {
        let at = self.tabs.holding(id, 0);
        if at >= self.tabs.all.len() {
            self
        } else if self.tabs.all[at].ids().len() > 1 {
            self.stashed(id, at, Closing::Forget).pane_dropped(id).with_tab_at(
                at,
                self.tabs.all[at].after_close(id),
            ).redrawn()
        } else if self.tabs.all.len() > 1 {
            let gone = self.stashed(id, at, Closing::Forget).pane_dropped(id);
            AppView { tabs: gone.tabs.closed(at), ..gone }.redrawn()
        } else {
            self
        }
    }

    /// With a pane whose shell has started shown as `grid`, as far back as it was.
    pub open spec fn pane_fitted(self, id: PaneId, grid: Grid) -> AppView {
        let s = self.session(id);
        if !s.live() {
            self
        } else {
            self.with_session(
                s.with_grid(
                    if s.grid().offset() > 0 {
                        grid.scrolled(s.grid().offset())
                    } else {
                        grid
                    },
                ),
            )
        }
    }

    /// With the pages of a closed pane over pane `id`.
    pub open spec fn pages_back(self, id: PaneId, back: Seq<SlotView>) -> AppView {
        if back.len() == 0 {
            self
        } else {
            AppView { pages: self.pages.restored(id, back), ..self }.with_mode(id, Mode::Page)
        }
    }

    /// With a closed pane back: where it was, when its tab is otherwise as it was, and in
    /// a new split when it is not.
    #[verifier::opaque]
    pub open spec fn pane_restored(self, closed: ClosedView) -> AppView {
        let fits = closed.tab < self.tabs.all.len() && closed.layout is Some && still_fits(
            self.tabs.all[closed.tab as int].ids(),
            leaves(closed.layout->0),
            closed.pane,
        );
        if fits {
            let shown = AppView { tabs: self.tabs.switched(closed.tab as int), ..self };
            shown.with_tab_at(
                closed.tab as int,
                Tab { focus: closed.pane, layout: closed.layout->0, zoomed: false },
            ).asked(
                RequestView::SpawnShell {
                    pane: closed.pane,
                    cells: self.spawn_cells(Direction::Vertical),
                    cwd: closed.cwd,
                },
            ).pages_back(closed.pane, closed.pages).redrawn()
        } else {
            self.pane_split(Direction::Vertical, closed.cwd).pages_back(
                PaneId(self.next_pane_id),
                closed.pages,
            ).redrawn()
        }
    }
}

// ------------------------------------------------------------------------
// What the operations leave in order
// ------------------------------------------------------------------------

proof fn lemma_closed_ok_grows(app: AppView, next: u64)
    requires
        app.wf(),
        app.next_pane_id <= next,
    ensures
        forall|i: int| 0 <= i < app.closed.len() ==> closed_ok(#[trigger] app.closed[i], next),
        ids_below(app.tabs, next),
{
    assert forall|i: int| 0 <= i < app.closed.len() implies closed_ok(
        #[trigger] app.closed[i],
        next,
    ) by {
        assert(closed_ok(app.closed[i], app.next_pane_id));
    }
}

proof fn lemma_dropped(app: AppView, pane: PaneId)
    requires
        app.wf(),
        app.jobs.cancelled(pane).wf(),
        app.pages.without(pane).wf(),
    ensures
        app.pane_dropped(pane).wf(),
{
    let after = app.pane_dropped(pane);
    assert forall|k: u64| #[trigger] after.panes.dom().contains(k) implies after.panes[k].wf() by {
        assert(app.panes.dom().contains(k));
    }
}

proof fn lemma_tab_at(app: AppView, at: int, tab: Tab)
    requires
        app.wf(),
        0 <= at < app.tabs.all.len(),
        tab.wf(),
        forall|id: PaneId| #[trigger] tab.ids().contains(id) ==> id.0 < app.next_pane_id,
    ensures
        app.with_tab_at(at, tab).wf(),
{
    let after = app.with_tab_at(at, tab);
    assert forall|i: int| 0 <= i < after.tabs.all.len() implies (#[trigger] after.tabs.all[i]).wf() by {
        if i != at {
            assert(app.tabs.all[i].wf());
        }
    }
    assert forall|i: int, id: PaneId|
        #![trigger after.tabs.all[i].ids().contains(id)]
        0 <= i < after.tabs.all.len() && after.tabs.all[i].ids().contains(id) implies id.0
        < after.next_pane_id by {
        if i != at {
            assert(app.tabs.all[i].ids().contains(id));
        }
    }
}

proof fn lemma_ids_below_closed(tabs: TabsView, at: int, next: u64)
    requires
        ids_below(tabs, next),
        0 <= at < tabs.all.len(),
    ensures
        ids_below(tabs.closed(at), next),
{
    let after = tabs.closed(at);
    assert forall|i: int, id: PaneId|
        #![trigger after.all[i].ids().contains(id)]
        0 <= i < after.all.len() && after.all[i].ids().contains(id) implies id.0 < next by {
        let j = if i < at {
            i
        } else {
            i + 1
        };
        assert(after.all[i] == tabs.all[j]);
        assert(tabs.all[j].ids().contains(id));
    }
}

proof fn lemma_ids_below_opened(tabs: TabsView, id: PaneId, next: u64)
    requires
        ids_below(tabs, next),
        id.0 < next,
        tabs.all.len() < usize::MAX,
    ensures
        ids_below(
            tabs.opened(Tab { focus: id, layout: Layout::Leaf(id), zoomed: false }),
            next,
        ),
{
    let tab = Tab { focus: id, layout: Layout::Leaf(id), zoomed: false };
    let after = tabs.opened(tab);
    assert(tab.ids() =~= seq![id]);
    assert forall|i: int, x: PaneId|
        #![trigger after.all[i].ids().contains(x)]
        0 <= i < after.all.len() && after.all[i].ids().contains(x) implies x.0 < next by {
        if i < tabs.all.len() {
            assert(after.all[i] == tabs.all[i]);
            assert(tabs.all[i].ids().contains(x));
        } else {
            assert(after.all[i] == tab);
            let j = choose|j: int| 0 <= j < tab.ids().len() && tab.ids()[j] == x;
            assert(x == id);
        }
    }
}

proof fn lemma_switched_ids(tabs: TabsView, at: int, next: u64)
    requires
        ids_below(tabs, next),
    ensures
        ids_below(tabs.switched(at), next),
{
    let after = tabs.switched(at);
    assert forall|i: int, id: PaneId|
        #![trigger after.all[i].ids().contains(id)]
        0 <= i < after.all.len() && after.all[i].ids().contains(id) implies id.0 < next by {
        assert(tabs.all[i].ids().contains(id));
    }
}

proof fn lemma_first_unsaved(app: AppView, panes: Seq<PaneId>, i: int)
    requires
        0 <= i <= panes.len(),
    ensures
        i <= app.first_unsaved(panes, i) <= panes.len(),
    decreases panes.len() - i,
{
    if i < panes.len() && !app.pages.unsaved(panes[i]) {
        lemma_first_unsaved(app, panes, i + 1);
    }
}

proof fn lemma_over_ok(pages: PagesView, pane: PaneId)
    requires
        pages.wf(),
    ensures
        forall|i: int| 0 <= i < pages.over(pane).len() ==> slot_ok(#[trigger] pages.over(pane)[i]),
{
    assert forall|i: int| 0 <= i < pages.over(pane).len() implies slot_ok(
        #[trigger] pages.over(pane)[i],
    ) by {
        if i < pages.below(pane).len() {
            assert(pages.over(pane)[i] == pages.covered[pane.0][i]);
        } else {
            assert(pages.slots.dom().contains(pane.0));
        }
    }
}

proof fn lemma_tab_ok(app: AppView, at: int)
    requires
        app.wf(),
        0 <= at < app.tabs.all.len(),
    ensures
        app.tabs.all[at].ids().no_duplicates(),
        forall|i: int|
            0 <= i < app.tabs.all[at].ids().len() ==> (#[trigger] app.tabs.all[at].ids()[i]).0
                < app.next_pane_id,
        forall|x: PaneId| #[trigger]
            app.tabs.all[at].ids().contains(x) ==> x.0 < app.next_pane_id,
{
    assert(app.tabs.all[at].wf());
    assert forall|i: int| 0 <= i < app.tabs.all[at].ids().len() implies (
    #[trigger] app.tabs.all[at].ids()[i]).0 < app.next_pane_id by {
        assert(app.tabs.all[at].ids().contains(app.tabs.all[at].ids()[i]));
    }
}

/// To take the pages of a pane away and drop the pane is to drop the pane.
proof fn lemma_without_twice(app: AppView, pane: PaneId)
    ensures
        (AppView { pages: app.pages.without(pane), ..app }).pane_dropped(pane) == app.pane_dropped(
            pane,
        ),
{
    let once = app.pages.without(pane);
    assert(once.slots.remove(pane.0) =~= once.slots);
    assert(once.covered.remove(pane.0) =~= once.covered);
    assert(once.without(pane) == once);
}

proof fn lemma_stashed_pages(app: AppView, pane: PaneId, at: int, closing: Closing)
    ensures
        app.stashed(pane, at, closing).pages == app.pages,
{
    reveal(AppView::stashed);
}

proof fn lemma_stashed_tabs(app: AppView, pane: PaneId, at: int, closing: Closing)
    ensures
        app.stashed(pane, at, closing).pane_dropped(pane).tabs == app.tabs,
        app.stashed(pane, at, closing).pane_dropped(pane).window == app.window,
        app.stashed(pane, at, closing).pane_dropped(pane).next_pane_id == app.next_pane_id,
{
    reveal(AppView::stashed);
}

/// Dropping panes leaves the tabs alone.
proof fn lemma_dropped_tabs(app: AppView, panes: Seq<PaneId>, n: int)
    ensures
        app.panes_dropped(panes, n).tabs == app.tabs,
        app.panes_dropped(panes, n).next_pane_id == app.next_pane_id,
        app.panes_dropped(panes, n).closed == app.closed,
        app.panes_dropped(panes, n).window == app.window,
    decreases n,
{
    if n > 0 {
        lemma_dropped_tabs(app, panes, n - 1);
    }
}

impl App {
    /// The directory that what is started from the pane in focus starts in: what the page
    /// over it looks at, or where its shell is.
    pub fn focused_start_cwd(&self) -> (r: Option<String>)
        requires
            self.wf(),
        ensures
            string_view(r) == self@.start_cwd(self@.tabs.tab().focus),
    {
        let focused = self.focused();
        if let Some(slot) = self.pages.slots.get(&focused.0) {
            if slot.cwd.is_some() {
                return copy_option(&slot.cwd);
            }
        }
        match self.panes.get(&focused.0) {
            Some(state) => match &state.pane {
                Some(pane) => copy_option(&pane.cwd),
                None => None,
            },
            None => None,
        }
    }

    /// The directory that what is started from the pane in focus starts in, with where
    /// the program is and the user's home to fall back on.
    pub fn focused_start_dir(&self, current: &Option<String>, home: &Option<String>) -> (r: String)
        requires
            self.wf(),
        ensures
            r@ == (match self@.start_cwd(self@.tabs.tab().focus) {
                Some(dir) => dir,
                None => match string_view(*current) {
                    Some(dir) => dir,
                    None => match string_view(*home) {
                        Some(dir) => dir,
                        None => "/"@,
                    },
                },
            }),
    {
        if let Some(dir) = self.focused_start_cwd() {
            return dir;
        }
        if let Some(dir) = current {
            return dir.as_str().to_owned();
        }
        match home {
            Some(dir) => dir.as_str().to_owned(),
            None => "/".to_owned(),
        }
    }

    /// Where the shell of pane `id` is.
    fn shell_cwd(&self, id: PaneId) -> (r: Option<String>)
        ensures
            string_view(r) == (match self@.state(id).pane {
                Some(pane) => pane.cwd,
                None => None,
            }),
    {
        match self.panes.get(&id.0) {
            Some(state) => match &state.pane {
                Some(pane) => copy_option(&pane.cwd),
                None => None,
            },
            None => None,
        }
    }

    /// How many cells a pane's shell starts with.
    pub fn spawn_grid_size(&self, direction: Direction) -> (r: Option<(usize, usize)>)
        ensures
            r == self@.spawn_cells(direction),
    {
        if self.window.drawn {
            None
        } else {
            match direction {
                Direction::Vertical => Some((DEFAULT_COLS / 2, DEFAULT_ROWS)),
                Direction::Horizontal => Some((DEFAULT_COLS, DEFAULT_ROWS / 2)),
            }
        }
    }

    /// Split the pane in focus and ask for a shell in the new one, in `cwd`.
    pub fn split_pane_at(&mut self, direction: Direction, cwd: Option<String>) -> (r: PaneId)
        requires
            old(self).wf(),
            old(self)@.has_room(),
        ensures
            final(self).wf(),
            final(self)@ == old(self)@.pane_split(direction, string_view(cwd)),
            r == PaneId(old(self)@.next_pane_id),
    {
        proof {
            reveal(AppView::pane_split);
        }
        let ghost before = self@;
        let id = self.alloc_pane_id();
        let at: usize = self.tabs.active;
        proof {
            lemma_closed_ok_grows(before, self@.next_pane_id);
            if before.tabs.tab().ids().contains(id) {
                assert(before.tabs.all[at as int].ids().contains(id));
            }
        }
        let mut tab = Tab::with_root(id);
        std::mem::swap(&mut tab, &mut self.tabs.all[at]);
        tab.split(direction, id);
        let ghost split = tab;
        self.tabs.all[at] = tab;
        proof {
            assert(self.tabs.all@ =~= before.tabs.all.update(at as int, split));
            assert forall|x: PaneId| #[trigger] split.ids().contains(x) implies x.0
                < self@.next_pane_id by {
                if before.tabs.tab().ids().contains(x) {
                    assert(before.tabs.all[at as int].ids().contains(x));
                }
            }
            lemma_tab_at(
                AppView { next_pane_id: self@.next_pane_id, ..before },
                at as int,
                split,
            );
            assert(self@ == AppView { next_pane_id: self@.next_pane_id, ..before }.with_tab_at(
                at as int,
                split,
            ));
        }
        let cells = self.spawn_grid_size(direction);
        self.ask(Request::SpawnShell { pane: id, cells, cwd });
        self.redraw();
        id
    }

    /// Split the pane in focus. The new pane starts where the old one is.
    pub fn split_pane(&mut self, direction: Direction)
        requires
            old(self).wf(),
            old(self)@.has_room(),
        ensures
            final(self).wf(),
            final(self)@ == old(self)@.pane_split(
                direction,
                old(self)@.start_cwd(old(self)@.tabs.tab().focus),
            ),
    {
        let cwd = self.focused_start_cwd();
        self.split_pane_at(direction, cwd);
    }

    /// Open a tab. Its pane starts where the one in focus is.
    pub fn new_tab(&mut self)
        requires
            old(self).wf(),
            old(self)@.has_room(),
        ensures
            final(self).wf(),
            final(self)@ == old(self)@.tab_opened(
                old(self)@.start_cwd(old(self)@.tabs.tab().focus),
            ),
    {
        proof {
            reveal(AppView::tab_opened);
        }
        let ghost before = self@;
        let cwd = self.focused_start_cwd();
        let id = self.alloc_pane_id();
        proof {
            lemma_closed_ok_grows(before, self@.next_pane_id);
            lemma_ids_below_opened(before.tabs, id, self@.next_pane_id);
        }
        self.tabs.open(Tab::with_root(id));
        let cells = if self.window.drawn {
            None
        } else {
            Some((DEFAULT_COLS, DEFAULT_ROWS))
        };
        self.ask(Request::SpawnShell { pane: id, cells, cwd });
        self.redraw();
    }

    /// Let `pane` run in pane `id`.
    pub fn shell_started(&mut self, id: PaneId, pane: Pane)
        requires
            old(self).wf(),
            pane.grid.wf(),
        ensures
            final(self).wf(),
            final(self)@ == old(self)@.shell_running(id, pane@),
    {
        let mut s = self.enter(id);
        s.state.mode = Some(Mode::Insert);
        s.state.pane = Some(pane);
        self.leave(s);
        self.refit();
        self.redraw();
    }

    /// Open a tab in which `pane` runs.
    pub fn push_new_tab(&mut self, pane: Pane) -> (r: PaneId)
        requires
            old(self).wf(),
            old(self)@.has_room(),
            pane.grid.wf(),
        ensures
            final(self).wf(),
            final(self)@ == old(self)@.tab_opened_with(pane@),
            r == PaneId(old(self)@.next_pane_id),
    {
        let ghost before = self@;
        let id = self.alloc_pane_id();
        proof {
            lemma_closed_ok_grows(before, self@.next_pane_id);
            lemma_ids_below_opened(before.tabs, id, self@.next_pane_id);
        }
        self.tabs.open(Tab::with_root(id));
        self.shell_started(id, pane);
        id
    }

    /// A shell did not start: say so, the default shell is tried next.
    pub fn shell_refused(&mut self, reason: &str)
        ensures
            final(self)@ == old(self)@.faulted(
                "shell failed to start ("@ + reason@ + "), trying the default shell"@,
            ),
    {
        let text = phrase("shell failed to start (", reason, "), trying the default shell");
        self.set_error(text.as_str());
    }

    /// No shell could be started for pane `id`: say so, and take the pane out again. Its
    /// pages are kept.
    pub fn shell_failed(&mut self, id: PaneId, reason: &str)
        requires
            old(self).wf(),
        ensures
            final(self).wf(),
            final(self)@ == old(self)@.faulted(
                "could not start a shell: "@ + reason@ + ""@,
            ).shell_given_up(id),
    {
        let text = phrase("could not start a shell: ", reason, "");
        self.set_error(text.as_str());
        assert(self.wf());
        self.give_up_shell(id);
    }

    /// Take a pane that got no shell out again. Its pages are kept.
    fn give_up_shell(&mut self, id: PaneId)
        requires
            old(self).wf(),
        ensures
            final(self).wf(),
            final(self)@ == old(self)@.shell_given_up(id),
    {
        let ghost before = self@;
        proof {
            reveal(AppView::shell_given_up);
        }
        match self.tabs.tab_holding(id) {
            Some(at) => {
                let panes = self.tabs.all[at].panes();
                if panes.len() > 1 {
                    self.retire(id, at, Closing::Forget);
                    proof {
                        lemma_stashed_tabs(before, id, at as int, Closing::Forget);
                    }
                    self.close_in_tab(at, id);
                    self.redraw();
                } else if self.tabs.all.len() > 1 {
                    self.retire(id, at, Closing::Forget);
                    proof {
                        lemma_stashed_tabs(before, id, at as int, Closing::Forget);
                    }
                    self.close_tab_at(at);
                    self.redraw();
                }
            },
            None => {},
        }
    }

    /// Take tab `at`, which is not the only one, out of the tabs.
    fn close_tab_at(&mut self, at: usize)
        requires
            old(self).wf(),
            at < old(self)@.tabs.all.len(),
            old(self)@.tabs.all.len() > 1,
        ensures
            final(self).wf(),
            final(self)@ == (AppView { tabs: old(self)@.tabs.closed(at as int), ..old(self)@ }),
    {
        proof {
            lemma_ids_below_closed(self@.tabs, at as int, self@.next_pane_id);
        }
        self.tabs.close(at);
    }

    /// Keep what is known of a closed pane.
    fn record_closed(&mut self, closed: ClosedPane)
        requires
            old(self).wf(),
            closed_ok(closed@, old(self)@.next_pane_id),
        ensures
            final(self).wf(),
            final(self)@ == (AppView { closed: old(self)@.closed.push(closed@), ..old(self)@ }),
    {
        let ghost before = self@;
        let ghost kept = self.closed@;
        let ghost added = closed@;
        self.closed.push(closed);
        proof {
            assert(closed_views(self.closed@) =~= closed_views(kept).push(added));
            assert forall|i: int| 0 <= i < self@.closed.len() implies closed_ok(
                #[trigger] self@.closed[i],
                self@.next_pane_id,
            ) by {
                if i < before.closed.len() {
                    assert(self@.closed[i] == before.closed[i]);
                }
            }
        }
    }

    /// Take the pages over a pane of tab `at` away, and keep what is worth keeping of it.
    fn keep_closed(&mut self, pane: PaneId, at: usize, closing: Closing)
        requires
            old(self).wf(),
            at < old(self)@.tabs.all.len(),
            old(self)@.tabs.all[at as int].ids().contains(pane),
        ensures
            final(self).wf(),
            final(self)@ == (AppView {
                pages: old(self)@.pages.without(pane),
                ..old(self)@.stashed(pane, at as int, closing)
            }),
    {
        let ghost before = self@;
        proof {
            reveal(AppView::stashed);
            lemma_over_ok(before.pages, pane);
            lemma_tab_ok(before, at as int);
        }
        let cwd = self.shell_cwd(pane);
        let pages = self.pages.remove(pane);
        assert(self.wf());
        match closing {
            Closing::Keep => {
                let layout = self.tabs.all[at].export_tree();
                self.record_closed(
                    ClosedPane { cwd, layout: Some(layout), pages, pane, tab: at },
                );
            },
            Closing::Forget => {
                if pages.len() > 0 {
                    self.record_closed(ClosedPane { cwd, layout: None, pages, pane, tab: at });
                }
            },
        }
    }

    /// Keep what is worth keeping of a pane of tab `at`, forget the rest, and have its
    /// shell taken away.
    fn retire(&mut self, pane: PaneId, at: usize, closing: Closing)
        requires
            old(self).wf(),
            at < old(self)@.tabs.all.len(),
            old(self)@.tabs.all[at as int].ids().contains(pane),
        ensures
            final(self).wf(),
            final(self)@ == old(self)@.stashed(pane, at as int, closing).pane_dropped(pane),
    {
        let ghost before = self@;
        self.keep_closed(pane, at, closing);
        self.drop_pane(pane);
        proof {
            lemma_stashed_pages(before, pane, at as int, closing);
            lemma_without_twice(before.stashed(pane, at as int, closing), pane);
        }
    }

    /// Forget all that is known of a pane, and have its shell taken away.
    fn drop_pane(&mut self, pane: PaneId)
        requires
            old(self).wf(),
        ensures
            final(self).wf(),
            final(self)@ == old(self)@.pane_dropped(pane),
    {
        let ghost before = self@;
        let stopped = self.jobs.cancel_for(pane);
        self.pages.remove(pane);
        self.panes.remove(&pane.0);
        self.titles.remove(&pane.0);
        proof {
            assert(self@.panes =~= before.panes.remove(pane.0));
            assert(self@.titles =~= before.titles.remove(pane.0));
            lemma_dropped(before, pane);
        }
        self.ask(Request::CancelJobs(stopped));
        self.ask(Request::DropPane(pane));
    }

    /// Take a pane that is not the only one out of tab `at`.
    fn close_in_tab(&mut self, at: usize, pane: PaneId)
        requires
            old(self).wf(),
            at < old(self)@.tabs.all.len(),
            old(self)@.tabs.all[at as int].ids().len() > 1,
        ensures
            final(self).wf(),
            final(self)@ == old(self)@.with_tab_at(
                at as int,
                old(self)@.tabs.all[at as int].after_close(pane),
            ),
    {
        let ghost before = self@;
        let mut tab = Tab::with_root(pane);
        std::mem::swap(&mut tab, &mut self.tabs.all[at]);
        assert(tab == before.tabs.all[at as int]);
        assert(before.tabs.all[at as int].wf());
        tab.close(pane);
        let ghost left = tab;
        self.tabs.all[at] = tab;
        proof {
            assert(self.tabs.all@ =~= before.tabs.all.update(at as int, left));
            assert forall|x: PaneId| #[trigger] left.ids().contains(x) implies x.0
                < before.next_pane_id by {
                assert(before.tabs.all[at as int].ids().contains(x));
            }
            lemma_tab_at(before, at as int, left);
        }
    }

    /// Close tab `at` and its panes, without asking. The last tab does not go: the
    /// program is to end.
    pub fn close_tab_now(&mut self, at: usize)
        requires
            old(self).wf(),
        ensures
            final(self).wf(),
            final(self)@ == old(self)@.tab_dropped(at as int),
    {
        proof {
            reveal(AppView::tab_dropped);
        }
        let ghost before = self@;
        if at >= self.tabs.all.len() {
            return;
        }
        if self.tabs.all.len() <= 1 {
            self.window.exit_requested = true;
            return;
        }
        let panes = self.tabs.all[at].panes();
        let mut n: usize = 0;
        while n < panes.len()
            invariant
                self.wf(),
                n <= panes@.len(),
                self@ == before.panes_dropped(panes@, n as int),
            decreases panes@.len() - n,
        {
            self.drop_pane(panes[n]);
            n = n + 1;
        }
        proof {
            lemma_dropped_tabs(before, panes@, n as int);
        }
        self.close_tab_at(at);
        self.refit();
        self.redraw();
    }

    /// Close `pane` without asking.
    pub fn close_pane_in_any_tab(&mut self, pane: PaneId, closing: Closing)
        requires
            old(self).wf(),
        ensures
            final(self).wf(),
            final(self)@ == old(self)@.pane_closed(pane, closing),
    {
        proof {
            reveal(AppView::pane_closed);
        }
        let ghost before = self@;
        let at: usize = match self.tabs.tab_holding(pane) {
            Some(at) => at,
            None => {
                return;
            },
        };
        let panes = self.tabs.all[at].panes();
        if panes.len() <= 1 {
            if self.tabs.all.len() > 1 {
                self.close_tab_now(at);
            }
            return;
        }
        let shown: bool = at == self.tabs.active;
        self.retire(pane, at, closing);
        proof {
            lemma_stashed_tabs(before, pane, at as int, closing);
        }
        self.close_in_tab(at, pane);
        if shown {
            self.refit();
        }
        self.redraw();
    }

    /// Close `pane`, or ask about it when there are edits in it that are nowhere else.
    pub fn close_pane(&mut self, pane: PaneId)
        requires
            old(self).wf(),
        ensures
            final(self).wf(),
            final(self)@ == old(self)@.pane_close_asked(pane),
    {
        proof {
            reveal(AppView::pane_close_asked);
        }
        if self.pages.has_unsaved(pane) {
            self.ask(Request::AskBeforeClosing(pane));
            self.redraw();
        } else {
            self.close_pane_now(pane);
        }
    }

    /// Close `pane` without asking, and keep what is worth keeping of it.
    pub fn close_pane_now(&mut self, pane: PaneId)
        requires
            old(self).wf(),
        ensures
            final(self).wf(),
            final(self)@ == old(self)@.pane_closed(pane, Closing::Keep),
    {
        self.close_pane_in_any_tab(pane, Closing::Keep);
    }

    fn find_unsaved(&self, panes: &Vec<PaneId>) -> (r: usize)
        ensures
            r == self@.first_unsaved(panes@, 0),
            r <= panes@.len(),
    {
        let mut i: usize = 0;
        while i < panes.len() && !self.pages.has_unsaved(panes[i])
            invariant
                i <= panes@.len(),
                self@.first_unsaved(panes@, i as int) == self@.first_unsaved(panes@, 0),
            decreases panes@.len() - i,
        {
            i = i + 1;
        }
        i
    }

    /// Close tab `at`, or ask about it when there are edits in it that are nowhere else.
    pub fn close_tab(&mut self, at: usize)
        requires
            old(self).wf(),
        ensures
            final(self).wf(),
            final(self)@ == old(self)@.tab_close_asked(at as int),
    {
        proof {
            reveal(AppView::tab_close_asked);
        }
        if at >= self.tabs.all.len() {
            return;
        }
        let panes = self.tabs.all[at].panes();
        let unsaved: usize = self.find_unsaved(&panes);
        if unsaved < panes.len() {
            self.ask(Request::AskBeforeClosing(panes[unsaved]));
            self.redraw();
        } else {
            self.close_tab_now(at);
        }
    }

    /// Close every pane of the shown tab but `focused`, or ask about them.
    pub fn close_other_panes(&mut self, focused: PaneId)
        requires
            old(self).wf(),
        ensures
            final(self).wf(),
            final(self)@ == old(self)@.others_closed(focused),
    {
        proof {
            reveal(AppView::others_closed);
        }
        let others = self.other_panes(focused);
        if self.find_unsaved(&others) < others.len() {
            self.ask(Request::AskBeforeClosingOthers(focused));
            self.redraw();
        } else {
            self.close_other_panes_now(focused);
        }
    }

    fn other_panes(&self, focused: PaneId) -> (r: Vec<PaneId>)
        requires
            self.wf(),
        ensures
            r@ == panes_without(self@.tabs.tab().ids(), focused),
    {
        let panes = self.tabs.tab().panes();
        let mut others: Vec<PaneId> = Vec::new();
        let mut i: usize = 0;
        assert(panes@.take(0) =~= Seq::empty());
        while i < panes.len()
            invariant
                i <= panes@.len(),
                others@ == panes_without(panes@.take(i as int), focused),
            decreases panes@.len() - i,
        {
            assert(panes@.take(i + 1).drop_last() =~= panes@.take(i as int));
            if panes[i] != focused {
                others.push(panes[i]);
            }
            i = i + 1;
        }
        assert(panes@.take(i as int) =~= panes@);
        others
    }

    /// Close every pane of the shown tab but `focused`, without asking.
    pub fn close_other_panes_now(&mut self, focused: PaneId)
        requires
            old(self).wf(),
        ensures
            final(self).wf(),
            final(self)@ == ({
                let others = panes_without(old(self)@.tabs.tab().ids(), focused);
                old(self)@.panes_closed(others, others.len() as int)
            }),
    {
        let ghost before = self@;
        let others = self.other_panes(focused);
        let mut n: usize = 0;
        while n < others.len()
            invariant
                self.wf(),
                n <= others@.len(),
                self@ == before.panes_closed(others@, n as int),
            decreases others@.len() - n,
        {
            self.close_pane_now(others[n]);
            n = n + 1;
        }
    }

    /// Take away a pane whose shell has ended.
    fn reap_pane(&mut self, id: PaneId)
        requires
            old(self).wf(),
        ensures
            final(self).wf(),
            final(self)@ == old(self)@.pane_reaped(id),
    {
        proof {
            reveal(AppView::pane_reaped);
        }
        match self.tabs.tab_holding(id) {
            Some(at) => {
                let panes = self.tabs.all[at].panes();
                if panes.len() > 1 {
                    self.close_pane_in_any_tab(id, Closing::Forget);
                } else {
                    self.close_tab_now(at);
                }
            },
            None => {},
        }
    }

    /// Take away the panes whose shells have ended.
    pub fn reap_dead_panes(&mut self, dead: &Vec<PaneId>)
        requires
            old(self).wf(),
        ensures
            final(self).wf(),
            final(self)@ == old(self)@.reaped(dead@, dead@.len() as int),
    {
        let ghost before = self@;
        let mut n: usize = 0;
        while n < dead.len()
            invariant
                self.wf(),
                n <= dead@.len(),
                self@ == before.reaped(dead@, n as int),
            decreases dead@.len() - n,
        {
            self.reap_pane(dead[n]);
            n = n + 1;
        }
    }

    /// Show the tab that has `pane`, and give the pane focus.
    pub fn switch_to_pane(&mut self, pane: PaneId)
        requires
            old(self).wf(),
        ensures
            final(self).wf(),
            final(self)@ == old(self)@.pane_shown(pane),
    {
        match self.tabs.tab_holding(pane) {
            Some(at) => {
                let ghost before = self@;
                proof {
                    lemma_switched_ids(self@.tabs, at as int, self@.next_pane_id);
                }
                self.tabs.switch_tab(at);
                let ghost mid = self@;
                assert(mid.wf());
                assert(mid.tabs.all[at as int].wf());
                let mut tab = Tab::with_root(pane);
                std::mem::swap(&mut tab, &mut self.tabs.all[at]);
                tab.give_focus(pane);
                let ghost shown = tab;
                self.tabs.all[at] = tab;
                proof {
                    assert(self.tabs.all@ =~= mid.tabs.all.update(at as int, shown));
                    assert forall|x: PaneId| #[trigger] shown.ids().contains(x) implies x.0
                        < mid.next_pane_id by {
                        assert(mid.tabs.all[at as int].ids().contains(x));
                    }
                    lemma_tab_at(mid, at as int, shown);
                }
                self.ask(Request::UpdateTitle);
                self.redraw();
            },
            None => {},
        }
    }

    /// Show pane `id` as `grid`, which fits its room, as far back as it was.
    pub fn pane_resized(&mut self, id: PaneId, grid: Grid)
        requires
            old(self).wf(),
            grid.wf(),
        ensures
            final(self).wf(),
            final(self)@ == old(self)@.pane_fitted(id, grid),
    {
        let live = match self.panes.get(&id.0) {
            Some(state) => state.pane.is_some(),
            None => false,
        };
        if !live {
            return;
        }
        let mut s = self.enter(id);
        let mut fitted = grid;
        if let Some(pane) = &mut s.state.pane {
            let offset: usize = pane.grid.scroll_offset();
            if offset > 0 {
                fitted.set_scroll_offset(offset);
            }
            pane.grid = fitted;
        }
        self.leave(s);
    }

    /// Put a closed pane back: where it was, when its tab is otherwise as it was, and in
    /// a new split when it is not.
    pub fn restore_closed_pane(&mut self, closed: ClosedPane)
        requires
            old(self).wf(),
            old(self)@.has_room(),
            closed_ok(closed@, old(self)@.next_pane_id),
        ensures
            final(self).wf(),
            final(self)@ == old(self)@.pane_restored(closed@),
    {
        proof {
            reveal(AppView::pane_restored);
        }
        let ghost before = self@;
        let ghost kept = closed@;
        let pane = closed.pane;
        let at: usize = closed.tab;
        if self.reopen_fits(&closed) {
            let layout = match closed.layout {
                Some(layout) => layout,
                None => {
                    return;
                },
            };
            proof {
                lemma_switched_ids(self@.tabs, at as int, self@.next_pane_id);
            }
            self.tabs.switch_tab(at);
            let ghost mid = self@;
            let cells = self.spawn_grid_size(Direction::Vertical);
            let tab = Tab::from_tree(layout, pane);
            let ghost back = tab;
            self.tabs.all[at] = tab;
            proof {
                assert(self.tabs.all@ =~= mid.tabs.all.update(at as int, back));
                assert forall|x: PaneId| #[trigger] back.ids().contains(x) implies x.0
                    < mid.next_pane_id by {
                    let j = choose|j: int| 0 <= j < back.ids().len() && back.ids()[j] == x;
                    assert(leaves(layout)[j].0 < mid.next_pane_id);
                }
                lemma_tab_at(mid, at as int, back);
            }
            self.ask(Request::SpawnShell { pane, cells, cwd: closed.cwd });
            self.restore_pages_into(pane, closed.pages);
            self.redraw();
        } else {
            let id = self.split_pane_at(Direction::Vertical, closed.cwd);
            self.restore_pages_into(id, closed.pages);
            self.redraw();
        }
    }

    fn restore_pages_into(&mut self, id: PaneId, back: Vec<PageSlot>)
        requires
            old(self).wf(),
            forall|i: int| 0 <= i < back@.len() ==> slot_ok(#[trigger] slot_views(back@)[i]),
        ensures
            final(self).wf(),
            final(self)@ == old(self)@.pages_back(id, slot_views(back@)),
    {
        if self.pages.restore(id, back) {
            self.set_mode(id, Mode::Page);
        }
    }

    /// Whether a closed pane's tab is otherwise as it was.
    pub fn reopen_fits(&self, closed: &ClosedPane) -> (r: bool)
        requires
            self.wf(),
        ensures
            r == (closed@.tab < self@.tabs.all.len() && closed@.layout is Some && still_fits(
                self@.tabs.all[closed@.tab as int].ids(),
                leaves(closed@.layout->0),
                closed@.pane,
            )),
    {
        if closed.tab >= self.tabs.all.len() {
            return false;
        }
        let snapshot = match &closed.layout {
            Some(layout) => layout_panes(layout),
            None => {
                return false;
            },
        };
        let held = self.tabs.all[closed.tab].panes();
        let total: usize = held.len();
        if snapshot.len() == 0 || snapshot.len() - 1 != total {
            return false;
        }
        if crate::tabs::find_pane(&snapshot, closed.pane) >= snapshot.len() {
            return false;
        }
        let mut i: usize = 0;
        while i < held.len()
            invariant
                i <= held@.len(),
                closed@.tab < self@.tabs.all.len(),
                held@ == self@.tabs.all[closed@.tab as int].ids(),
                closed@.layout is Some,
                snapshot@ == leaves(closed@.layout->0),
                forall|j: int| 0 <= j < i ==> snapshot@.contains(#[trigger] held@[j]),
            decreases held@.len() - i,
        {
            if crate::tabs::find_pane(&snapshot, held[i]) >= snapshot.len() {
                assert(!snapshot@.contains(held@[i as int]));
                return false;
            }
            i = i + 1;
        }
        true
    }
}

/// Closing a pane always leaves one: the only pane of the only tab stays.
pub proof fn law_the_last_pane_stays(app: AppView, pane: PaneId, closing: Closing)
    requires
        app.wf(),
        app.tabs.all.len() == 1,
        app.tabs.all[0].ids().len() == 1,
    ensures
        app.pane_closed(pane, closing) == app,
{
    reveal(AppView::pane_closed);
    reveal_with_fuel(TabsView::holding, 2);
}

/// A closed pane that was not the only one of its tab can be put back where it was: its
/// tab is otherwise as it was.
pub proof fn law_a_closed_pane_fits_where_it_was(app: AppView, pane: PaneId)
    requires
        app.wf(),
        app.tabs.holding(pane, 0) < app.tabs.all.len(),
        app.tabs.all[app.tabs.holding(pane, 0)].ids().len() > 1,
    ensures
        ({
            let at = app.tabs.holding(pane, 0);
            still_fits(
                app.tabs.all[at].after_close(pane).ids(),
                leaves(app.tabs.all[at].layout),
                pane,
            )
        }),
{
    let at = app.tabs.holding(pane, 0);
    crate::tabs::lemma_holding(app.tabs, pane, 0);
    let tab = app.tabs.all[at];
    assert(tab.wf());
    crate::tabs::lemma_layout_without(tab.layout, pane);
    crate::tabs::lemma_panes_without(tab.ids(), pane);
    let left = tab.after_close(pane).ids();
    assert(left == panes_without(tab.ids(), pane));
    assert forall|i: int| 0 <= i < left.len() implies leaves(tab.layout).contains(
        #[trigger] left[i],
    ) by {
        assert(left.contains(left[i]));
    }
}

/// A shell that ends takes its pane with it, and the last of all ends the program.
pub proof fn law_the_last_shell_ends_the_program(app: AppView, pane: PaneId)
    requires
        app.wf(),
        app.tabs.all.len() == 1,
        app.tabs.all[0].ids() == seq![pane],
    ensures
        app.pane_reaped(pane).window.exit_requested,
        app.pane_reaped(pane).tabs == app.tabs,
{
    reveal(AppView::pane_reaped);
    reveal(AppView::tab_dropped);
    assert(app.tabs.all[0].ids()[0] == pane);
    assert(app.tabs.all[0].ids().contains(pane));
    assert(app.tabs.holding(pane, 0) == 0);
}

/// A pane keeps its place in the buffer when it is fitted to its room.
pub proof fn law_a_resize_keeps_the_place_in_the_buffer(app: AppView, id: PaneId, grid: Grid)
    requires
        app.wf(),
        grid.wf(),
        app.session(id).live(),
        grid.offset() == 0,
    ensures
        app.pane_fitted(id, grid).session(id).grid().offset() == crate::text::least(
            app.session(id).grid().offset(),
            grid.history(),
        ),
{
    assert(app.panes.dom().contains(id.0));
    assert(app.panes[id.0].wf());
}

/// The last pane of a tab takes the tab with it, where there is another.
pub proof fn law_the_last_pane_takes_its_tab(app: AppView, pane: PaneId, closing: Closing)
    requires
        app.wf(),
        app.tabs.all.len() > 1,
        app.tabs.holding(pane, 0) < app.tabs.all.len(),
        app.tabs.all[app.tabs.holding(pane, 0)].ids().len() == 1,
    ensures
        app.pane_closed(pane, closing).tabs == app.tabs.closed(app.tabs.holding(pane, 0)),
{
    reveal(AppView::pane_closed);
    reveal(AppView::tab_dropped);
    let at = app.tabs.holding(pane, 0);
    let ids = app.tabs.all[at].ids();
    lemma_dropped_tabs(app, ids, ids.len() as int);
}

} // verus!
