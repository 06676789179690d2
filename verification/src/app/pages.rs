//! Pages over panes: opening one in its place, closing it, and the text cursor over it.

use vstd::prelude::*;
use crate::app::{
    lemma_put_back, lemma_session, lemma_with_session, phrase, App, AppView,
};
use crate::events::texts;
use crate::grid::Grid;
use crate::input::{Key, KeyCode, Mode, PaneId};
use crate::jobs::{jobs_of, Finished, JobReply, JobRequest, MAX_IN_FLIGHT};
use crate::navigation::search::string_view;
use crate::pages::{
    cursor_selection, cursor_step, first_non_blank, first_printed, prompt_step, selection_of,
    ActivePick, ActivePrompt, CursorStep, InputView, PageCursor, PagesView, PickRequest, PickView,
    PromptRequest, PromptStep, PromptView,
};
use crate::palette::PaletteMode;
use crate::pointer::clipboard::{confirmation, copy_confirmation};
use crate::pointer::{Selection, SelectionState};
use crate::requests::{Request, RequestView};
use crate::session::{Effect, EffectView, SharedView};
use crate::text::{chars_of, minus};

verus! {

broadcast use {
    Grid::lemma_bounds,
    Grid::lemma_scrolled,
    vstd::std_specs::hash::group_hash_axioms,
    lemma_put_back,
    lemma_session,
    lemma_with_session,
};

/// The tool that lists a directory.
pub const DIR_TOOL: &'static str = "dir";

/// The tool that edits files.
pub const EDITOR_TOOL: &'static str = "editor";

/// The tool that shows the state of a repository.
pub const GIT_TOOL: &'static str = "git";

/// The tool that searches files.
pub const GREP_TOOL: &'static str = "grep";

/// The tool that shows the keys.
pub const KEYS_TOOL: &'static str = "keys";

/// The tool that shows documents.
pub const PDF_TOOL: &'static str = "pdf";

/// Whose a key is that was offered to a page.
#[derive(Clone, Copy, Debug, PartialEq, Eq, Structural)]
pub enum Offer {
    /// The page's, which is to be asked.
    Ask,
    /// The keymap's.
    Declined,
    /// Nobody's any more: it has been used.
    Spent,
}

/// Whether a key toggles the wrapping of long lines.
pub open spec fn toggles_wrap(key: Key) -> bool {
    &&& key.alt
    &&& !key.ctrl
    &&& (key.code == KeyCode::Char('z') || key.code == KeyCode::Char('Z'))
}

/// Of the answers that have come in, those for a pane with a page over it.
pub open spec fn for_pages(
    answers: Seq<(PaneId, JobReply)>,
    pages: PagesView,
    n: int,
) -> Seq<(PaneId, JobReply)>
    decreases n,
{
    if n <= 0 {
        Seq::empty()
    } else if pages.covers(answers[n - 1].0) {
        for_pages(answers, pages, n - 1).push(answers[n - 1])
    } else {
        for_pages(answers, pages, n - 1)
    }
}

impl AppView {
    /// With the jobs of a pane given up.
    #[verifier::opaque]
    pub open spec fn jobs_given_up(self, pane: PaneId) -> AppView {
        AppView { jobs: self.jobs.cancelled(pane), ..self }.asked(
            RequestView::CancelJobs(jobs_of(self.jobs.running, pane)),
        )
    }

    /// With a job begun for a pane, unless too many are under way.
    #[verifier::opaque]
    pub open spec fn job_begun(self, pane: PaneId, job: JobRequest) -> AppView {
        let me = AppView { jobs: self.jobs.started(pane), ..self };
        if self.jobs.running.len() >= MAX_IN_FLIGHT {
            me
        } else {
            me.asked(RequestView::StartJob { id: self.jobs.next_id, pane, job })
        }
    }

    /// With a page of `tool` over the pane in focus.
    #[verifier::opaque]
    pub open spec fn page_shown(self, tool: Seq<char>, cwd: Option<Seq<char>>) -> AppView {
        let pane = self.tabs.tab().focus;
        AppView {
            pages: self.pages.shown(pane, tool, cwd, self.session(pane).mode()),
            ..self
        }.with_mode(pane, Mode::Page).asked(RequestView::HideTiles).redrawn()
    }

    /// With the page over the pane in focus covered, the jobs it asked for given up, and
    /// what it drew for itself taken away.
    #[verifier::opaque]
    pub open spec fn page_put_below(self) -> AppView {
        let pane = self.tabs.tab().focus;
        if self.pages.covers(pane) {
            let me = self.jobs_given_up(pane).asked(RequestView::RemoveSurface(pane));
            AppView { pages: me.pages.put_below(pane), ..me }
        } else {
            self
        }
    }

    /// With a page of `tool` over the pane in focus and over the page there, if any.
    pub open spec fn page_stacked(self, tool: Seq<char>, cwd: Option<Seq<char>>) -> AppView {
        self.page_put_below().page_shown(tool, cwd)
    }

    /// With nothing selected in a pane.
    pub open spec fn selection_dropped(self, pane: PaneId) -> AppView {
        if self.shared.selection.span matches Some(sel) && sel.pane == pane {
            self.with_span(None)
        } else {
            self
        }
    }

    /// With `span` selected.
    pub open spec fn with_span(self, span: Option<Selection>) -> AppView {
        AppView {
            shared: SharedView {
                selection: SelectionState { span, ..self.shared.selection },
                ..self.shared
            },
            ..self
        }
    }

    /// With a text cursor, or none.
    pub open spec fn with_page_cursor(self, cursor: Option<PageCursor>) -> AppView {
        AppView { pages: PagesView { cursor, ..self.pages }, ..self }
    }

    /// Without the text cursor, and what it had selected.
    #[verifier::opaque]
    pub open spec fn cursor_stopped(self) -> AppView {
        match self.pages.cursor {
            Some(cursor) => self.with_page_cursor(None).selection_dropped(cursor.pane),
            None => self,
        }.redrawn()
    }

    /// The same, when the cursor is over `pane`.
    pub open spec fn cursor_stopped_over(self, pane: PaneId) -> AppView {
        if self.pages.cursor matches Some(cursor) && cursor.pane == pane {
            self.cursor_stopped()
        } else {
            self
        }
    }

    /// With the page over `pane` gone and what belonged to it, and the pane as it was
    /// before, or the page that was covered back.
    #[verifier::opaque]
    pub open spec fn page_closed(self, pane: PaneId) -> AppView {
        if !self.pages.covers(pane) {
            self
        } else {
            let me = self.cursor_stopped_over(pane);
            let bare = AppView { pages: me.pages.uncovered(pane), ..me }.jobs_given_up(pane).asked(
                RequestView::RemoveSurface(pane),
            ).redrawn();
            if self.pages.below(pane).len() > 0 {
                bare.with_mode(pane, Mode::Page).asked(RequestView::ResumePage(pane))
            } else {
                bare.with_mode(pane, self.pages.slots[pane.0].prior_mode)
            }
        }
    }

    /// With the page of `tool` over the pane in focus closed when it is there, and shown
    /// when it is not.
    pub open spec fn page_toggled(self, tool: Seq<char>, cwd: Option<Seq<char>>) -> AppView {
        let pane = self.tabs.tab().focus;
        if self.pages.covers(pane) && self.pages.slots[pane.0].tool == tool {
            self.page_closed(pane)
        } else {
            self.page_shown(tool, cwd)
        }
    }

    /// With the state of a repository shown, and its first job begun.
    pub open spec fn repository_toggled(self, cwd: Option<Seq<char>>, first: JobRequest) -> AppView {
        let pane = self.tabs.tab().focus;
        if self.pages.covers(pane) && self.pages.slots[pane.0].tool == GIT_TOOL@ {
            self.page_closed(pane)
        } else {
            self.page_shown(GIT_TOOL@, cwd).job_begun(pane, first)
        }
    }

    /// With a file open in the editor: as another of its buffers when it is in view and
    /// takes it, in a page of its own when it can be opened, and not at all when not.
    pub open spec fn editor_opened(self, joins: bool, refused: Option<Seq<char>>) -> AppView {
        let pane = self.tabs.tab().focus;
        if self.pages.covers(pane) && self.pages.slots[pane.0].tool == EDITOR_TOOL@ && joins {
            self.redrawn()
        } else {
            match refused {
                None => self.page_stacked(EDITOR_TOOL@, None),
                Some(reason) => self.faulted(reason),
            }
        }
    }

    /// With a key given to the question that waits for its answer.
    #[verifier::opaque]
    pub open spec fn prompt_keyed(self, key: Key) -> AppView {
        match self.pages.prompt {
            None => self,
            Some(prompt) => match prompt_step(prompt, key) {
                PromptStep::Waiting(input) => self.with_prompt(
                    Some(PromptView { input, ..prompt }),
                ).redrawn(),
                PromptStep::Answered(answer) => {
                    let me = self.with_prompt(None).redrawn();
                    if me.pages.covers(prompt.pane) {
                        me.asked(
                            RequestView::AnswerPage {
                                pane: prompt.pane,
                                answer,
                                tag: prompt.tag,
                            },
                        )
                    } else {
                        me
                    }
                },
            },
        }
    }

    /// With a question that waits for its answer, or none.
    pub open spec fn with_prompt(self, prompt: Option<PromptView>) -> AppView {
        AppView { pages: PagesView { prompt, ..self.pages }, ..self }
    }

    /// With what is selected copied.
    #[verifier::opaque]
    pub open spec fn selection_copied(self) -> AppView {
        match self.selected() {
            Some(text) => self.with_effect(
                EffectView::Copy { text, done: confirmation(text), failed: None },
            ),
            None => self,
        }
    }

    /// With what is selected where a middle click pastes from.
    #[verifier::opaque]
    pub open spec fn primary_copied(self) -> AppView {
        match self.selected() {
            Some(text) => self.asked(RequestView::CopyToPrimary(text)),
            None => self,
        }
    }

    /// The last column that a text cursor over `pane` can be at.
    pub open spec fn last_col(self, pane: PaneId) -> usize {
        match self.selection_grid(pane) {
            Some(grid) => minus(grid.width(), 1) as usize,
            None => 0,
        }
    }

    /// With selected what the text cursor selects.
    #[verifier::opaque]
    pub open spec fn selection_synced(self) -> AppView {
        match self.pages.cursor {
            Some(cursor) => match cursor_selection(cursor, self.last_col(cursor.pane)) {
                Some(sel) => self.with_span(Some(sel)),
                None => self.selection_dropped(cursor.pane),
            },
            None => self,
        }
    }

    /// Where a text cursor over `pane` starts: on the row the page marks as its own, at
    /// the first column that shows something.
    pub open spec fn cursor_start(self, pane: PaneId) -> (usize, usize) {
        let row = if self.pages.covers(pane) && self.pages.slots[pane.0].cursor_line is Some {
            self.pages.slots[pane.0].cursor_line->0
        } else {
            0
        };
        let col = match self.selection_grid(pane) {
            Some(grid) => first_printed(grid, row as int) as usize,
            None => 0,
        };
        (row, col)
    }

    /// With a text cursor over `pane`, which selects from where it starts.
    #[verifier::opaque]
    pub open spec fn cursor_started(self, pane: PaneId) -> AppView {
        let (row, col) = self.cursor_start(pane);
        self.with_page_cursor(
            Some(PageCursor { anchor: Some((row, col)), col, linewise: false, pane, row }),
        ).selection_synced().redrawn()
    }

    /// With a key given to the text cursor.
    pub open spec fn cursor_keyed(self, key: Key) -> AppView {
        match self.pages.cursor {
            Some(cursor) => if key.alt || key.ctrl {
                self
            } else if cursor.pane != self.tabs.tab().focus {
                self.cursor_stopped()
            } else {
                match self.selection_grid(cursor.pane) {
                    None => self.cursor_stopped(),
                    Some(grid) => match cursor_step(cursor, key.code, grid) {
                        CursorStep::Left => self.cursor_stopped(),
                        CursorStep::Copied =>
                            self.selection_copied().primary_copied().with_page_cursor(
                            None,
                        ).redrawn(),
                        CursorStep::Swallowed => self,
                        CursorStep::Moved(next) => self.with_page_cursor(
                            Some(next),
                        ).selection_synced().redrawn(),
                    },
                }
            },
            None => self,
        }
    }

    /// Whether the text cursor takes a key: all but chords, while focus is where the
    /// cursor is.
    pub open spec fn cursor_takes(self, key: Key) -> bool {
        &&& !key.alt
        &&& !key.ctrl
        &&& self.pages.cursor matches Some(cursor)
        &&& cursor.pane == self.tabs.tab().focus
    }
}

impl App {
    pub(crate) fn give_up_jobs(&mut self, pane: PaneId)
        requires
            old(self).wf(),
        ensures
            final(self).wf(),
            final(self)@ == old(self)@.jobs_given_up(pane),
            old(self)@.has_room() ==> final(self)@.has_room(),
    {
        proof {
            reveal(AppView::jobs_given_up);
        }
        let stopped = self.jobs.cancel_for(pane);
        self.ask(Request::CancelJobs(stopped));
    }

    /// Begin a job for a pane, unless too many are under way.
    pub fn begin_job(&mut self, pane: PaneId, job: JobRequest)
        requires
            old(self).wf(),
            old(self)@.jobs.next_id < u64::MAX,
        ensures
            final(self).wf(),
            final(self)@ == old(self)@.job_begun(pane, job),
    {
        proof {
            reveal(AppView::job_begun);
        }
        if let Some(id) = self.jobs.spawn(pane) {
            self.ask(Request::StartJob { id, pane, job });
        }
    }

    fn add_page(&mut self, pane: PaneId, tool: &str, cwd: Option<String>, prior: Mode)
        requires
            old(self).wf(),
            old(self)@.pages.next_id < u64::MAX,
        ensures
            final(self).wf(),
            final(self)@ == (AppView {
                pages: old(self)@.pages.shown(pane, tool@, string_view(cwd), prior),
                ..old(self)@
            }),
    {
        self.pages.show(pane, tool, cwd, prior);
    }

    /// Show a page of `tool` over the pane in focus. The pane's program goes on running
    /// underneath.
    pub fn show_page(&mut self, tool: &str, cwd: Option<String>)
        requires
            old(self).wf(),
            old(self)@.pages.next_id < u64::MAX,
        ensures
            final(self).wf(),
            final(self)@ == old(self)@.page_shown(tool@, string_view(cwd)),
            final(self)@.jobs == old(self)@.jobs,
    {
        proof {
            reveal(AppView::page_shown);
        }
        let pane = self.focused();
        let prior = self.mode(pane);
        self.add_page(pane, tool, cwd, prior);
        self.set_mode(pane, Mode::Page);
        self.ask(Request::HideTiles);
        self.redraw();
    }

    fn cover_page(&mut self, pane: PaneId)
        requires
            old(self).wf(),
        ensures
            final(self).wf(),
            final(self)@ == (AppView { pages: old(self)@.pages.put_below(pane), ..old(self)@ }),
    {
        self.pages.cover(pane);
    }

    fn put_page_below(&mut self)
        requires
            old(self).wf(),
        ensures
            final(self).wf(),
            final(self)@ == old(self)@.page_put_below(),
            final(self)@.pages.next_id == old(self)@.pages.next_id,
    {
        proof {
            reveal(AppView::page_put_below);
            reveal(AppView::jobs_given_up);
        }
        let pane = self.focused();
        if self.pages.covers(pane) {
            self.give_up_jobs(pane);
            self.ask(Request::RemoveSurface(pane));
            self.cover_page(pane);
        }
    }

    /// Show a page of `tool` over the pane in focus, and keep the page there, if any,
    /// underneath: closing the new one brings it back.
    pub fn stack_page(&mut self, tool: &str, cwd: Option<String>)
        requires
            old(self).wf(),
            old(self)@.pages.next_id < u64::MAX,
        ensures
            final(self).wf(),
            final(self)@ == old(self)@.page_stacked(tool@, string_view(cwd)),
    {
        self.put_page_below();
        self.show_page(tool, cwd);
    }

    /// Let nothing be selected in a pane.
    pub fn drop_selection_in_pane(&mut self, pane: PaneId)
        requires
            old(self).wf(),
        ensures
            final(self).wf(),
            final(self)@ == old(self)@.selection_dropped(pane),
    {
        if let Some(sel) = self.shared.selection.span {
            if sel.pane == pane {
                self.shared.selection.span = None;
            }
        }
    }

    fn put_page_cursor(&mut self, cursor: Option<PageCursor>)
        requires
            old(self).wf(),
        ensures
            final(self).wf(),
            final(self)@ == old(self)@.with_page_cursor(cursor),
    {
        self.pages.cursor = cursor;
    }

    /// Drop the text cursor, and what it had selected.
    pub fn stop_page_cursor(&mut self)
        requires
            old(self).wf(),
        ensures
            final(self).wf(),
            final(self)@ == old(self)@.cursor_stopped(),
    {
        proof {
            reveal(AppView::cursor_stopped);
        }
        if let Some(cursor) = self.pages.cursor {
            self.put_page_cursor(None);
            self.drop_selection_in_pane(cursor.pane);
        }
        self.redraw();
    }

    fn stop_cursor_over(&mut self, pane: PaneId)
        requires
            old(self).wf(),
        ensures
            final(self).wf(),
            final(self)@ == old(self)@.cursor_stopped_over(pane),
            final(self)@.pages.slots == old(self)@.pages.slots,
            final(self)@.pages.covered == old(self)@.pages.covered,
            old(self)@.has_room() ==> final(self)@.has_room(),
    {
        proof {
            reveal(AppView::cursor_stopped);
        }
        if let Some(cursor) = self.pages.cursor {
            if cursor.pane == pane {
                self.stop_page_cursor();
            }
        }
    }

    fn uncover_page(&mut self, pane: PaneId) -> (r: Option<(Mode, bool)>)
        requires
            old(self).wf(),
        ensures
            final(self).wf(),
            final(self)@ == (AppView { pages: old(self)@.pages.uncovered(pane), ..old(self)@ }),
            r == (if old(self)@.pages.covers(pane) {
                Some(
                    (
                        old(self)@.pages.slots[pane.0].prior_mode,
                        old(self)@.pages.below(pane).len() > 0,
                    ),
                )
            } else {
                None
            }),
            old(self)@.has_room() ==> final(self)@.has_room(),
    {
        self.pages.uncover(pane)
    }

    /// Take the page over `pane` away, with the question, the text cursor and the jobs that
    /// belong to it. The page it covered comes back, or the pane as it was before.
    pub fn close_page(&mut self, pane: PaneId)
        requires
            old(self).wf(),
        ensures
            final(self).wf(),
            final(self)@ == old(self)@.page_closed(pane),
            old(self)@.has_room() ==> final(self)@.has_room(),
    {
        proof {
            reveal(AppView::page_closed);
        }
        if !self.pages.covers(pane) {
            return;
        }
        self.stop_cursor_over(pane);
        let back = self.uncover_page(pane);
        self.give_up_jobs(pane);
        self.ask(Request::RemoveSurface(pane));
        self.redraw();
        if let Some((prior, stacked)) = back {
            if stacked {
                self.set_mode(pane, Mode::Page);
                self.ask(Request::ResumePage(pane));
            } else {
                self.set_mode(pane, prior);
            }
        }
    }

    /// Show the page of `tool` over the pane in focus, or close it when it is there.
    pub fn toggle_page(&mut self, tool: &str, cwd: Option<String>)
        requires
            old(self).wf(),
            old(self)@.pages.next_id < u64::MAX,
        ensures
            final(self).wf(),
            final(self)@ == old(self)@.page_toggled(tool@, string_view(cwd)),
    {
        let pane = self.focused();
        if self.pages.shows(pane, tool) {
            self.close_page(pane);
        } else {
            self.show_page(tool, cwd);
        }
    }

    /// Show the keys over the pane in focus, or put them away.
    pub fn open_keys_page(&mut self)
        requires
            old(self).wf(),
            old(self)@.pages.next_id < u64::MAX,
        ensures
            final(self).wf(),
            final(self)@ == old(self)@.page_toggled(KEYS_TOOL@, None),
    {
        self.toggle_page(KEYS_TOOL, None);
    }

    /// List the directory `dir` over the pane in focus, or put the list away.
    pub fn open_dir_page(&mut self, dir: String)
        requires
            old(self).wf(),
            old(self)@.pages.next_id < u64::MAX,
        ensures
            final(self).wf(),
            final(self)@ == old(self)@.page_toggled(DIR_TOOL@, Some(dir@)),
    {
        self.toggle_page(DIR_TOOL, Some(dir));
    }

    /// Search the directory `dir` over the pane in focus, or put the search away.
    pub fn open_grep_page(&mut self, dir: String)
        requires
            old(self).wf(),
            old(self)@.pages.next_id < u64::MAX,
        ensures
            final(self).wf(),
            final(self)@ == old(self)@.page_toggled(GREP_TOOL@, Some(dir@)),
    {
        self.toggle_page(GREP_TOOL, Some(dir));
    }

    /// Show the state of the repository at `dir` over the pane in focus, which the job
    /// `first` finds out, or put it away.
    pub fn open_git_page(&mut self, dir: String, first: JobRequest)
        requires
            old(self).wf(),
            old(self)@.has_room(),
        ensures
            final(self).wf(),
            final(self)@ == old(self)@.repository_toggled(Some(dir@), first),
    {
        let pane = self.focused();
        if self.pages.shows(pane, GIT_TOOL) {
            self.close_page(pane);
        } else {
            self.show_page(GIT_TOOL, Some(dir));
            self.begin_job(pane, first);
        }
    }

    /// Show a file over the pane in focus: a document in its viewer, anything else in the
    /// editor. `joins` tells whether an editor in view takes it as another buffer, and
    /// `refused` why no editor opens it.
    pub fn open_path_page(&mut self, document: bool, joins: bool, refused: &Option<String>)
        requires
            old(self).wf(),
            old(self)@.pages.next_id < u64::MAX,
        ensures
            final(self).wf(),
            final(self)@ == (if document {
                old(self)@.page_stacked(PDF_TOOL@, None)
            } else {
                old(self)@.editor_opened(joins, string_view(*refused))
            }),
    {
        if document {
            self.stack_page(PDF_TOOL, None);
        } else {
            self.open_editor_page(joins, refused);
        }
    }

    /// Open a file in the editor over the pane in focus.
    pub fn open_editor_page(&mut self, joins: bool, refused: &Option<String>)
        requires
            old(self).wf(),
            old(self)@.pages.next_id < u64::MAX,
        ensures
            final(self).wf(),
            final(self)@ == old(self)@.editor_opened(joins, string_view(*refused)),
    {
        let pane = self.focused();
        if self.pages.shows(pane, EDITOR_TOOL) && joins {
            self.redraw();
        } else {
            match refused {
                None => self.stack_page(EDITOR_TOOL, None),
                Some(reason) => self.set_error(reason.as_str()),
            }
        }
    }

    /// List the files there are, or put the list away.
    pub fn open_file_browser(&mut self)
        requires
            old(self).wf(),
        ensures
            final(self).wf(),
            final(self)@ == (if old(self)@.palette matches Some(palette) && palette.mode
                == PaletteMode::Files {
                old(self)@.palette_gone().redrawn()
            } else {
                old(self)@.asked(RequestView::ListFiles).redrawn()
            }),
    {
        let showing = match &self.palette {
            Some(palette) => palette.mode == PaletteMode::Files,
            None => false,
        };
        if showing {
            self.put_away();
        } else {
            self.ask(Request::ListFiles);
            self.redraw();
        }
    }

    /// Offer a key to the page over `pane`. The one that toggles wrapping is used up
    /// before any page sees it.
    pub fn offer_key_to_page(&mut self, pane: PaneId, key: &Key) -> (r: Offer)
        requires
            old(self).wf(),
        ensures
            final(self).wf(),
            final(self)@ == (if toggles_wrap(*key) {
                (AppView {
                    pages: PagesView { wrap: !old(self)@.pages.wrap, ..old(self)@.pages },
                    ..old(self)@
                }).redrawn()
            } else {
                old(self)@
            }),
            r == (if toggles_wrap(*key) {
                Offer::Spent
            } else if old(self)@.pages.covers(pane) {
                Offer::Ask
            } else {
                Offer::Declined
            }),
    {
        if key.alt && !key.ctrl && (key.code == KeyCode::Char('z') || key.code == KeyCode::Char(
            'Z',
        )) {
            self.pages.wrap = !self.pages.wrap;
            self.redraw();
            Offer::Spent
        } else if self.pages.covers(pane) {
            Offer::Ask
        } else {
            Offer::Declined
        }
    }

    fn put_prompt(&mut self, prompt: Option<ActivePrompt>)
        requires
            old(self).wf(),
        ensures
            final(self).wf(),
            final(self)@ == old(self)@.with_prompt(crate::pages::prompt_view(prompt)),
    {
        self.pages.prompt = prompt;
    }

    fn take_prompt(&mut self) -> (r: Option<ActivePrompt>)
        requires
            old(self).wf(),
        ensures
            final(self).wf(),
            final(self)@ == old(self)@.with_prompt(None),
            crate::pages::prompt_view(r) == old(self)@.pages.prompt,
    {
        self.pages.prompt.take()
    }

    /// Give a key to the question that waits for its answer.
    pub fn handle_prompt_key(&mut self, key: &Key)
        requires
            old(self).wf(),
        ensures
            final(self).wf(),
            final(self)@ == old(self)@.prompt_keyed(*key),
    {
        proof {
            reveal(AppView::prompt_keyed);
        }
        match self.take_prompt() {
            None => {},
            Some(mut prompt) => {
                match prompt.step(key) {
                    None => {
                        self.put_prompt(Some(prompt));
                        self.redraw();
                    },
                    Some(answer) => {
                        self.redraw();
                        if self.pages.covers(prompt.pane) {
                            self.ask(
                                Request::AnswerPage {
                                    pane: prompt.pane,
                                    answer,
                                    tag: prompt.request.tag,
                                },
                            );
                        }
                    },
                }
            },
        }
    }

    /// What the question that waits for its answer shows.
    pub fn input_view(&self) -> (r: Option<InputView>)
        ensures
            r is Some == self@.pages.prompt is Some,
            r matches Some(view) ==> crate::pages::dialog_of(self@.pages.prompt->0, view),
    {
        match &self.pages.prompt {
            Some(prompt) => Some(prompt.dialog()),
            None => None,
        }
    }

    /// Put a question that waits for its answer.
    pub(crate) fn ask_question(&mut self, pane: PaneId, request: PromptRequest)
        requires
            old(self).wf(),
        ensures
            final(self).wf(),
            final(self)@ == old(self)@.with_prompt(
                Some(
                    PromptView {
                        initial: request.initial@,
                        input: request.initial@,
                        pane,
                        label: request.label@,
                        mode: request.mode,
                        tag: request.tag@,
                    },
                ),
            ).redrawn(),
    {
        let input = chars_of(request.initial.as_str());
        self.put_prompt(Some(ActivePrompt { input, pane, request }));
        self.redraw();
    }

    /// Put a question with a list of answers.
    pub(crate) fn ask_choice(&mut self, pane: PaneId, request: PickRequest)
        requires
            old(self).wf(),
        ensures
            final(self).wf(),
            final(self)@ == (AppView {
                pages: PagesView {
                    pick: Some(PickView { label: request.label@, pane, tag: request.tag@ }),
                    ..old(self)@.pages
                },
                ..old(self)@
            }).listed(
                PaletteMode::Pick,
                crate::app::palette::plain_entries(texts(request.items@)),
            ),
    {
        self.pages.pick = Some(ActivePick { label: request.label, pane, tag: request.tag });
        self.open_texts(PaletteMode::Pick, &request.items);
    }

    /// Copy what is selected.
    pub fn copy_selection(&mut self)
        requires
            old(self).wf(),
        ensures
            final(self).wf(),
            final(self)@ == old(self)@.selection_copied(),
    {
        proof {
            reveal(AppView::selection_copied);
        }
        if let Some(text) = self.selected_text() {
            let done = copy_confirmation(text.as_str());
            self.emit(Effect::Copy { text, done, failed: None });
        }
    }

    /// Put what is selected where a middle click pastes from.
    pub fn copy_selection_to_primary(&mut self)
        requires
            old(self).wf(),
        ensures
            final(self).wf(),
            final(self)@ == old(self)@.primary_copied(),
    {
        proof {
            reveal(AppView::primary_copied);
        }
        if let Some(text) = self.selected_text() {
            self.ask(Request::CopyToPrimary(text));
        }
    }

    fn find_last_col(&self, pane: PaneId) -> (r: usize)
        requires
            self.wf(),
        ensures
            r == self@.last_col(pane),
    {
        match self.selection_grid(pane) {
            Some(grid) => grid.cols() - 1,
            None => 0,
        }
    }

    fn put_span(&mut self, span: Option<Selection>)
        requires
            old(self).wf(),
        ensures
            final(self).wf(),
            final(self)@ == old(self)@.with_span(span),
    {
        self.shared.selection.span = span;
    }

    /// Select what the text cursor selects.
    pub fn sync_page_selection(&mut self)
        requires
            old(self).wf(),
        ensures
            final(self).wf(),
            final(self)@ == old(self)@.selection_synced(),
    {
        proof {
            reveal(AppView::selection_synced);
        }
        if let Some(cursor) = self.pages.cursor {
            let last: usize = self.find_last_col(cursor.pane);
            match selection_of(&cursor, last) {
                Some(sel) => self.put_span(Some(sel)),
                None => self.drop_selection_in_pane(cursor.pane),
            }
        }
    }

    fn find_cursor_start(&self, pane: PaneId) -> (r: (usize, usize))
        requires
            self.wf(),
        ensures
            r == self@.cursor_start(pane),
    {
        let row: usize = match self.pages.slots.get(&pane.0) {
            Some(slot) => match slot.cursor_line {
                Some(row) => row,
                None => 0,
            },
            None => 0,
        };
        let col: usize = match self.selection_grid(pane) {
            Some(grid) => first_non_blank(grid, row),
            None => 0,
        };
        (row, col)
    }

    /// Start a text cursor over the page of `pane`, on the row the page marks as its own
    /// and at the first column that shows something, and start selecting there.
    pub fn start_page_cursor(&mut self, pane: PaneId)
        requires
            old(self).wf(),
        ensures
            final(self).wf(),
            final(self)@ == old(self)@.cursor_started(pane),
    {
        proof {
            reveal(AppView::cursor_started);
        }
        let (row, col) = self.find_cursor_start(pane);
        self.put_page_cursor(
            Some(PageCursor { anchor: Some((row, col)), col, linewise: false, pane, row }),
        );
        self.sync_page_selection();
        self.redraw();
    }

    fn step_cursor(&self, cursor: PageCursor, code: KeyCode) -> (r: Option<CursorStep>)
        requires
            self.wf(),
        ensures
            r == (match self@.selection_grid(cursor.pane) {
                Some(grid) => Some(cursor_step(cursor, code, grid)),
                None => None,
            }),
    {
        match self.selection_grid(cursor.pane) {
            Some(grid) => Some(cursor.step(code, grid)),
            None => None,
        }
    }

    fn copy_and_leave(&mut self)
        requires
            old(self).wf(),
        ensures
            final(self).wf(),
            final(self)@ == old(self)@.selection_copied().primary_copied().with_page_cursor(
                None,
            ).redrawn(),
    {
        self.copy_selection();
        self.copy_selection_to_primary();
        self.put_page_cursor(None);
        self.redraw();
    }

    fn move_cursor_to(&mut self, next: PageCursor)
        requires
            old(self).wf(),
        ensures
            final(self).wf(),
            final(self)@ == old(self)@.with_page_cursor(Some(next)).selection_synced().redrawn(),
    {
        self.put_page_cursor(Some(next));
        self.sync_page_selection();
        self.redraw();
    }

    /// Give a key to the text cursor: whether it took it. A chord stays with the window.
    pub fn handle_page_cursor_key(&mut self, key: &Key) -> (r: bool)
        requires
            old(self).wf(),
        ensures
            final(self).wf(),
            final(self)@ == old(self)@.cursor_keyed(*key),
            r == old(self)@.cursor_takes(*key),
    {
        if key.alt || key.ctrl {
            return false;
        }
        match self.pages.cursor {
            None => false,
            Some(cursor) => {
                if cursor.pane != self.focused() {
                    self.stop_page_cursor();
                    return false;
                }
                match self.step_cursor(cursor, key.code) {
                    None => self.stop_page_cursor(),
                    Some(CursorStep::Left) => self.stop_page_cursor(),
                    Some(CursorStep::Copied) => self.copy_and_leave(),
                    Some(CursorStep::Swallowed) => {},
                    Some(CursorStep::Moved(next)) => self.move_cursor_to(next),
                }
                true
            },
        }
    }

    /// Of the answers that have come in, those that a page waits for.
    pub fn deliver_finished_jobs(&mut self, finished: Vec<Finished>) -> (r: Vec<(PaneId, JobReply)>)
        requires
            old(self).wf(),
        ensures
            final(self).wf(),
            final(self)@ == (AppView {
                jobs: old(self)@.jobs.drained(finished@, finished@.len() as int),
                ..old(self)@
            }),
            ({
                let answers = old(self)@.jobs.answers(finished@, finished@.len() as int);
                r@ == for_pages(answers, old(self)@.pages, answers.len() as int)
            }),
    {
        let mut left = self.jobs.drain(finished);
        let ghost all = left@;
        let ghost pages = self@.pages;
        let mut kept: Vec<(PaneId, JobReply)> = Vec::new();
        let ghost mut n: int = 0;
        assert(all.skip(0) =~= all);
        while left.len() > 0
            invariant
                0 <= n <= all.len(),
                left@ == all.skip(n),
                self.pages@ == pages,
                kept@ == for_pages(all, pages, n),
            decreases left@.len(),
        {
            let next = left.remove(0);
            assert(next == all[n]);
            assert(left@ =~= all.skip(n + 1));
            if self.pages.covers(next.0) {
                kept.push(next);
            }
            proof {
                n = n + 1;
            }
        }
        kept
    }

    /// Say what came of opening a path with what the system has for it.
    pub fn external_opened(&mut self, path: &str, failed: &Option<String>)
        requires
            old(self).wf(),
        ensures
            final(self).wf(),
            final(self)@ == (match string_view(*failed) {
                None => old(self)@.told("opened "@ + path@ + ""@),
                Some(reason) => old(self)@.faulted(
                    "could not open "@ + (path@ + ": "@ + reason) + ""@,
                ),
            }),
    {
        match failed {
            None => {
                let text = phrase("opened ", path, "");
                self.set_notice(text.as_str());
            },
            Some(reason) => {
                let why = phrase(path, ": ", reason.as_str());
                let text = phrase("could not open ", why.as_str(), "");
                self.set_error(text.as_str());
            },
        }
    }
}

// ------------------------------------------------------------------------
// Laws
// ------------------------------------------------------------------------

/// A page that is shown and closed again gives the pane back in the mode it was in.
pub proof fn law_closing_a_page_gives_the_pane_back(
    app: AppView,
    tool: Seq<char>,
    cwd: Option<Seq<char>>,
)
    requires
        app.wf(),
        !app.pages.covers(app.tabs.tab().focus),
        app.pages.below(app.tabs.tab().focus).len() == 0,
    ensures
        ({
            let pane = app.tabs.tab().focus;
            let after = app.page_shown(tool, cwd).page_closed(pane);
            &&& !after.pages.covers(pane)
            &&& after.session(pane).mode() == app.session(pane).mode()
            &&& after.tabs == app.tabs
        }),
{
    reveal(AppView::page_shown);
    reveal(AppView::page_closed);
    reveal(AppView::cursor_stopped);
    reveal(AppView::jobs_given_up);
}

/// A tool that is asked for twice is put away again.
pub proof fn law_a_tool_pressed_twice_is_put_away(
    app: AppView,
    tool: Seq<char>,
    cwd: Option<Seq<char>>,
)
    requires
        app.wf(),
        !app.pages.covers(app.tabs.tab().focus),
        app.pages.below(app.tabs.tab().focus).len() == 0,
    ensures
        !app.page_toggled(tool, cwd).page_toggled(tool, cwd).pages.covers(app.tabs.tab().focus),
{
    reveal(AppView::page_shown);
    reveal(AppView::page_closed);
    reveal(AppView::cursor_stopped);
    reveal(AppView::jobs_given_up);
}

/// A text cursor does not outlive the page it is over.
pub proof fn law_a_cursor_goes_with_its_page(app: AppView, pane: PaneId)
    requires
        app.pages.covers(pane),
    ensures
        app.page_closed(pane).pages.cursor matches Some(cursor) ==> cursor.pane != pane,
{
    reveal(AppView::page_closed);
    reveal(AppView::cursor_stopped);
    reveal(AppView::jobs_given_up);
}

/// What a text cursor has been started over is selected at once: the cell it is on.
pub proof fn law_a_cursor_selects_where_it_starts(app: AppView, pane: PaneId)
    ensures
        ({
            let (row, col) = app.cursor_start(pane);
            app.cursor_started(pane).shared.selection.span == Some(
                Selection {
                    block: false,
                    end_col: col,
                    end_row: row,
                    pane,
                    start_col: col,
                    start_row: row,
                },
            )
        }),
{
    reveal(AppView::cursor_started);
    reveal(AppView::selection_synced);
}

/// A chord stays with the window: the text cursor neither takes it nor goes.
pub proof fn law_chords_stay_with_the_window(app: AppView, key: Key)
    requires
        key.alt || key.ctrl,
    ensures
        app.cursor_keyed(key) == app,
        !app.cursor_takes(key),
{
}

} // verus!
