//! The pointer over the panes: what it selects, what programs hear of it, and what is pasted.

use vstd::prelude::*;
use crate::app::pages::Offer;
use crate::app::{lemma_put_back, lemma_session, lemma_with_session, phrase, App, AppView};
use crate::grid::Grid;
use crate::input::PaneId;
use crate::navigation::open::{
    candidates, line_files, line_index, link_at, linked_url, open_candidates, open_target,
    resolve_open_target, whole_line, OpenTarget, TargetView,
};
use crate::navigation::search::string_view;
use crate::pointer::clipboard::{word_at, word_selection};
use crate::pointer::mouse::{
    button_bytes, button_report, motion_bytes, motion_report, wheel_bytes, wheel_report,
    MouseButton,
};
use crate::pointer::Selection;
use crate::requests::{Request, RequestView};
use crate::text::{decimal, decimal_chars, string_of};

verus! {

broadcast use {
    Grid::lemma_bounds,
    Grid::lemma_scrolled,
    vstd::std_specs::hash::group_hash_axioms,
    lemma_put_back,
    lemma_session,
    lemma_with_session,
};

impl AppView {
    /// What a click on a cell of a pane selects: the word there, or the cell.
    pub open spec fn clicked_word(self, pane: PaneId, row: usize, col: usize) -> Selection {
        let grid = self.session(pane).grid();
        if row < grid.height() {
            word_at(grid, pane, row as int, col)
        } else {
            let abs = grid.absolute(row as int) as usize;
            Selection {
                block: false,
                end_col: col,
                end_row: abs,
                pane,
                start_col: col,
                start_row: abs,
            }
        }
    }

    /// Whether a pane's program wants extended reports of the mouse.
    pub open spec fn extended_reports(self, pane: PaneId) -> bool {
        self.state(pane).pane matches Some(pane) && pane.mouse_sgr
    }

    /// With a report of the mouse sent to the program of a pane.
    pub open spec fn mouse_reported(self, pane: PaneId, report: Seq<u8>) -> AppView {
        self.with_session(self.session(pane).sent(report))
    }

    /// With what is at a cell of a pane opened, where the paths in `existing` exist: a link
    /// with what the system has for it, a file in the user's editor.
    #[verifier::opaque]
    pub open spec fn opened_at(
        self,
        pane: PaneId,
        row: usize,
        col: usize,
        existing: Seq<String>,
    ) -> AppView {
        match self.state(pane).pane {
            Some(shown) => {
                let target = if row < shown.grid.height() {
                    open_target(shown.grid, row as int, col as int, shown.cwd, existing)
                } else {
                    None
                };
                match target {
                    Some(TargetView::Url(url)) => self.asked(RequestView::OpenExternal(url)),
                    Some(TargetView::File { line, path }) => self.asked(
                        RequestView::OpenEditor { path, line },
                    ),
                    None => self.told("nothing to open under the cursor"@),
                }
            },
            None => self,
        }
    }
}

impl App {
    /// Select the word at a cell of the view of a pane.
    pub fn select_word_at(&mut self, pane: PaneId, row: usize, col: usize)
        requires
            old(self).wf(),
        ensures
            final(self).wf(),
            final(self)@ == (if old(self)@.session(pane).live() {
                old(self)@.with_span(Some(old(self)@.clicked_word(pane, row, col)))
            } else {
                old(self)@
            }),
    {
        let span = match self.panes.get(&pane.0) {
            Some(state) => {
                assert(self@.panes.dom().contains(pane.0));
                match &state.pane {
                    Some(shown) => {
                        if row < shown.grid.rows() {
                            Some(word_selection(&shown.grid, pane, row, col))
                        } else {
                            let abs: usize = shown.grid.to_absolute_row(row);
                            Some(
                                Selection {
                                    block: false,
                                    end_col: col,
                                    end_row: abs,
                                    pane,
                                    start_col: col,
                                    start_row: abs,
                                },
                            )
                        }
                    },
                    None => None,
                }
            },
            None => None,
        };
        if let Some(span) = span {
            self.shared.selection.span = Some(span);
        }
    }

    fn wants_extended(&self, pane: PaneId) -> (r: bool)
        ensures
            r == self@.extended_reports(pane),
    {
        match self.panes.get(&pane.0) {
            Some(state) => match &state.pane {
                Some(pane) => pane.mouse_sgr,
                None => false,
            },
            None => false,
        }
    }

    fn report_mouse(&mut self, pane: PaneId, bytes: &Vec<u8>)
        requires
            old(self).wf(),
        ensures
            final(self).wf(),
            final(self)@ == old(self)@.mouse_reported(pane, bytes@),
    {
        let mut s = self.enter(pane);
        s.send(bytes.as_slice());
        self.leave(s);
    }

    /// Tell the program of a pane that a button went down or came up over a cell.
    pub fn forward_mouse_event(
        &mut self,
        pressed: bool,
        button: MouseButton,
        cell: (usize, usize),
        focused: PaneId,
    )
        requires
            old(self).wf(),
            cell.0 < usize::MAX,
            cell.1 < usize::MAX,
        ensures
            final(self).wf(),
            final(self)@ == (match button_report(
                old(self)@.extended_reports(focused),
                button,
                pressed,
                cell.1 as int,
                cell.0 as int,
            ) {
                Some(report) => old(self)@.mouse_reported(focused, report),
                None => old(self)@,
            }),
    {
        let (row, col) = cell;
        let sgr = self.wants_extended(focused);
        if let Some(bytes) = button_bytes(sgr, button, pressed, col, row) {
            self.report_mouse(focused, &bytes);
        }
    }

    /// Tell the program of a pane that the pointer is over a cell with a button held.
    pub fn forward_mouse_motion(&mut self, cell: (usize, usize), focused: PaneId)
        requires
            old(self).wf(),
            cell.0 < usize::MAX,
            cell.1 < usize::MAX,
        ensures
            final(self).wf(),
            final(self)@ == old(self)@.mouse_reported(
                focused,
                motion_report(
                    old(self)@.extended_reports(focused),
                    cell.1 as int,
                    cell.0 as int,
                ),
            ),
    {
        let (row, col) = cell;
        let sgr = self.wants_extended(focused);
        let bytes = motion_bytes(sgr, col, row);
        self.report_mouse(focused, &bytes);
    }

    /// Tell the program of a pane that the wheel was turned over a cell. Only the direction
    /// of `lines` counts.
    pub fn forward_mouse_scroll(&mut self, lines: i64, cell: (usize, usize), focused: PaneId)
        requires
            old(self).wf(),
            cell.0 < usize::MAX,
            cell.1 < usize::MAX,
        ensures
            final(self).wf(),
            final(self)@ == (if lines == 0 {
                old(self)@
            } else {
                old(self)@.mouse_reported(
                    focused,
                    wheel_report(
                        old(self)@.extended_reports(focused),
                        lines > 0,
                        cell.1 as int,
                        cell.0 as int,
                    ),
                )
            }),
    {
        if lines == 0 {
            return;
        }
        let (row, col) = cell;
        let sgr = self.wants_extended(focused);
        let bytes = wheel_bytes(sgr, lines > 0, col, row);
        self.report_mouse(focused, &bytes);
    }

    /// Send a text to the program in focus as a paste.
    pub fn paste_text(&mut self, text: &str)
        requires
            old(self).wf(),
        ensures
            final(self).wf(),
            final(self)@ == old(self)@.with_session(
                old(self)@.session(old(self)@.tabs.tab().focus).text_pasted(text@),
            ),
    {
        let pane = self.focused();
        let mut s = self.enter(pane);
        s.paste_text(text);
        self.leave(s);
    }

    /// Offer a press or a drag of the pointer to the page over `pane`.
    pub fn offer_mouse_to_page(&self, pane: PaneId) -> (r: Offer)
        ensures
            r == (if self@.pages.covers(pane) {
                Offer::Ask
            } else {
                Offer::Declined
            }),
    {
        if self.pages.covers(pane) {
            Offer::Ask
        } else {
            Offer::Declined
        }
    }

    /// Offer a turn of the wheel to the page over `pane`.
    pub fn offer_scroll_to_page(&self, pane: PaneId) -> (r: Offer)
        ensures
            r == (if self@.pages.covers(pane) {
                Offer::Ask
            } else {
                Offer::Declined
            }),
    {
        self.offer_mouse_to_page(pane)
    }

    /// The URL that a cell of a pane carries.
    pub fn hovered_link_at(&self, pane: PaneId, row: usize, col: usize) -> (r: Option<String>)
        requires
            self.wf(),
        ensures
            string_view(r) == (match self@.state(pane).pane {
                Some(shown) => if row < shown.grid.height() {
                    linked_url(shown.grid, row as int, col as int)
                } else {
                    None
                },
                None => None,
            }),
    {
        if let Some(state) = self.panes.get(&pane.0) {
            if let Some(shown) = &state.pane {
                if row < shown.grid.rows() {
                    return link_at(&shown.grid, row, col);
                }
            }
        }
        None
    }

    /// The paths whose existence decides what is opened at a cell of a pane.
    pub fn open_paths_at(&self, pane: PaneId, row: usize, col: usize) -> (r: Vec<String>)
        requires
            self.wf(),
            self@.session(pane).live() && row < self@.session(pane).grid().height() ==> line_index(
                self@.session(pane).grid(),
                row as int,
                col as int,
            ) <= usize::MAX,
        ensures
            crate::events::texts(r@) == (match self@.state(pane).pane {
                Some(shown) => if row < shown.grid.height() {
                    let line = whole_line(shown.grid, row as int);
                    candidates(
                        line,
                        line_files(line),
                        line_index(shown.grid, row as int, col as int),
                        shown.cwd,
                    )
                } else {
                    Seq::empty()
                },
                None => Seq::empty(),
            }),
    {
        if let Some(state) = self.panes.get(&pane.0) {
            if let Some(shown) = &state.pane {
                if row < shown.grid.rows() {
                    let cwd = match &shown.cwd {
                        Some(cwd) => Some(cwd.as_str()),
                        None => None,
                    };
                    return open_candidates(&shown.grid, row, col, cwd);
                }
            }
        }
        let none: Vec<String> = Vec::new();
        assert(crate::events::texts(none@) =~= Seq::empty());
        none
    }

    /// Open what is at a cell of a pane, where the paths in `existing` exist.
    pub fn open_at(&mut self, pane: PaneId, row: usize, col: usize, existing: &Vec<String>)
        requires
            old(self).wf(),
            old(self)@.session(pane).live() && row < old(self)@.session(pane).grid().height()
                ==> line_index(old(self)@.session(pane).grid(), row as int, col as int)
                <= usize::MAX,
        ensures
            final(self).wf(),
            final(self)@ == old(self)@.opened_at(pane, row, col, existing@),
    {
        proof {
            reveal(AppView::opened_at);
        }
        let mut target: Option<OpenTarget> = None;
        let mut live = false;
        if let Some(state) = self.panes.get(&pane.0) {
            if let Some(shown) = &state.pane {
                live = true;
                if row < shown.grid.rows() {
                    let cwd = match &shown.cwd {
                        Some(cwd) => Some(cwd.as_str()),
                        None => None,
                    };
                    target = resolve_open_target(&shown.grid, row, col, cwd, existing);
                }
            }
        }
        if live {
            match target {
                Some(OpenTarget::Url(url)) => self.ask(Request::OpenExternal(url)),
                Some(OpenTarget::File { line, path }) => self.ask(
                    Request::OpenEditor { path, line },
                ),
                None => self.set_notice("nothing to open under the cursor"),
            }
        }
    }

    /// Say that the user's editor could not be started.
    pub fn editor_failed(&mut self, editor: &str, reason: &str)
        requires
            old(self).wf(),
        ensures
            final(self).wf(),
            final(self)@ == old(self)@.faulted("could not start "@ + (editor@ + ": "@ + reason@) + ""@),
    {
        let why = phrase(editor, ": ", reason);
        let text = phrase("could not start ", why.as_str(), "");
        self.set_error(text.as_str());
    }
}

/// What an editor is started with to open a file: the line to go to, where there is one, and
/// the file.
pub fn editor_arguments(path: &str, line: Option<usize>) -> (r: Vec<String>)
    ensures
        crate::events::texts(r@) == (match line {
            Some(line) => seq!["+"@ + decimal(line as nat) + ""@, path@],
            None => seq![path@],
        }),
{
    let mut arguments: Vec<String> = Vec::new();
    if let Some(line) = line {
        let digits = string_of(&decimal_chars(line as u64));
        arguments.push(phrase("+", digits.as_str(), ""));
    }
    arguments.push(path.to_owned());
    assert(crate::events::texts(arguments@) =~= (match line {
        Some(line) => seq!["+"@ + decimal(line as nat) + ""@, path@],
        None => seq![path@],
    }));
    arguments
}

/// The editor to open files in: the one for a screen, the one for a line, or `vi`.
pub fn editor_command(visual: &Option<String>, editor: &Option<String>) -> (r: String)
    ensures
        r@ == (match (string_view(*visual), string_view(*editor)) {
            (Some(visual), _) => visual,
            (None, Some(editor)) => editor,
            (None, None) => "vi"@,
        }),
{
    match (visual, editor) {
        (Some(visual), _) => visual.as_str().to_owned(),
        (None, Some(editor)) => editor.as_str().to_owned(),
        (None, None) => "vi".to_owned(),
    }
}

} // verus!
