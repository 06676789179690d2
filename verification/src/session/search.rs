//! Searching: from match to match, and what is done to a match.

use vstd::prelude::*;
use crate::grid::Grid;
use crate::input::BlockNav;
use crate::navigation::search::{
    buffer_hits, buffer_match_spans, buffer_match_starts, cell_pairs, cells, keyword_at,
    pick_on_row, pick_span, row_target, selected_span, span_cells, starts, step_match,
    stepped_match, string_view, word_at, MatchPos, SearchFrom,
};
use crate::navigation::vim::{line_chars, printed_line};
use crate::prompt_edit::PromptDelete;
use crate::session::{SearchView, Session, SessionView};
use crate::text::{chars_of, least, min_of, string_of_range};

verus! {

broadcast use {Grid::lemma_bounds, Grid::lemma_scrolled};

impl SearchView {
    /// Which way a fresh search goes, and each repeat.
    pub open spec fn direction(self) -> BlockNav {
        if self.reverse {
            BlockNav::Previous
        } else {
            BlockNav::Next
        }
    }

    /// Put away: the query is kept for a repeat, and so is the direction.
    pub open spec fn put_away(self) -> SearchView {
        SearchView {
            current: None,
            match_index: 0,
            match_total: 0,
            origin: None,
            query: None,
            ..self
        }
    }

    /// On no match.
    pub open spec fn off_match(self) -> SearchView {
        SearchView { current: None, match_index: 0, match_total: 0, ..self }
    }

    /// What is searched for, when that is something.
    pub open spec fn sought(self) -> Option<Seq<char>> {
        match self.query {
            Some(q) if q.len() > 0 => Some(q),
            _ => None,
        }
    }
}

/// A cell by numbers that fit.
pub open spec fn pos_of(cell: (int, int)) -> (usize, usize) {
    (cell.0 as usize, cell.1 as usize)
}

impl SessionView {
    /// Where the cursor is, brought into view, by its absolute row.
    pub open spec fn search_cursor(self) -> (usize, usize) {
        let grid = self.grid();
        (
            grid.absolute(least(self.cursor().0 as int, grid.height() - 1)) as usize,
            self.cursor().1,
        )
    }

    /// With where the search is launched kept.
    pub open spec fn origin_set(self) -> SessionView {
        self.with_search(
            SearchView {
                origin: if self.live() {
                    Some((self.id, self.search_cursor()))
                } else {
                    None
                },
                ..self.shared.search
            },
        )
    }

    /// Where a step of the search starts from.
    pub open spec fn search_start(self, from: SearchFrom) -> (usize, usize) {
        match self.shared.search.origin {
            Some((pane, pos)) if from == SearchFrom::Origin && pane == self.id => pos,
            _ => self.search_cursor(),
        }
    }

    /// On match `i` of `total`, which starts at `found`.
    pub open spec fn stopped_at(self, found: (usize, usize), i: int, total: int) -> SessionView {
        self.with_search(
            SearchView {
                current: Some((self.id, found)),
                match_index: (i + 1) as usize,
                match_total: total as usize,
                ..self.shared.search
            },
        ).jump_pushed().revealed(found).redrawn()
    }

    /// After a step of the search: on the next match that way, of all there are in the
    /// buffer.
    pub open spec fn searched(self, direction: BlockNav, from: SearchFrom) -> SessionView {
        match self.shared.search.sought() {
            Some(query) => {
                let kept = self.with_search(
                    SearchView { last: Some(query), ..self.shared.search },
                );
                if !self.live() {
                    kept
                } else {
                    let matches = starts(buffer_hits(self.grid(), query));
                    if matches.len() == 0 {
                        kept.with_search(kept.shared.search.off_match())
                    } else {
                        let start = self.search_start(from);
                        let i = stepped_match(matches, (start.0 as int, start.1 as int), direction);
                        kept.stopped_at(pos_of(matches[i]), i, matches.len() as int)
                    }
                }
            },
            None => self.with_search(self.shared.search.off_match()),
        }
    }

    /// With the last query searched for again, when none is.
    pub open spec fn search_resumed(self) -> SessionView {
        match (self.shared.search.query, self.shared.search.last) {
            (None, Some(last)) => self.with_search(
                SearchView { query: Some(last), ..self.shared.search },
            ).refitted(),
            _ => self,
        }
    }

    /// The keyword under the cursor.
    pub open spec fn word_under(self) -> Option<Seq<char>> {
        match (self.state.pane, self.state.nav_cursor) {
            (Some(pane), Some((row, col))) => if row < pane.grid.height() {
                keyword_at(printed_line(pane.grid, row as int), col as int)
            } else {
                None
            },
            _ => None,
        }
    }

    /// After a search for the keyword under the cursor.
    pub open spec fn word_searched(self, forward: bool) -> SessionView {
        match self.word_under() {
            Some(word) => {
                let s = self.with_search(
                    SearchView { query: Some(word), reverse: !forward, ..self.shared.search },
                ).refitted().origin_set();
                s.searched(s.shared.search.direction(), SearchFrom::Origin).redrawn()
            },
            None => self,
        }
    }

    /// After the next match that way is selected.
    pub open spec fn match_selected(self, forward: bool) -> SessionView {
        let s = self.search_resumed();
        match s.shared.search.sought() {
            Some(query) if s.live() => {
                let spans = span_cells(buffer_hits(s.grid(), query));
                if spans.len() == 0 {
                    s
                } else {
                    let cursor = s.cursor();
                    let i = selected_span(
                        spans,
                        (s.grid().absolute(cursor.0 as int), cursor.1 as int),
                        forward,
                    );
                    s.stretch_selected(
                        pos_of(spans[i].0),
                        pos_of(spans[i].1),
                        s.shared.selection.visual_kind,
                    )
                }
            },
            _ => s,
        }
    }

    /// The columns of the match on the prompt line that is meant from the cursor, if
    /// there are matches at all.
    pub open spec fn prompt_match(self, query: Seq<char>, forward: bool) -> Option<
        Option<(usize, usize)>,
    > {
        let spans = span_cells(buffer_hits(self.grid(), query));
        if spans.len() == 0 {
            None
        } else {
            Some(
                match row_target(
                    spans,
                    self.prompt_row(),
                    self.nav_col(),
                    forward,
                ) {
                    Some(i) => Some((pos_of(spans[i].0).1, pos_of(spans[i].1).1)),
                    None => None,
                },
            )
        }
    }

    /// After the match on the prompt line that is meant is deleted.
    pub open spec fn match_deleted(self, forward: bool) -> SessionView {
        let s = self.search_resumed();
        match s.shared.search.sought() {
            Some(query) if s.live() => if !s.on_prompt() {
                s.faulted("Cannot delete: not on the editable prompt line"@)
            } else {
                match s.prompt_match(query, forward) {
                    Some(Some((start_col, end_col))) => s.prompt_deleted(
                        PromptDelete::Range { start_col, end_col },
                    ).redrawn(),
                    Some(None) => s.faulted("No search match on prompt line"@),
                    None => s,
                }
            },
            _ => s,
        }
    }

    /// After the match on the prompt line that is meant is changed.
    pub open spec fn match_changed(self, forward: bool) -> SessionView {
        let s = self.search_resumed();
        match s.shared.search.sought() {
            Some(query) if s.live() => if !s.on_prompt() {
                s.faulted("Cannot change: not on the editable prompt line"@)
            } else {
                match s.prompt_match(query, forward) {
                    Some(Some((start_col, end_col))) => s.prompt_deleted(
                        PromptDelete::Range { start_col, end_col },
                    ).inserting(),
                    Some(None) => s.faulted("No search match on prompt line"@),
                    None => s,
                }
            },
            _ => s,
        }
    }

    /// With a search launched from the cursor.
    pub open spec fn search_launched(self, reverse: bool) -> SessionView {
        self.with_search(
            SearchView { query: Some(Seq::empty()), reverse, ..self.shared.search },
        ).origin_set().refitted().redrawn()
    }

    /// With the query changed to `query`, if there is one, and searched for.
    pub open spec fn query_typed(self, query: spec_fn(Seq<char>) -> Seq<char>) -> SessionView {
        let s = match self.shared.search.query {
            Some(q) => self.with_search(
                SearchView { query: Some(query(q)), ..self.shared.search },
            ),
            None => self,
        };
        s.searched(s.shared.search.direction(), SearchFrom::Origin).redrawn()
    }

    /// With the search put away.
    pub open spec fn search_cancelled(self) -> SessionView {
        if self.shared.search.query is Some {
            self.with_search(self.shared.search.put_away()).refitted().redrawn()
        } else {
            self
        }
    }
}

/// A text with one more character.
pub open spec fn typed(c: char) -> spec_fn(Seq<char>) -> Seq<char> {
    |q: Seq<char>| q.push(c)
}

/// A text without its last character.
pub open spec fn erased() -> spec_fn(Seq<char>) -> Seq<char> {
    |q: Seq<char>|
        if q.len() > 0 {
            q.drop_last()
        } else {
            q
        }
}

/// A text as it is.
pub open spec fn kept() -> spec_fn(Seq<char>) -> Seq<char> {
    |q: Seq<char>| q
}

impl Session {
    /// Where the cursor is, brought into view, by its absolute row.
    fn cursor_for_search(&self) -> (r: Option<MatchPos>)
        requires
            self.wf(),
        ensures
            r == (if self@.live() {
                Some(self@.search_cursor())
            } else {
                None
            }),
    {
        match &self.state.pane {
            Some(pane) => {
                let (row, col): (usize, usize) = match self.state.nav_cursor {
                    Some(pos) => pos,
                    None => pane.grid.cursor(),
                };
                let row: usize = min_of(row, pane.grid.rows() - 1);
                Some((pane.grid.to_absolute_row(row), col))
            },
            None => None,
        }
    }

    /// Keep where the search is launched.
    pub fn set_search_origin(&mut self)
        requires
            old(self).wf(),
        ensures
            final(self).wf(),
            final(self)@ == old(self)@.origin_set(),
    {
        self.shared.search.origin = match self.cursor_for_search() {
            Some(pos) => Some((self.id, pos)),
            None => None,
        };
    }

    /// What is searched for, when that is something.
    fn sought(&self) -> (r: Option<String>)
        ensures
            string_view(r) == self@.shared.search.sought(),
    {
        match &self.shared.search.query {
            Some(query) => {
                let empty: bool = query.as_str().is_empty();
                if empty {
                    None
                } else {
                    Some(query.clone())
                }
            },
            None => None,
        }
    }

    fn leave_match(&mut self)
        ensures
            final(self)@ == old(self)@.with_search(old(self)@.shared.search.off_match()),
    {
        self.shared.search.match_index = 0;
        self.shared.search.match_total = 0;
        self.shared.search.current = None;
    }

    /// Go to the next match that way, and count: every match in the buffer is a stop
    /// of its own. At the last match the search goes round.
    pub fn search_step(&mut self, direction: BlockNav, from: SearchFrom)
        requires
            old(self).wf(),
        ensures
            final(self).wf(),
            final(self)@ == old(self)@.searched(direction, from),
    {
        let query: String = match self.sought() {
            Some(query) => query,
            None => {
                self.leave_match();
                return;
            },
        };
        self.shared.search.last = Some(query.clone());
        if self.state.pane.is_none() {
            return;
        }
        let start: MatchPos = self.search_start_pos(from);
        let matches = self.all_matches(&query);
        if matches.len() == 0 {
            self.leave_match();
            return;
        }
        let i: usize = step_match(&matches, start, direction);
        assert(cells(matches@)[i as int] == (matches@[i as int].0 as int, matches@[i as int].1 as int));
        self.stop_at(matches[i], i, matches.len());
    }

    /// Where a step of the search starts from.
    fn search_start_pos(&self, from: SearchFrom) -> (r: MatchPos)
        requires
            self.wf(),
            self@.live(),
        ensures
            r == self@.search_start(from),
    {
        let cursor: MatchPos = match self.cursor_for_search() {
            Some(pos) => pos,
            None => (0, 0),
        };
        match self.shared.search.origin {
            Some((pane, pos)) => if from == SearchFrom::Origin && pane == self.id {
                pos
            } else {
                cursor
            },
            None => cursor,
        }
    }

    /// Where each match in the buffer starts.
    fn all_matches(&self, query: &str) -> (matches: Vec<MatchPos>)
        requires
            self.wf(),
            self@.live(),
        ensures
            cells(matches@) == starts(buffer_hits(self@.grid(), query@)),
    {
        match &self.state.pane {
            Some(pane) => buffer_match_starts(&pane.grid, query),
            None => Vec::new(),
        }
    }

    /// Stop at match `i` of `total`, which starts at `found`.
    fn stop_at(&mut self, found: MatchPos, i: usize, total: usize)
        requires
            old(self).wf(),
            i < total,
        ensures
            final(self).wf(),
            final(self)@ == old(self)@.stopped_at(found, i as int, total as int),
    {
        self.shared.search.match_total = total;
        self.shared.search.match_index = i + 1;
        self.shared.search.current = Some((self.id, found));
        self.push_jump();
        self.reveal_position(found);
        self.shared.dirty = true;
    }

    /// `n` and `N`: go to the next match from the cursor.
    pub fn search_in_pane(&mut self, direction: BlockNav)
        requires
            old(self).wf(),
        ensures
            final(self).wf(),
            final(self)@ == old(self)@.searched(direction, SearchFrom::Cursor),
    {
        self.search_step(direction, SearchFrom::Cursor);
    }

    /// Search for the last query again, when the search was put away.
    pub fn resume_last_search(&mut self)
        requires
            old(self).wf(),
        ensures
            final(self).wf(),
            final(self)@ == old(self)@.search_resumed(),
    {
        if self.shared.search.query.is_some() {
            return;
        }
        let last = match &self.shared.search.last {
            Some(last) => last.clone(),
            None => {
                return;
            },
        };
        self.shared.search.query = Some(last);
        self.refit();
    }

    /// `*` and `#`: search for the keyword under the cursor. The cursor is on a match
    /// already, so the search goes to the one after.
    pub fn search_word_under_cursor(&mut self, forward: bool)
        requires
            old(self).wf(),
        ensures
            final(self).wf(),
            final(self)@ == old(self)@.word_searched(forward),
    {
        let word = match (&self.state.pane, self.state.nav_cursor) {
            (Some(pane), Some((row, col))) => {
                if row < pane.grid.rows() {
                    word_at(&line_chars(&pane.grid, row), col)
                } else {
                    None
                }
            },
            _ => None,
        };
        if let Some(word) = word {
            self.shared.search.query = Some(word);
            self.shared.search.reverse = !forward;
            self.refit();
            self.set_search_origin();
            let direction = self.shared.search.search_start_direction();
            self.search_step(direction, SearchFrom::Origin);
            self.shared.dirty = true;
        }
    }

    /// `gn` and `gN`: select the next match that way.
    pub fn select_search_match(&mut self, forward: bool)
        requires
            old(self).wf(),
        ensures
            final(self).wf(),
            final(self)@ == old(self)@.match_selected(forward),
    {
        self.resume_last_search();
        let query: String = match self.sought() {
            Some(query) => query,
            None => {
                return;
            },
        };
        let stored = self.state.nav_cursor;
        let (spans, at) = match &self.state.pane {
            Some(pane) => {
                let (row, col): (usize, usize) = match stored {
                    Some(pos) => pos,
                    None => pane.grid.cursor(),
                };
                (
                    buffer_match_spans(&pane.grid, &query),
                    (pane.grid.to_absolute_row(row), col),
                )
            },
            None => {
                return;
            },
        };
        let ghost all = span_cells(buffer_hits(self@.grid(), query@));
        assert(cell_pairs(spans@) == all);
        if spans.len() == 0 {
            return;
        }
        let i: usize = pick_span(&spans, at, forward);
        let (from, to) = spans[i];
        assert(cell_pairs(spans@)[i as int] == (
            (from.0 as int, from.1 as int),
            (to.0 as int, to.1 as int),
        ));
        let kind = self.shared.selection.visual_kind;
        self.select_stretch(from, to, kind);
    }

    /// The columns of the match on the prompt line that is meant from the cursor, if
    /// there are matches at all.
    fn find_prompt_match(&self, query: &str, forward: bool) -> (r: Option<Option<(usize, usize)>>)
        requires
            self.wf(),
            self@.live(),
        ensures
            r == self@.prompt_match(query@, forward),
    {
        let spans = match &self.state.pane {
            Some(pane) => buffer_match_spans(&pane.grid, query),
            None => Vec::new(),
        };
        let ghost all = span_cells(buffer_hits(self@.grid(), query@));
        assert(cell_pairs(spans@) == all);
        if spans.len() == 0 {
            return None;
        }
        let target = match self.prompt_cursor() {
            Some((row, _, _, nav)) => pick_on_row(&spans, row, nav, forward),
            None => None,
        };
        match target {
            Some(i) => {
                let (from, to) = spans[i];
                assert(cell_pairs(spans@)[i as int] == (
                    (from.0 as int, from.1 as int),
                    (to.0 as int, to.1 as int),
                ));
                Some(Some((from.1, to.1)))
            },
            None => Some(None),
        }
    }

    /// Whether the cursor is on the row of the prompt.
    fn is_on_prompt(&self) -> (r: bool)
        requires
            self.wf(),
            self@.live(),
        ensures
            r == self@.on_prompt(),
    {
        match self.prompt_cursor() {
            Some((row, _, nav_row, _)) => nav_row == row,
            None => true,
        }
    }

    /// `dgn` and `dgN`: delete the match on the prompt line that is meant.
    pub fn delete_search_match(&mut self, forward: bool)
        requires
            old(self).wf(),
        ensures
            final(self).wf(),
            final(self)@ == old(self)@.match_deleted(forward),
    {
        self.resume_last_search();
        let query: String = match self.sought() {
            Some(query) => query,
            None => {
                return;
            },
        };
        if self.state.pane.is_none() {
            return;
        }
        if !self.is_on_prompt() {
            self.set_error("Cannot delete: not on the editable prompt line");
            return;
        }
        match self.find_prompt_match(&query, forward) {
            Some(Some((start_col, end_col))) => {
                self.delete_on_prompt(PromptDelete::Range { start_col, end_col });
                self.shared.dirty = true;
            },
            Some(None) => self.set_error("No search match on prompt line"),
            None => {},
        }
    }

    /// `cgn` and `cgN`: change the match on the prompt line that is meant.
    pub fn change_search_match(&mut self, forward: bool)
        requires
            old(self).wf(),
        ensures
            final(self).wf(),
            final(self)@ == old(self)@.match_changed(forward),
    {
        self.resume_last_search();
        let query: String = match self.sought() {
            Some(query) => query,
            None => {
                return;
            },
        };
        if self.state.pane.is_none() {
            return;
        }
        if !self.is_on_prompt() {
            self.set_error("Cannot change: not on the editable prompt line");
            return;
        }
        match self.find_prompt_match(&query, forward) {
            Some(Some((start_col, end_col))) => {
                self.delete_on_prompt(PromptDelete::Range { start_col, end_col });
                self.enter_insert();
            },
            Some(None) => self.set_error("No search match on prompt line"),
            None => {},
        }
    }

    /// `/` and `?`: launch a search from the cursor.
    pub fn search_start(&mut self, reverse: bool)
        requires
            old(self).wf(),
        ensures
            final(self).wf(),
            final(self)@ == old(self)@.search_launched(reverse),
    {
        let empty = String::new();
        assert(empty@ =~= Seq::empty());
        self.shared.search.query = Some(empty);
        self.shared.search.reverse = reverse;
        self.set_search_origin();
        self.refit();
        self.shared.dirty = true;
    }

    fn search_from_origin(&mut self)
        requires
            old(self).wf(),
        ensures
            final(self).wf(),
            final(self)@ == old(self)@.searched(
                old(self)@.shared.search.direction(),
                SearchFrom::Origin,
            ).redrawn(),
    {
        let direction = self.shared.search.search_start_direction();
        self.search_step(direction, SearchFrom::Origin);
        self.shared.dirty = true;
    }

    /// Type one more character of the query.
    pub fn search_char(&mut self, c: char)
        requires
            old(self).wf(),
        ensures
            final(self).wf(),
            final(self)@ == old(self)@.query_typed(typed(c)),
    {
        if let Some(query) = &mut self.shared.search.query {
            query.push(c);
        }
        self.search_from_origin();
    }

    /// Take back the last character of the query.
    pub fn search_backspace(&mut self)
        requires
            old(self).wf(),
        ensures
            final(self).wf(),
            final(self)@ == old(self)@.query_typed(erased()),
    {
        let shorter = match &self.shared.search.query {
            Some(query) => {
                let chars = chars_of(query.as_str());
                let n: usize = if chars.len() > 0 {
                    chars.len() - 1
                } else {
                    0
                };
                let s = string_of_range(&chars, 0, n);
                assert(s@ =~= (erased())(query@));
                Some(s)
            },
            None => None,
        };
        self.shared.search.query = shorter;
        self.search_from_origin();
    }

    /// Take the match the search is on: the same as it was while typing.
    pub fn search_execute(&mut self)
        requires
            old(self).wf(),
        ensures
            final(self).wf(),
            final(self)@ == old(self)@.query_typed(kept()),
    {
        self.search_from_origin();
    }

    /// Put the search away. The cursor stays, and the query is kept for `n` and `N`.
    pub fn search_cancel(&mut self)
        requires
            old(self).wf(),
        ensures
            final(self).wf(),
            final(self)@ == old(self)@.search_cancelled(),
    {
        if self.shared.search.query.is_none() {
            return;
        }
        self.put_search_away();
        self.refit();
        self.shared.dirty = true;
    }

    /// Forget the query and the match, but for what a repeat needs.
    pub fn put_search_away(&mut self)
        ensures
            final(self)@ == old(self)@.with_search(old(self)@.shared.search.put_away()),
    {
        self.shared.search.query = None;
        self.shared.search.match_index = 0;
        self.shared.search.match_total = 0;
        self.shared.search.current = None;
        self.shared.search.origin = None;
    }
}

/// Putting a search away keeps what a repeat needs: `n` after it searches for the same
/// query, the same way round.
pub proof fn law_a_search_put_away_resumes(s: SessionView, query: Seq<char>)
    requires
        s.shared.search.query == Some(query),
        s.shared.search.last == Some(query),
    ensures
        s.search_cancelled().search_resumed().shared.search.query == Some(query),
        s.search_cancelled().search_resumed().shared.search.direction()
            == s.shared.search.direction(),
        s.search_cancelled().state == s.state,
{
}

/// Enter takes the match that typing the query had come to: to search again from where
/// the search was launched changes neither the match nor the count.
pub proof fn law_enter_takes_the_match(s: SessionView, query: Seq<char>, pos: (usize, usize))
    requires
        s.wf(),
        s.live(),
        s.shared.search.query == Some(query),
        query.len() > 0,
        s.shared.search.origin == Some((s.id, pos)),
    ensures
        ({
            let once = s.searched(s.shared.search.direction(), SearchFrom::Origin);
            let twice = once.searched(once.shared.search.direction(), SearchFrom::Origin);
            &&& once.shared.search.match_index == twice.shared.search.match_index
            &&& once.shared.search.match_total == twice.shared.search.match_total
            &&& once.shared.search.current == twice.shared.search.current
        }),
{
    let once = s.searched(s.shared.search.direction(), SearchFrom::Origin);
    assert(s.grid().scrolled(s.grid().offset()) == s.grid());
    lemma_same_hits(s.grid(), once.grid(), query);
}

proof fn lemma_same_hits(grid: Grid, other: Grid, query: Seq<char>)
    requires
        grid.wf(),
        exists|offset: int| 0 <= offset && other == #[trigger] grid.scrolled(offset),
    ensures
        buffer_hits(grid, query) == buffer_hits(other, query),
{
    assert(grid.total() == other.total());
    lemma_same_hits_to(grid, other, query, grid.total());
}

proof fn lemma_same_hits_to(grid: Grid, other: Grid, query: Seq<char>, n: int)
    requires
        grid.wf(),
        exists|offset: int| 0 <= offset && other == #[trigger] grid.scrolled(offset),
    ensures
        crate::navigation::search::hits(grid, query, 0, n) == crate::navigation::search::hits(
            other,
            query,
            0,
            n,
        ),
    decreases n,
{
    if n > 0 {
        lemma_same_hits_to(grid, other, query, n - 1);
        assert(crate::navigation::search::raw_row(grid, n - 1)
            =~= crate::navigation::search::raw_row(other, n - 1));
    }
}

} // verus!
