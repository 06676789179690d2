//! Pages that tools show over panes: what they ask for, the questions they put, and the
//! text cursor over what they have drawn.

use std::collections::HashMap;
use vstd::prelude::*;
use crate::grid::{Cell, Grid};
use crate::input::{Key, KeyCode, Mode, PaneId};
use crate::jobs::JobRequest;
use crate::navigation::search::string_view;
use crate::pointer::Selection;
use crate::text::{
    append_str, ascii_lowered, chars_of, greatest, is_white, least, max_of, min_of, minus,
    same_text, string_of, string_of_range, text_stop,
};

verus! {

broadcast use {
    Grid::lemma_bounds,
    Grid::lemma_scrolled,
    vstd::std_specs::hash::group_hash_axioms,
};

// ------------------------------------------------------------------------
// What a page asks for
// ------------------------------------------------------------------------

/// How a question is answered: with one key, or with a line of text.
#[derive(Clone, Copy, Debug, PartialEq, Eq, Structural)]
pub enum PromptMode {
    Confirm,
    Text,
}

/// A question a page puts.
#[derive(Debug)]
pub struct PromptRequest {
    pub initial: String,
    pub label: String,
    pub mode: PromptMode,
    pub tag: String,
}

/// A question with a list of answers to choose from.
#[derive(Debug)]
pub struct PickRequest {
    pub items: Vec<String>,
    pub label: String,
    pub tag: String,
}

/// A file, and the line of it to go to.
#[derive(Debug)]
pub struct FileTarget {
    pub line: Option<usize>,
    pub path: String,
}

/// What comes of the input a page was given.
#[derive(Debug)]
pub enum PageOutcome {
    /// Give up the jobs the page has asked for.
    CancelJobs,
    Close,
    /// The page has used the input.
    Consumed,
    /// The page has no use for the input.
    Ignored,
    Job(JobRequest),
    OpenExternal(String),
    OpenPath(FileTarget),
    /// Hand the page what the clipboard holds.
    Paste,
    Pick(PickRequest),
    Prompt(PromptRequest),
    /// Run a named command in the page's place.
    RunAction(String),
    /// Run a command in a tab of its own.
    Spawn(String),
    /// Open a file in the user's editor.
    SpawnEditor(FileTarget),
    /// Copy a text.
    Yank(String),
}

// ------------------------------------------------------------------------
// Pages over panes
// ------------------------------------------------------------------------

/// A page over a pane: its number, the tool that opened it, the mode the pane was in,
/// and what the page has drawn.
pub struct PageSlot {
    /// The row the page marks as its own.
    pub cursor_line: Option<usize>,
    /// The directory the page looks at.
    pub cwd: Option<String>,
    pub id: u64,
    pub painted: Option<Grid>,
    pub prior_mode: Mode,
    pub tool: String,
    /// Whether the page holds edits that are nowhere else.
    pub unsaved: bool,
}

/// A page over a pane by its contents.
pub struct SlotView {
    pub cursor_line: Option<usize>,
    pub cwd: Option<Seq<char>>,
    pub id: u64,
    pub painted: Option<Grid>,
    pub prior_mode: Mode,
    pub tool: Seq<char>,
    pub unsaved: bool,
}

impl View for PageSlot {
    type V = SlotView;

    open spec fn view(&self) -> SlotView {
        SlotView {
            cursor_line: self.cursor_line,
            cwd: string_view(self.cwd),
            id: self.id,
            painted: self.painted,
            prior_mode: self.prior_mode,
            tool: self.tool@,
            unsaved: self.unsaved,
        }
    }
}

/// Pages by their contents.
pub open spec fn slot_views(slots: Seq<PageSlot>) -> Seq<SlotView> {
    Seq::new(slots.len(), |i: int| slots[i]@)
}

/// A question that waits for its answer, and what has been typed of it.
pub struct ActivePrompt {
    pub input: Vec<char>,
    pub pane: PaneId,
    pub request: PromptRequest,
}

/// A question that waits for its answer by its contents.
pub struct PromptView {
    pub initial: Seq<char>,
    pub input: Seq<char>,
    pub pane: PaneId,
    pub label: Seq<char>,
    pub mode: PromptMode,
    pub tag: Seq<char>,
}

impl View for ActivePrompt {
    type V = PromptView;

    open spec fn view(&self) -> PromptView {
        PromptView {
            initial: self.request.initial@,
            input: self.input@,
            pane: self.pane,
            label: self.request.label@,
            mode: self.request.mode,
            tag: self.request.tag@,
        }
    }
}

/// A question that the palette stands in for while it lists the answers.
#[derive(Debug)]
pub struct ActivePick {
    pub label: String,
    pub pane: PaneId,
    pub tag: String,
}

/// A question with a list of answers by its contents.
pub struct PickView {
    pub label: Seq<char>,
    pub pane: PaneId,
    pub tag: Seq<char>,
}

impl View for ActivePick {
    type V = PickView;

    open spec fn view(&self) -> PickView {
        PickView { label: self.label@, pane: self.pane, tag: self.tag@ }
    }
}

/// A text cursor over a page: where it is, where the selection it extends was started,
/// and whether that takes whole lines.
#[derive(Clone, Copy, Debug)]
pub struct PageCursor {
    pub anchor: Option<(usize, usize)>,
    pub col: usize,
    pub linewise: bool,
    pub pane: PaneId,
    pub row: usize,
}

/// The pages there are, those they cover, and what they have asked.
pub struct Pages {
    pub covered: HashMap<u64, Vec<PageSlot>>,
    pub cursor: Option<PageCursor>,
    pub next_id: u64,
    pub pick: Option<ActivePick>,
    pub prompt: Option<ActivePrompt>,
    /// The page in view over each pane that has one.
    pub slots: HashMap<u64, PageSlot>,
    /// Whether pages wrap long lines.
    pub wrap: bool,
}

/// The pages there are by their contents.
pub struct PagesView {
    pub covered: Map<u64, Seq<SlotView>>,
    pub cursor: Option<PageCursor>,
    pub next_id: u64,
    pub pick: Option<PickView>,
    pub prompt: Option<PromptView>,
    pub slots: Map<u64, SlotView>,
    pub wrap: bool,
}

/// Covered pages by their contents.
pub open spec fn covered_views(covered: Map<u64, Vec<PageSlot>>) -> Map<u64, Seq<SlotView>> {
    covered.map_values(|v: Vec<PageSlot>| slot_views(v@))
}

/// Pages by pane by their contents.
pub open spec fn pane_pages(slots: Map<u64, PageSlot>) -> Map<u64, SlotView> {
    slots.map_values(|s: PageSlot| s@)
}

pub open spec fn prompt_view(prompt: Option<ActivePrompt>) -> Option<PromptView> {
    match prompt {
        Some(prompt) => Some(prompt@),
        None => None,
    }
}

pub open spec fn pick_view(pick: Option<ActivePick>) -> Option<PickView> {
    match pick {
        Some(pick) => Some(pick@),
        None => None,
    }
}

impl View for Pages {
    type V = PagesView;

    open spec fn view(&self) -> PagesView {
        PagesView {
            covered: covered_views(self.covered@),
            cursor: self.cursor,
            next_id: self.next_id,
            pick: pick_view(self.pick),
            prompt: prompt_view(self.prompt),
            slots: pane_pages(self.slots@),
            wrap: self.wrap,
        }
    }
}

/// What a page has drawn is in order.
pub open spec fn slot_ok(slot: SlotView) -> bool {
    slot.painted matches Some(grid) ==> grid.wf()
}

impl PagesView {
    /// What the pages have drawn is in order.
    pub open spec fn wf(self) -> bool {
        &&& forall|k: u64| #[trigger] self.slots.dom().contains(k) ==> slot_ok(self.slots[k])
        &&& forall|k: u64, i: int|
            #![trigger self.covered[k][i]]
            self.covered.dom().contains(k) && 0 <= i < self.covered[k].len() ==> slot_ok(
                self.covered[k][i],
            )
    }

    /// No pages.
    pub open spec fn empty() -> PagesView {
        PagesView {
            covered: Map::empty(),
            cursor: None,
            next_id: 0,
            pick: None,
            prompt: None,
            slots: Map::empty(),
            wrap: false,
        }
    }

    /// Whether there is a page over `pane`.
    pub open spec fn covers(self, pane: PaneId) -> bool {
        self.slots.dom().contains(pane.0)
    }

    /// With a page of `tool` that looks at `cwd` over `pane`, which was in mode `prior`.
    pub open spec fn shown(
        self,
        pane: PaneId,
        tool: Seq<char>,
        cwd: Option<Seq<char>>,
        prior: Mode,
    ) -> PagesView {
        PagesView {
            slots: self.slots.insert(
                pane.0,
                SlotView {
                    cursor_line: None,
                    cwd,
                    id: self.next_id,
                    painted: None,
                    prior_mode: prior,
                    tool,
                    unsaved: false,
                },
            ),
            next_id: (self.next_id + 1) as u64,
            ..self
        }
    }

    /// The pages that the page over `pane` covers.
    pub open spec fn below(self, pane: PaneId) -> Seq<SlotView> {
        if self.covered.dom().contains(pane.0) {
            self.covered[pane.0]
        } else {
            Seq::empty()
        }
    }

    /// Whether a page over `pane`, in view or covered, holds edits that are nowhere else.
    pub open spec fn unsaved(self, pane: PaneId) -> bool {
        ||| self.covers(pane) && self.slots[pane.0].unsaved
        ||| exists|i: int| 0 <= i < self.below(pane).len() && (#[trigger] self.below(pane)[i]).unsaved
    }

    /// The pages over `pane`, the one in view last.
    pub open spec fn over(self, pane: PaneId) -> Seq<SlotView> {
        if self.covers(pane) {
            self.below(pane).push(self.slots[pane.0])
        } else {
            self.below(pane)
        }
    }

    /// With all pages over `pane` gone, and what they had asked.
    pub open spec fn without(self, pane: PaneId) -> PagesView {
        PagesView {
            slots: self.slots.remove(pane.0),
            covered: self.covered.remove(pane.0),
            cursor: if self.cursor matches Some(cursor) && cursor.pane == pane {
                None
            } else {
                self.cursor
            },
            pick: if self.pick matches Some(pick) && pick.pane == pane {
                None
            } else {
                self.pick
            },
            prompt: if self.prompt matches Some(prompt) && prompt.pane == pane {
                None
            } else {
                self.prompt
            },
            ..self
        }
    }

    /// With `back` over `pane` again, the last in view.
    pub open spec fn restored(self, pane: PaneId, back: Seq<SlotView>) -> PagesView {
        if back.len() == 0 {
            self
        } else {
            PagesView {
                slots: self.slots.insert(pane.0, back.last()),
                covered: self.covered.insert(pane.0, back.drop_last()),
                ..self
            }
        }
    }

    /// With the page over `pane` covered, to come back later.
    pub open spec fn put_below(self, pane: PaneId) -> PagesView {
        if self.covers(pane) {
            PagesView {
                slots: self.slots.remove(pane.0),
                covered: self.covered.insert(pane.0, self.below(pane).push(self.slots[pane.0])),
                ..self
            }
        } else {
            self
        }
    }

    /// With the page over `pane` gone, its question with it, and the one it covered back.
    pub open spec fn uncovered(self, pane: PaneId) -> PagesView {
        if !self.covers(pane) {
            self
        } else {
            let gone = PagesView {
                slots: self.slots.remove(pane.0),
                prompt: if self.prompt matches Some(prompt) && prompt.pane == pane {
                    None
                } else {
                    self.prompt
                },
                ..self
            };
            if self.below(pane).len() > 0 {
                PagesView {
                    slots: gone.slots.insert(pane.0, self.below(pane).last()),
                    covered: self.covered.insert(pane.0, self.below(pane).drop_last()),
                    ..gone
                }
            } else {
                gone
            }
        }
    }
}

impl Pages {
    /// What the pages have drawn is in order.
    pub open spec fn wf(self) -> bool {
        self@.wf()
    }

    /// No pages.
    pub fn new() -> (r: Pages)
        ensures
            r.wf(),
            r@ == PagesView::empty(),
    {
        let r = Pages {
            covered: HashMap::new(),
            cursor: None,
            next_id: 0,
            pick: None,
            prompt: None,
            slots: HashMap::new(),
            wrap: false,
        };
        assert(covered_views(r.covered@) =~= Map::empty());
        assert(pane_pages(r.slots@) =~= Map::empty());
        r
    }

    /// Whether there is a page over `pane`.
    pub fn covers(&self, pane: PaneId) -> (r: bool)
        ensures
            r == self@.covers(pane),
    {
        self.slots.contains_key(&pane.0)
    }

    /// Whether `tool` has opened the page over `pane`.
    pub fn shows(&self, pane: PaneId, tool: &str) -> (r: bool)
        ensures
            r == (self@.covers(pane) && self@.slots[pane.0].tool == tool@),
    {
        match self.slots.get(&pane.0) {
            Some(slot) => same_text(slot.tool.as_str(), tool),
            None => false,
        }
    }

    /// Put a page of `tool` that looks at `cwd` over `pane`, which was in mode `prior`.
    pub fn show(&mut self, pane: PaneId, tool: &str, cwd: Option<String>, prior: Mode)
        requires
            old(self).wf(),
            old(self)@.next_id < u64::MAX,
        ensures
            final(self).wf(),
            final(self)@ == old(self)@.shown(pane, tool@, string_view(cwd), prior),
    {
        let ghost before = self@;
        let slot = PageSlot {
            cursor_line: None,
            cwd,
            id: self.next_id,
            painted: None,
            prior_mode: prior,
            tool: tool.to_owned(),
            unsaved: false,
        };
        let ghost added = slot@;
        self.slots.insert(pane.0, slot);
        self.next_id = self.next_id + 1;
        proof {
            assert(self@.slots =~= before.slots.insert(pane.0, added));
            assert forall|k: u64| #[trigger] self@.slots.dom().contains(k) implies slot_ok(
                self@.slots[k],
            ) by {
                if k != pane.0 {
                    assert(before.slots.dom().contains(k));
                }
            }
        }
    }

    /// Cover the page over `pane`, to come back later: whether there was one.
    pub fn cover(&mut self, pane: PaneId) -> (r: bool)
        requires
            old(self).wf(),
        ensures
            final(self).wf(),
            final(self)@ == old(self)@.put_below(pane),
            r == old(self)@.covers(pane),
    {
        let ghost before = self@;
        match self.slots.remove(&pane.0) {
            Some(slot) => {
                let ghost top = slot@;
                let mut stack = match self.covered.remove(&pane.0) {
                    Some(stack) => stack,
                    None => Vec::new(),
                };
                let ghost kept = stack@;
                assert(slot_views(kept) =~= before.below(pane));
                stack.push(slot);
                assert(slot_views(stack@) =~= slot_views(kept).push(top));
                let ghost full = stack@;
                self.covered.insert(pane.0, stack);
                proof {
                    assert(self@.slots =~= before.slots.remove(pane.0));
                    assert(self@.covered =~= before.covered.insert(pane.0, slot_views(full)));
                    assert(before.slots.dom().contains(pane.0));
                    assert(slot_ok(top));
                    assert forall|k: u64| #[trigger] self@.slots.dom().contains(k) implies slot_ok(
                        self@.slots[k],
                    ) by {
                        assert(before.slots.dom().contains(k));
                    }
                    assert forall|k: u64, i: int|
                        #![trigger self@.covered[k][i]]
                        self@.covered.dom().contains(k) && 0 <= i
                            < self@.covered[k].len() implies slot_ok(self@.covered[k][i]) by {
                        if k != pane.0 {
                            assert(before.covered[k][i] == self@.covered[k][i]);
                        } else if i < before.below(pane).len() {
                            assert(self@.covered[k][i] == before.covered[k][i]);
                        }
                    }
                }
                true
            },
            None => {
                assert(self@.slots =~= before.slots);
                false
            },
        }
    }

    /// Whether a page over `pane`, in view or covered, holds edits that are nowhere else.
    pub fn has_unsaved(&self, pane: PaneId) -> (r: bool)
        ensures
            r == self@.unsaved(pane),
    {
        if let Some(slot) = self.slots.get(&pane.0) {
            if slot.unsaved {
                return true;
            }
        }
        match self.covered.get(&pane.0) {
            Some(stack) => {
                let mut i: usize = 0;
                assert(self@.below(pane) == slot_views(stack@));
                while i < stack.len()
                    invariant
                        i <= stack@.len(),
                        self@.below(pane) == slot_views(stack@),
                        !(self@.covers(pane) && self@.slots[pane.0].unsaved),
                        forall|j: int| 0 <= j < i ==> !(#[trigger] self@.below(pane)[j]).unsaved,
                    decreases stack@.len() - i,
                {
                    if stack[i].unsaved {
                        assert(self@.below(pane)[i as int].unsaved);
                        return true;
                    }
                    i = i + 1;
                }
                false
            },
            None => false,
        }
    }

    /// Put pages over `pane` again, the last in view: whether there were any.
    pub fn restore(&mut self, pane: PaneId, back: Vec<PageSlot>) -> (r: bool)
        requires
            old(self).wf(),
            forall|i: int| 0 <= i < back@.len() ==> slot_ok(#[trigger] slot_views(back@)[i]),
        ensures
            final(self).wf(),
            final(self)@ == old(self)@.restored(pane, slot_views(back@)),
            r == (back@.len() > 0),
    {
        let ghost before = self@;
        let ghost all = slot_views(back@);
        let mut back = back;
        match back.pop() {
            Some(top) => {
                let ghost last = top@;
                assert(last == all.last());
                assert(slot_views(back@) =~= all.drop_last());
                let ghost left = back@;
                self.covered.insert(pane.0, back);
                self.slots.insert(pane.0, top);
                proof {
                    assert(self@.slots =~= before.slots.insert(pane.0, last));
                    assert(self@.covered =~= before.covered.insert(pane.0, slot_views(left)));
                    assert(slot_ok(all[all.len() - 1]));
                    assert forall|k: u64| #[trigger] self@.slots.dom().contains(k) implies slot_ok(
                        self@.slots[k],
                    ) by {
                        if k != pane.0 {
                            assert(before.slots.dom().contains(k));
                        }
                    }
                    assert forall|k: u64, i: int|
                        #![trigger self@.covered[k][i]]
                        self@.covered.dom().contains(k) && 0 <= i
                            < self@.covered[k].len() implies slot_ok(self@.covered[k][i]) by {
                        if k != pane.0 {
                            assert(before.covered[k][i] == self@.covered[k][i]);
                        } else {
                            assert(self@.covered[k][i] == all[i]);
                        }
                    }
                }
                true
            },
            None => false,
        }
    }

    /// Take all pages over `pane` away, and what they had asked: the pages, the one in
    /// view last.
    pub fn remove(&mut self, pane: PaneId) -> (r: Vec<PageSlot>)
        requires
            old(self).wf(),
        ensures
            final(self).wf(),
            final(self)@ == old(self)@.without(pane),
            slot_views(r@) == old(self)@.over(pane),
    {
        let ghost before = self@;
        let mut taken = match self.covered.remove(&pane.0) {
            Some(stack) => stack,
            None => Vec::new(),
        };
        let ghost kept = taken@;
        assert(slot_views(kept) =~= before.below(pane));
        assert(self@.covered =~= before.covered.remove(pane.0));
        match self.slots.remove(&pane.0) {
            Some(slot) => {
                let ghost top = slot@;
                taken.push(slot);
                assert(slot_views(taken@) =~= slot_views(kept).push(top));
            },
            None => {},
        }
        assert(self@.slots =~= before.slots.remove(pane.0));
        let cursor_gone = match &self.cursor {
            Some(cursor) => cursor.pane == pane,
            None => false,
        };
        if cursor_gone {
            self.cursor = None;
        }
        let pick_gone = match &self.pick {
            Some(pick) => pick.pane == pane,
            None => false,
        };
        if pick_gone {
            self.pick = None;
        }
        let prompt_gone = match &self.prompt {
            Some(prompt) => prompt.pane == pane,
            None => false,
        };
        if prompt_gone {
            self.prompt = None;
        }
        proof {
            assert forall|k: u64| #[trigger] self@.slots.dom().contains(k) implies slot_ok(
                self@.slots[k],
            ) by {
                assert(before.slots.dom().contains(k));
            }
            assert forall|k: u64, i: int|
                #![trigger self@.covered[k][i]]
                self@.covered.dom().contains(k) && 0 <= i < self@.covered[k].len() implies slot_ok(
                self@.covered[k][i],
            ) by {
                assert(before.covered[k][i] == self@.covered[k][i]);
            }
        }
        taken
    }

    /// Take the page over `pane` away, its question with it, and bring back the one it
    /// covered: the mode the pane was in, and whether a page is back.
    pub fn uncover(&mut self, pane: PaneId) -> (r: Option<(Mode, bool)>)
        requires
            old(self).wf(),
        ensures
            final(self).wf(),
            final(self)@ == old(self)@.uncovered(pane),
            r == (if old(self)@.covers(pane) {
                Some((old(self)@.slots[pane.0].prior_mode, old(self)@.below(pane).len() > 0))
            } else {
                None
            }),
    {
        let ghost before = self@;
        match self.slots.remove(&pane.0) {
            Some(slot) => {
                assert(self@.slots =~= before.slots.remove(pane.0));
                assert forall|k: u64| #[trigger] self@.slots.dom().contains(k) implies slot_ok(
                    self@.slots[k],
                ) by {
                    assert(before.slots.dom().contains(k));
                }
                let asked = match &self.prompt {
                    Some(prompt) => prompt.pane == pane,
                    None => false,
                };
                if asked {
                    self.prompt = None;
                }
                let ghost mid = self@;
                match self.covered.remove(&pane.0) {
                    Some(stack) => {
                        let mut stack = stack;
                        let ghost kept = stack@;
                        assert(slot_views(kept) =~= before.below(pane));
                        match stack.pop() {
                            Some(top) => {
                                let ghost back = top@;
                                assert(slot_views(stack@) =~= slot_views(kept).drop_last());
                                assert(back == before.below(pane).last());
                                assert(before.covered[pane.0][kept.len() - 1] == back);
                                let ghost left = stack@;
                                self.covered.insert(pane.0, stack);
                                self.slots.insert(pane.0, top);
                                proof {
                                    assert(self@.slots =~= mid.slots.insert(pane.0, back));
                                    assert(self@.covered =~= before.covered.insert(
                                        pane.0,
                                        slot_views(left),
                                    ));
                                    self.lemma_restored(before, pane);
                                }
                                Some((slot.prior_mode, true))
                            },
                            None => {
                                let ghost left = stack@;
                                self.covered.insert(pane.0, stack);
                                proof {
                                    assert(slot_views(left) =~= before.below(pane));
                                    assert(self@.covered =~= before.covered);
                                }
                                Some((slot.prior_mode, false))
                            },
                        }
                    },
                    None => {
                        assert(self@.covered =~= before.covered);
                        Some((slot.prior_mode, false))
                    },
                }
            },
            None => {
                assert(self@.slots =~= before.slots);
                None
            },
        }
    }

    proof fn lemma_restored(self, before: PagesView, pane: PaneId)
        requires
            before.wf(),
            before.covers(pane),
            before.below(pane).len() > 0,
            self@.slots == before.slots.remove(pane.0).insert(pane.0, before.below(pane).last()),
            self@.covered == before.covered.insert(pane.0, before.below(pane).drop_last()),
        ensures
            self@.wf(),
    {
        let stack = before.below(pane);
        assert(before.covered.dom().contains(pane.0));
        assert(slot_ok(before.covered[pane.0][stack.len() - 1]));
        assert forall|k: u64| #[trigger] self@.slots.dom().contains(k) implies slot_ok(
            self@.slots[k],
        ) by {
            if k != pane.0 {
                assert(before.slots.dom().contains(k));
            }
        }
        assert forall|k: u64, i: int|
            #![trigger self@.covered[k][i]]
            self@.covered.dom().contains(k) && 0 <= i < self@.covered[k].len() implies slot_ok(
            self@.covered[k][i],
        ) by {
            assert(self@.covered[k][i] == before.covered[k][i]);
        }
    }
}

/// A page put over another and closed again leaves the pages as they were, the numbers
/// given out aside: the one that was in view is in view.
pub proof fn law_closing_a_stacked_page_uncovers_the_one_below(
    pages: PagesView,
    pane: PaneId,
    tool: Seq<char>,
    cwd: Option<Seq<char>>,
    prior: Mode,
)
    requires
        pages.covers(pane),
        pages.prompt matches Some(prompt) ==> prompt.pane != pane,
    ensures
        pages.put_below(pane).shown(pane, tool, cwd, prior).uncovered(pane).slots == pages.slots,
        pages.put_below(pane).shown(pane, tool, cwd, prior).uncovered(pane).below(pane) == pages.below(
            pane,
        ),
        pages.put_below(pane).shown(pane, tool, cwd, prior).uncovered(pane).prompt == pages.prompt,
{
    let open = pages.put_below(pane).shown(pane, tool, cwd, prior);
    let back = open.uncovered(pane);
    assert(open.below(pane) =~= pages.below(pane).push(pages.slots[pane.0]));
    assert(back.slots =~= pages.slots);
    assert(back.below(pane) =~= pages.below(pane));
}

/// A page that closes takes its question with it.
pub proof fn law_a_question_goes_with_its_page(pages: PagesView, pane: PaneId)
    requires
        pages.covers(pane),
    ensures
        pages.uncovered(pane).prompt matches Some(prompt) ==> prompt.pane != pane,
{
}

// ------------------------------------------------------------------------
// How pages are named
// ------------------------------------------------------------------------

/// The glyph of a tool.
pub open spec fn tool_icon(tool: Seq<char>) -> Option<Seq<char>> {
    if tool == "dir"@ {
        Some("\u{f07b}"@)
    } else if tool == "editor"@ {
        Some("\u{f044}"@)
    } else if tool == "git"@ {
        Some("\u{f1d3}"@)
    } else if tool == "grep"@ {
        Some("\u{f002}"@)
    } else if tool == "keys"@ {
        Some("\u{f11c}"@)
    } else if tool == "pdf"@ {
        Some("\u{f1c1}"@)
    } else {
        None
    }
}

fn icon_of(tool: &str) -> (r: Option<&'static str>)
    ensures
        match r {
            Some(icon) => tool_icon(tool@) == Some(icon@),
            None => tool_icon(tool@) is None,
        },
{
    if same_text(tool, "dir") {
        Some("\u{f07b}")
    } else if same_text(tool, "editor") {
        Some("\u{f044}")
    } else if same_text(tool, "git") {
        Some("\u{f1d3}")
    } else if same_text(tool, "grep") {
        Some("\u{f002}")
    } else if same_text(tool, "keys") {
        Some("\u{f11c}")
    } else if same_text(tool, "pdf") {
        Some("\u{f1c1}")
    } else {
        None
    }
}

/// How the status bar names a page: the glyph of its tool, when it has one, and its
/// title.
pub open spec fn page_status(tool: Seq<char>, title: Seq<char>) -> Seq<char> {
    match tool_icon(tool) {
        Some(icon) => icon + " "@ + title,
        None => title,
    }
}

/// How the tab bar names a page: its tool and its title, or the title alone where that
/// only says the tool's name again.
pub open spec fn page_tab(tool: Seq<char>, title: Seq<char>) -> Seq<char> {
    if same_but_case(title, tool) {
        title
    } else {
        tool + ": "@ + title
    }
}

/// Whether two texts are the same but for the case of ASCII letters.
pub open spec fn same_but_case(a: Seq<char>, b: Seq<char>) -> bool {
    a.len() == b.len() && forall|i: int|
        0 <= i < a.len() ==> ascii_lowered(#[trigger] a[i]) == ascii_lowered(b[i])
}

fn lower_letter(c: char) -> (r: char)
    ensures
        r == ascii_lowered(c),
{
    if 'A' <= c && c <= 'Z' {
        (c as u8 + 32) as char
    } else {
        c
    }
}

fn is_same_but_case(a: &str, b: &str) -> (r: bool)
    ensures
        r == same_but_case(a@, b@),
{
    let x = chars_of(a);
    let y = chars_of(b);
    if x.len() != y.len() {
        return false;
    }
    let mut i: usize = 0;
    while i < x.len()
        invariant
            x@ == a@,
            y@ == b@,
            x@.len() == y@.len(),
            i <= x@.len(),
            forall|j: int| 0 <= j < i ==> ascii_lowered(#[trigger] x@[j]) == ascii_lowered(y@[j]),
        decreases x@.len() - i,
    {
        if lower_letter(x[i]) != lower_letter(y[i]) {
            assert(ascii_lowered(a@[i as int]) != ascii_lowered(b@[i as int]));
            return false;
        }
        i = i + 1;
    }
    true
}

impl PageSlot {
    /// How the status bar names the page that is titled `title`.
    pub fn status_label(&self, title: &str) -> (r: String)
        ensures
            r@ == page_status(self@.tool, title@),
    {
        let mut label: Vec<char> = Vec::new();
        if let Some(icon) = icon_of(self.tool.as_str()) {
            append_str(&mut label, icon);
            append_str(&mut label, " ");
        }
        append_str(&mut label, title);
        assert(label@ =~= page_status(self@.tool, title@));
        string_of(&label)
    }

    /// How the tab bar names the pane under the page that is titled `title`.
    pub fn tab_label(&self, title: &str) -> (r: String)
        ensures
            r@ == page_tab(self@.tool, title@),
    {
        if is_same_but_case(title, self.tool.as_str()) {
            title.to_owned()
        } else {
            let mut label: Vec<char> = Vec::new();
            append_str(&mut label, self.tool.as_str());
            append_str(&mut label, ": ");
            append_str(&mut label, title);
            assert(label@ =~= page_tab(self@.tool, title@));
            string_of(&label)
        }
    }
}

// ------------------------------------------------------------------------
// Questions
// ------------------------------------------------------------------------

/// How a question that takes one key is answered.
pub const HINT_CONFIRM: &'static str = "y to confirm, any other key to cancel";

/// How a question that takes a line is answered.
pub const HINT_TEXT: &'static str = "Enter to accept, Esc to cancel";

/// What a question shows: what is asked, the line to type on where there is one, and how
/// to answer.
#[derive(Debug)]
pub struct InputView {
    pub hint: String,
    pub input: Option<String>,
    pub label: String,
}

/// Where the colons that the first `n` characters of `text` end with begin.
pub open spec fn colon_stop(text: Seq<char>, n: int) -> int
    decreases n,
{
    if 0 < n <= text.len() && text[n - 1] == ':' {
        colon_stop(text, n - 1)
    } else {
        n
    }
}

proof fn lemma_stops(text: Seq<char>, n: int)
    requires
        0 <= n <= text.len(),
    ensures
        0 <= colon_stop(text, n) <= n,
        0 <= text_stop(text, n) <= n,
    decreases n,
{
    if n > 0 {
        lemma_stops(text, n - 1);
    }
}

/// A label without the white space at its end, and without the colons before that.
pub open spec fn bare_label(label: Seq<char>) -> Seq<char> {
    label.take(colon_stop(label, text_stop(label, label.len() as int)))
}

/// What a question shows.
pub fn input_dialog(label: &str, input: &str, mode: PromptMode) -> (r: InputView)
    ensures
        r.label@ == bare_label(label@),
        mode == PromptMode::Confirm ==> r.hint@ == HINT_CONFIRM@ && r.input is None,
        mode == PromptMode::Text ==> r.hint@ == HINT_TEXT@ && r.input is Some && r.input->0@
            == input@,
{
    let chars = chars_of(label);
    let mut n: usize = chars.len();
    while n > 0 && chars[n - 1].is_whitespace()
        invariant
            n <= chars@.len(),
            text_stop(chars@, n as int) == text_stop(chars@, chars@.len() as int),
        decreases n,
    {
        n = n - 1;
    }
    let ghost end = n as int;
    while n > 0 && chars[n - 1] == ':'
        invariant
            n <= chars@.len(),
            colon_stop(chars@, n as int) == colon_stop(chars@, end),
        decreases n,
    {
        n = n - 1;
    }
    let label = string_of_range(&chars, 0, n);
    assert(chars@.subrange(0, n as int) =~= chars@.take(n as int));
    match mode {
        PromptMode::Confirm => InputView { hint: HINT_CONFIRM.to_owned(), input: None, label },
        PromptMode::Text => InputView {
            hint: HINT_TEXT.to_owned(),
            input: Some(input.to_owned()),
            label,
        },
    }
}

/// What a key does to a question.
pub enum PromptStep {
    /// It is answered, or put off.
    Answered(Option<Seq<char>>),
    /// It waits, with this typed.
    Waiting(Seq<char>),
}

/// The text of one character.
pub open spec fn one_char(c: char) -> Seq<char> {
    seq![c]
}

/// A text with one character more.
pub open spec fn one_more(text: Seq<char>, c: char) -> Seq<char> {
    text.push(c)
}

/// What a key does to a question. One that takes one key is answered by `y` and put off
/// by any other. One that takes a line is typed, answered by Enter, and put off by Escape.
pub open spec fn prompt_step(prompt: PromptView, key: Key) -> PromptStep {
    match prompt.mode {
        PromptMode::Confirm => match key.code {
            KeyCode::Char(c) => if c == 'y' || c == 'Y' {
                PromptStep::Answered(Some(one_char(c)))
            } else {
                PromptStep::Answered(None)
            },
            _ => PromptStep::Answered(None),
        },
        PromptMode::Text => match key.code {
            KeyCode::Escape => PromptStep::Answered(None),
            KeyCode::Enter => PromptStep::Answered(Some(prompt.input)),
            KeyCode::Backspace => if prompt.input.len() == 0 {
                PromptStep::Waiting(prompt.input)
            } else {
                PromptStep::Waiting(prompt.input.drop_last())
            },
            KeyCode::Char(c) => if !key.ctrl && !key.alt {
                PromptStep::Waiting(one_more(prompt.input, c))
            } else {
                PromptStep::Waiting(prompt.input)
            },
            _ => PromptStep::Waiting(prompt.input),
        },
    }
}

/// A question that takes one key is over with the first key it sees.
pub proof fn law_one_key_ends_a_question(prompt: PromptView, key: Key)
    requires
        prompt.mode == PromptMode::Confirm,
    ensures
        prompt_step(prompt, key) is Answered,
        prompt_step(prompt, key)->Answered_0 is Some <==> key.code == KeyCode::Char('y') || key.code
            == KeyCode::Char('Y'),
{
}

/// Whether `view` is what a question shows: what is asked, how to answer, and what has been
/// typed where it takes a line.
pub open spec fn dialog_of(prompt: PromptView, view: InputView) -> bool {
    &&& view.label@ == bare_label(prompt.label)
    &&& prompt.mode == PromptMode::Confirm ==> view.hint@ == HINT_CONFIRM@ && view.input is None
    &&& prompt.mode == PromptMode::Text ==> view.hint@ == HINT_TEXT@ && view.input is Some
        && view.input->0@ == prompt.input
}

fn char_text(c: char) -> (r: String)
    ensures
        r@ == one_char(c),
{
    let mut s = String::new();
    s.push(c);
    assert(s@ =~= one_char(c));
    s
}

fn type_char(v: &mut Vec<char>, c: char)
    ensures
        final(v)@ == one_more(old(v)@, c),
{
    v.push(c);
}

impl ActivePrompt {
    /// Give the question a key: its answer, when the key ends it.
    pub fn step(&mut self, key: &Key) -> (r: Option<Option<String>>)
        ensures
            match prompt_step(old(self)@, *key) {
                PromptStep::Answered(answer) => r is Some
                    && string_view(r->0) == answer && final(self)@
                    == old(self)@,
                PromptStep::Waiting(input) => r is None && final(self)@ == (PromptView {
                    input,
                    ..old(self)@
                }),
            },
    {
        match self.request.mode {
            PromptMode::Confirm => match key.code {
                KeyCode::Char(c) => if c == 'y' || c == 'Y' {
                    Some(Some(char_text(c)))
                } else {
                    Some(None)
                },
                _ => Some(None),
            },
            PromptMode::Text => match key.code {
                KeyCode::Escape => Some(None),
                KeyCode::Enter => Some(Some(string_of(&self.input))),
                KeyCode::Backspace => {
                    if self.input.len() > 0 {
                        self.input.pop();
                        assert(self.input@ =~= old(self)@.input.drop_last());
                    }
                    None
                },
                KeyCode::Char(c) => {
                    if !key.ctrl && !key.alt {
                        type_char(&mut self.input, c);
                    }
                    None
                },
                _ => None,
            },
        }
    }

    /// What the question shows.
    pub fn dialog(&self) -> (r: InputView)
        ensures
            dialog_of(self@, r),
    {
        let input = string_of(&self.input);
        input_dialog(self.request.label.as_str(), input.as_str(), self.request.mode)
    }
}

// ------------------------------------------------------------------------
// The text cursor
// ------------------------------------------------------------------------

/// Whether a cell of the screen shows white space.
pub open spec fn white_cell(cell: Cell) -> bool {
    is_white(cell.ch)
}

/// Whether the screen shows white space at a place, or nothing.
pub open spec fn white_at(grid: Grid, row: int, col: int) -> bool {
    !(row < grid.height() && 0 <= col < grid.width()) || white_cell(
        grid.cell_at(grid.history() + row, col),
    )
}

fn is_white_at(grid: &Grid, row: usize, col: usize) -> (r: bool)
    requires
        grid.wf(),
    ensures
        r == white_at(*grid, row as int, col as int),
{
    match grid.cell(row, col) {
        Some(cell) => cell.ch.is_whitespace(),
        None => true,
    }
}

/// The first column from `col` on that shows something, or the width.
pub open spec fn next_printed(grid: Grid, row: int, col: int) -> int
    decreases grid.width() - col,
{
    if col < grid.width() && white_at(grid, row, col) {
        next_printed(grid, row, col + 1)
    } else {
        col
    }
}

/// The first column of `row` that shows something, or zero where the row is blank.
pub open spec fn first_printed(grid: Grid, row: int) -> int {
    if next_printed(grid, row, 0) < grid.width() {
        next_printed(grid, row, 0)
    } else {
        0
    }
}

/// The first column of `row` that shows something, or zero where the row is blank.
pub fn first_non_blank(grid: &Grid, row: usize) -> (r: usize)
    requires
        grid.wf(),
    ensures
        r == first_printed(*grid, row as int),
{
    let width: usize = grid.cols();
    let mut col: usize = 0;
    while col < width
        invariant
            grid.wf(),
            width == grid.width(),
            col <= width,
            next_printed(*grid, row as int, col as int) == next_printed(*grid, row as int, 0),
        decreases width - col,
    {
        if !is_white_at(grid, row, col) {
            return col;
        }
        col = col + 1;
    }
    0
}

/// The first column from `col` on, no further than `last`, that is as white as `white`
/// says.
pub open spec fn run_stop(grid: Grid, row: int, col: int, last: int, white: bool) -> int
    decreases last - col,
{
    if col < last && white_at(grid, row, col) != white {
        run_stop(grid, row, col + 1, last, white)
    } else {
        col
    }
}

/// The first column from `col` back whose neighbour to the left is as white as `white`
/// says, or the first of all.
pub open spec fn run_start(grid: Grid, row: int, col: int, white: bool) -> int
    decreases col,
{
    if col > 0 && white_at(grid, row, col - 1) != white {
        run_start(grid, row, col - 1, white)
    } else {
        col
    }
}

/// The column a word away: past this word and the blanks after it, or back to the start
/// of this word or the one before.
pub open spec fn word_away(grid: Grid, row: int, col: int, last: int, forward: bool) -> int {
    if forward {
        run_stop(grid, row, run_stop(grid, row, col, last, true), last, false)
    } else {
        run_start(grid, row, run_start(grid, row, col, false), true)
    }
}

/// The column a word away from `col` on `row`.
pub fn next_word(grid: &Grid, row: usize, col: usize, last_col: usize, forward: bool) -> (r: usize)
    requires
        grid.wf(),
    ensures
        r == word_away(*grid, row as int, col as int, last_col as int, forward),
{
    let mut at: usize = col;
    if forward {
        while at < last_col && !is_white_at(grid, row, at)
            invariant
                grid.wf(),
                run_stop(*grid, row as int, at as int, last_col as int, true) == run_stop(
                    *grid,
                    row as int,
                    col as int,
                    last_col as int,
                    true,
                ),
            decreases last_col - at,
        {
            at = at + 1;
        }
        let ghost mid = at as int;
        while at < last_col && is_white_at(grid, row, at)
            invariant
                grid.wf(),
                run_stop(*grid, row as int, at as int, last_col as int, false) == run_stop(
                    *grid,
                    row as int,
                    mid,
                    last_col as int,
                    false,
                ),
            decreases last_col - at,
        {
            at = at + 1;
        }
    } else {
        while at > 0 && is_white_at(grid, row, at - 1)
            invariant
                grid.wf(),
                run_start(*grid, row as int, at as int, false) == run_start(
                    *grid,
                    row as int,
                    col as int,
                    false,
                ),
            decreases at,
        {
            at = at - 1;
        }
        let ghost mid = at as int;
        while at > 0 && !is_white_at(grid, row, at - 1)
            invariant
                grid.wf(),
                run_start(*grid, row as int, at as int, true) == run_start(
                    *grid,
                    row as int,
                    mid,
                    true,
                ),
            decreases at,
        {
            at = at - 1;
        }
    }
    at
}

/// What a key does to a text cursor.
#[derive(Clone, Copy, Debug)]
pub enum CursorStep {
    /// Copy what is selected, and be done.
    Copied,
    /// Leave, with what is selected.
    Left,
    Moved(PageCursor),
    /// Nothing, but the page does not get the key either.
    Swallowed,
}

/// Where a selection starts when its key is pressed: here, or nowhere when it was being
/// made already.
pub open spec fn toggled_anchor(cursor: PageCursor, linewise: bool) -> Option<(usize, usize)> {
    if cursor.anchor is Some && cursor.linewise == linewise {
        None
    } else {
        Some((cursor.row, cursor.col))
    }
}

/// What a key with nothing held does to a text cursor over `grid`.
pub open spec fn cursor_step(cursor: PageCursor, code: KeyCode, grid: Grid) -> CursorStep {
    let last_row = grid.height() - 1;
    let last_col = grid.width() - 1;
    match code {
        KeyCode::Escape => CursorStep::Left,
        KeyCode::Enter => CursorStep::Copied,
        KeyCode::Left => CursorStep::Moved(
            PageCursor { col: minus(cursor.col as int, 1) as usize, ..cursor },
        ),
        KeyCode::Right => CursorStep::Moved(
            PageCursor { col: least(cursor.col + 1, last_col) as usize, ..cursor },
        ),
        KeyCode::Down => CursorStep::Moved(
            PageCursor { row: least(cursor.row + 1, last_row) as usize, ..cursor },
        ),
        KeyCode::Up => CursorStep::Moved(
            PageCursor { row: minus(cursor.row as int, 1) as usize, ..cursor },
        ),
        KeyCode::Home => CursorStep::Moved(PageCursor { col: 0, ..cursor }),
        KeyCode::End => CursorStep::Moved(PageCursor { col: last_col as usize, ..cursor }),
        KeyCode::Char(c) => if c == 'y' {
            CursorStep::Copied
        } else if c == 'v' {
            CursorStep::Moved(
                PageCursor { anchor: toggled_anchor(cursor, false), linewise: false, ..cursor },
            )
        } else if c == 'V' {
            CursorStep::Moved(
                PageCursor { anchor: toggled_anchor(cursor, true), linewise: true, ..cursor },
            )
        } else if c == 'h' {
            CursorStep::Moved(PageCursor { col: minus(cursor.col as int, 1) as usize, ..cursor })
        } else if c == 'l' {
            CursorStep::Moved(
                PageCursor { col: least(cursor.col + 1, last_col) as usize, ..cursor },
            )
        } else if c == 'j' {
            CursorStep::Moved(
                PageCursor { row: least(cursor.row + 1, last_row) as usize, ..cursor },
            )
        } else if c == 'k' {
            CursorStep::Moved(PageCursor { row: minus(cursor.row as int, 1) as usize, ..cursor })
        } else if c == '0' {
            CursorStep::Moved(PageCursor { col: 0, ..cursor })
        } else if c == '$' {
            CursorStep::Moved(PageCursor { col: last_col as usize, ..cursor })
        } else if c == 'g' {
            CursorStep::Moved(PageCursor { row: 0, ..cursor })
        } else if c == 'G' {
            CursorStep::Moved(PageCursor { row: last_row as usize, ..cursor })
        } else if c == 'w' {
            CursorStep::Moved(
                PageCursor {
                    col: word_away(grid, cursor.row as int, cursor.col as int, last_col, true) as usize,
                    ..cursor
                },
            )
        } else if c == 'b' {
            CursorStep::Moved(
                PageCursor {
                    col: word_away(grid, cursor.row as int, cursor.col as int, last_col, false) as usize,
                    ..cursor
                },
            )
        } else {
            CursorStep::Swallowed
        },
        _ => CursorStep::Swallowed,
    }
}

fn one_back(n: usize) -> (r: usize)
    ensures
        r == minus(n as int, 1),
{
    if n > 0 {
        n - 1
    } else {
        0
    }
}

fn one_on(n: usize, last: usize) -> (r: usize)
    ensures
        r == least(n + 1, last as int),
{
    if n < last {
        n + 1
    } else {
        last
    }
}

impl PageCursor {
    fn toggled(&self, linewise: bool) -> (r: PageCursor)
        ensures
            r == (PageCursor { anchor: toggled_anchor(*self, linewise), linewise, ..*self }),
    {
        let anchor = if self.anchor.is_some() && self.linewise == linewise {
            None
        } else {
            Some((self.row, self.col))
        };
        PageCursor { anchor, linewise, col: self.col, pane: self.pane, row: self.row }
    }

    fn at(&self, row: usize, col: usize) -> (r: PageCursor)
        ensures
            r == (PageCursor { row, col, ..*self }),
    {
        PageCursor { anchor: self.anchor, col, linewise: self.linewise, pane: self.pane, row }
    }

    fn char_step(&self, c: char, grid: &Grid) -> (r: CursorStep)
        requires
            grid.wf(),
        ensures
            r == cursor_step(*self, KeyCode::Char(c), *grid),
    {
        let last_row: usize = grid.rows() - 1;
        let last_col: usize = grid.cols() - 1;
        if c == 'y' {
            CursorStep::Copied
        } else if c == 'v' {
            CursorStep::Moved(self.toggled(false))
        } else if c == 'V' {
            CursorStep::Moved(self.toggled(true))
        } else if c == 'h' {
            CursorStep::Moved(self.at(self.row, one_back(self.col)))
        } else if c == 'l' {
            CursorStep::Moved(self.at(self.row, one_on(self.col, last_col)))
        } else if c == 'j' {
            CursorStep::Moved(self.at(one_on(self.row, last_row), self.col))
        } else if c == 'k' {
            CursorStep::Moved(self.at(one_back(self.row), self.col))
        } else if c == '0' {
            CursorStep::Moved(self.at(self.row, 0))
        } else if c == '$' {
            CursorStep::Moved(self.at(self.row, last_col))
        } else if c == 'g' {
            CursorStep::Moved(self.at(0, self.col))
        } else if c == 'G' {
            CursorStep::Moved(self.at(last_row, self.col))
        } else if c == 'w' {
            CursorStep::Moved(
                self.at(self.row, next_word(grid, self.row, self.col, last_col, true)),
            )
        } else if c == 'b' {
            CursorStep::Moved(
                self.at(self.row, next_word(grid, self.row, self.col, last_col, false)),
            )
        } else {
            CursorStep::Swallowed
        }
    }

    /// What a key with nothing held does to the cursor over `grid`.
    pub fn step(&self, code: KeyCode, grid: &Grid) -> (r: CursorStep)
        requires
            grid.wf(),
        ensures
            r == cursor_step(*self, code, *grid),
    {
        let last_row: usize = grid.rows() - 1;
        let last_col: usize = grid.cols() - 1;
        match code {
            KeyCode::Escape => CursorStep::Left,
            KeyCode::Enter => CursorStep::Copied,
            KeyCode::Left => CursorStep::Moved(self.at(self.row, one_back(self.col))),
            KeyCode::Right => CursorStep::Moved(self.at(self.row, one_on(self.col, last_col))),
            KeyCode::Down => CursorStep::Moved(self.at(one_on(self.row, last_row), self.col)),
            KeyCode::Up => CursorStep::Moved(self.at(one_back(self.row), self.col)),
            KeyCode::Home => CursorStep::Moved(self.at(self.row, 0)),
            KeyCode::End => CursorStep::Moved(self.at(self.row, last_col)),
            KeyCode::Char(c) => self.char_step(c, grid),
            _ => CursorStep::Swallowed,
        }
    }
}

/// What a text cursor selects: from where it was started to where the cursor is, and
/// nothing where it was not started. One that takes whole lines takes those of both ends
/// and all between, from the first column of the upper one to the last of the lower.
pub open spec fn cursor_selection(cursor: PageCursor, last_col: usize) -> Option<Selection> {
    match cursor.anchor {
        Some((row, col)) => Some(
            if cursor.linewise {
                Selection {
                    block: false,
                    end_col: last_col,
                    end_row: greatest(row as int, cursor.row as int) as usize,
                    pane: cursor.pane,
                    start_col: 0,
                    start_row: least(row as int, cursor.row as int) as usize,
                }
            } else {
                Selection {
                    block: false,
                    end_col: cursor.col,
                    end_row: cursor.row,
                    pane: cursor.pane,
                    start_col: col,
                    start_row: row,
                }
            },
        ),
        None => None,
    }
}

/// What a text cursor selects.
pub fn selection_of(cursor: &PageCursor, last_col: usize) -> (r: Option<Selection>)
    ensures
        r == cursor_selection(*cursor, last_col),
{
    match cursor.anchor {
        Some((row, col)) => Some(
            if cursor.linewise {
                Selection {
                    block: false,
                    end_col: last_col,
                    end_row: max_of(row, cursor.row),
                    pane: cursor.pane,
                    start_col: 0,
                    start_row: min_of(row, cursor.row),
                }
            } else {
                Selection {
                    block: false,
                    end_col: cursor.col,
                    end_row: cursor.row,
                    pane: cursor.pane,
                    start_col: col,
                    start_row: row,
                }
            },
        ),
        None => None,
    }
}

/// A text cursor that takes whole lines takes all of each, whichever way it was moved.
pub proof fn law_lines_are_taken_whole(cursor: PageCursor, other: PageCursor, last_col: usize)
    requires
        cursor.linewise,
        other.linewise,
        cursor.pane == other.pane,
        cursor.anchor matches Some((row, _)) && other.row == row,
        other.anchor matches Some((row, _)) && cursor.row == row,
    ensures
        cursor_selection(cursor, last_col) == cursor_selection(other, last_col),
        cursor_selection(cursor, last_col) matches Some(sel) && {
            &&& sel.start_row <= sel.end_row
            &&& sel.start_col == 0
            &&& sel.end_col == last_col
            &&& !sel.block
        },
{
}

/// A second press of the key that started a selection ends it.
pub proof fn law_a_second_press_drops_the_selection(cursor: PageCursor, grid: Grid, last_col: usize)
    requires
        cursor.anchor is Some,
        !cursor.linewise,
    ensures
        cursor_step(cursor, KeyCode::Char('v'), grid) matches CursorStep::Moved(next)
            && cursor_selection(next, last_col) is None,
{
}

} // verus!
