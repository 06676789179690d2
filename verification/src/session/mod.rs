//! A pane as the user works in it, with what all panes share: modes, the Normal-mode
//! cursor, Visual selections, searches and edits of the prompt line.

pub mod actions;
pub mod edits;
pub mod find;
pub mod motion;
pub mod moves;
pub mod prompt;
pub mod search;
pub mod visual;

use std::collections::{HashMap, HashSet};
use vstd::prelude::*;
use crate::grid::Grid;
use crate::input::{Action, FindChar, Mode, PaneId, PendingPrefix};
use crate::navigation::lists::{ChangeList, JumpList, ListView};
use crate::navigation::quick_select::CellLabel;
use crate::navigation::search::{string_view, MatchPos, SearchState};
use crate::pointer::SelectionState;
use crate::prompt_edit::{PromptShadow, ShadowView};
use crate::requests::{Request, RequestView};
use crate::text::append_bytes;

verus! {

broadcast use {
    Grid::lemma_bounds,
    Grid::lemma_scrolled,
    vstd::std_specs::hash::group_hash_axioms,
};

// ------------------------------------------------------------------------
// A live pane
// ------------------------------------------------------------------------

/// A command and what it printed.
#[derive(Debug)]
pub struct Block {
    pub command: String,
    /// Where the command ran.
    pub cwd: Option<String>,
    pub svg: Option<String>,
    pub text: String,
}

/// A block by its texts.
pub struct BlockView {
    pub command: Seq<char>,
    pub cwd: Option<Seq<char>>,
    pub svg: Option<Seq<char>>,
    pub text: Seq<char>,
}

impl View for Block {
    type V = BlockView;

    open spec fn view(&self) -> BlockView {
        BlockView {
            command: self.command@,
            cwd: string_view(self.cwd),
            svg: string_view(self.svg),
            text: self.text@,
        }
    }
}

/// Blocks by their views.
pub open spec fn block_views(blocks: Seq<Block>) -> Seq<BlockView> {
    Seq::new(blocks.len(), |i: int| blocks[i]@)
}

/// A pane with a program running in it: what it shows, what the program has asked
/// for, and what is to be sent to it.
pub struct Pane {
    /// Whether the shell waits at its prompt.
    pub at_prompt: bool,
    /// Whether pastes are to be marked.
    pub bracketed_paste: bool,
    pub blocks: Vec<Block>,
    pub cwd: Option<String>,
    /// Whether focus changes are to be reported.
    pub focus_events: bool,
    pub grid: Grid,
    /// Whether mouse reports are to be extended ones.
    pub mouse_sgr: bool,
    /// The multiplexer session the pane is attached to.
    pub mux_session: Option<String>,
    /// The row each block starts on.
    pub offsets: Vec<usize>,
    /// What is to be sent to the program.
    pub outbox: Vec<u8>,
}

/// What a pane holds.
pub struct PaneView {
    pub at_prompt: bool,
    pub bracketed_paste: bool,
    pub blocks: Seq<BlockView>,
    pub cwd: Option<Seq<char>>,
    pub focus_events: bool,
    pub grid: Grid,
    pub mouse_sgr: bool,
    pub mux_session: Option<Seq<char>>,
    pub offsets: Seq<usize>,
    pub outbox: Seq<u8>,
}

impl View for Pane {
    type V = PaneView;

    open spec fn view(&self) -> PaneView {
        PaneView {
            at_prompt: self.at_prompt,
            bracketed_paste: self.bracketed_paste,
            blocks: block_views(self.blocks@),
            cwd: string_view(self.cwd),
            focus_events: self.focus_events,
            grid: self.grid,
            mouse_sgr: self.mouse_sgr,
            mux_session: string_view(self.mux_session),
            offsets: self.offsets@,
            outbox: self.outbox@,
        }
    }
}

impl Pane {
    /// A pane that shows `grid`, with nothing asked for and nothing to be sent.
    pub fn new(grid: Grid) -> (r: Pane)
        ensures
            r@ == (PaneView {
                at_prompt: false,
                bracketed_paste: false,
                blocks: Seq::empty(),
                cwd: None,
                focus_events: false,
                grid,
                mouse_sgr: false,
                mux_session: None,
                offsets: Seq::empty(),
                outbox: Seq::empty(),
            }),
    {
        let r = Pane {
            at_prompt: false,
            bracketed_paste: false,
            blocks: Vec::new(),
            cwd: None,
            focus_events: false,
            grid,
            mouse_sgr: false,
            mux_session: None,
            offsets: Vec::new(),
            outbox: Vec::new(),
        };
        assert(block_views(r.blocks@) =~= Seq::empty());
        r
    }

    /// Send `bytes` to the program.
    pub fn write(&mut self, bytes: &[u8])
        ensures
            final(self)@ == (PaneView { outbox: old(self)@.outbox + bytes@, ..old(self)@ }),
    {
        append_bytes(&mut self.outbox, bytes);
    }
}

// ------------------------------------------------------------------------
// What a pane remembers
// ------------------------------------------------------------------------

/// The last change of the prompt line, to be repeated: an action, or what was typed
/// on a visit to Insert mode.
#[derive(Debug, PartialEq, Eq)]
pub enum LastChange {
    Action(Action),
    Typed(Vec<u8>),
}

/// The last change by its contents.
pub enum ChangeView {
    Action(Action),
    Typed(Seq<u8>),
}

impl View for LastChange {
    type V = ChangeView;

    open spec fn view(&self) -> ChangeView {
        match *self {
            LastChange::Action(action) => ChangeView::Action(action),
            LastChange::Typed(run) => ChangeView::Typed(run@),
        }
    }
}

/// A visit to Insert mode: where it began, if an action began it, and what has been
/// sent to the shell since.
#[derive(Debug)]
pub struct InsertSession {
    pub anchor: Option<(usize, usize)>,
    pub run: Vec<u8>,
}

/// A visit to Insert mode by its contents.
pub struct InsertView {
    pub anchor: Option<(usize, usize)>,
    pub run: Seq<u8>,
}

impl View for InsertSession {
    type V = InsertView;

    open spec fn view(&self) -> InsertView {
        InsertView { anchor: self.anchor, run: self.run@ }
    }
}

/// What a pane remembers beside what it shows. A pane remembers things before its
/// program starts.
pub struct PaneState {
    pub change_list: ChangeList,
    /// Which blocks are folded.
    pub folded: HashSet<usize>,
    pub insert_session: Option<InsertSession>,
    pub jump_list: JumpList,
    pub last_change: Option<LastChange>,
    /// The named marks: the absolute row and the column of each letter.
    pub marks: HashMap<u32, (usize, usize)>,
    pub mode: Option<Mode>,
    /// The Normal-mode cursor, by its row and column in the view. Only Normal and
    /// Visual mode have one.
    pub nav_cursor: Option<(usize, usize)>,
    pub pane: Option<Pane>,
    /// Whether the last key sent in Insert mode was a Tab, so that the shell may be
    /// amid a completion.
    pub pending_tab_completion: bool,
    pub shadow: Option<PromptShadow>,
}

/// What a pane remembers.
pub struct StateView {
    pub change_list: ListView,
    pub folded: Set<usize>,
    pub insert_session: Option<InsertView>,
    pub jump_list: ListView,
    pub last_change: Option<ChangeView>,
    pub marks: Map<u32, (usize, usize)>,
    pub mode: Option<Mode>,
    pub nav_cursor: Option<(usize, usize)>,
    pub pane: Option<PaneView>,
    pub pending_tab_completion: bool,
    pub shadow: Option<ShadowView>,
}

pub open spec fn pane_view(pane: Option<Pane>) -> Option<PaneView> {
    match pane {
        Some(pane) => Some(pane@),
        None => None,
    }
}

pub open spec fn shadow_view(shadow: Option<PromptShadow>) -> Option<ShadowView> {
    match shadow {
        Some(shadow) => Some(shadow@),
        None => None,
    }
}

pub open spec fn change_view(change: Option<LastChange>) -> Option<ChangeView> {
    match change {
        Some(change) => Some(change@),
        None => None,
    }
}

pub open spec fn insert_view(session: Option<InsertSession>) -> Option<InsertView> {
    match session {
        Some(session) => Some(session@),
        None => None,
    }
}

impl View for PaneState {
    type V = StateView;

    open spec fn view(&self) -> StateView {
        StateView {
            change_list: self.change_list@,
            folded: self.folded@,
            insert_session: insert_view(self.insert_session),
            jump_list: self.jump_list@,
            last_change: change_view(self.last_change),
            marks: self.marks@,
            mode: self.mode,
            nav_cursor: self.nav_cursor,
            pane: pane_view(self.pane),
            pending_tab_completion: self.pending_tab_completion,
            shadow: shadow_view(self.shadow),
        }
    }
}

impl StateView {
    /// The lists, the shadow and what is shown are each in order, and only a change
    /// is kept to be repeated.
    pub open spec fn wf(self) -> bool {
        &&& self.change_list.wf()
        &&& self.jump_list.wf()
        &&& self.pane matches Some(pane) ==> pane.grid.wf()
        &&& self.shadow matches Some(shadow) ==> shadow.wf()
        &&& self.last_change matches Some(ChangeView::Action(action)) ==> crate::input::is_change(
            action,
        )
    }

    /// A pane that has just been named.
    pub open spec fn fresh() -> StateView {
        StateView {
            change_list: ListView::empty(),
            folded: Set::empty(),
            insert_session: None,
            jump_list: ListView::empty(),
            last_change: None,
            marks: Map::empty(),
            mode: None,
            nav_cursor: None,
            pane: None,
            pending_tab_completion: false,
            shadow: None,
        }
    }
}

impl Default for PaneState {
    fn default() -> (r: Self)
        ensures
            r@ == StateView::fresh(),
            r@.wf(),
    {
        PaneState {
            change_list: ChangeList::default(),
            folded: HashSet::new(),
            insert_session: None,
            jump_list: JumpList::default(),
            last_change: None,
            marks: HashMap::new(),
            mode: None,
            nav_cursor: None,
            pane: None,
            pending_tab_completion: false,
            shadow: None,
        }
    }
}

// ------------------------------------------------------------------------
// What panes share
// ------------------------------------------------------------------------

/// Whether a notice reports a fault or confirms something.
#[derive(Clone, Copy, Debug, PartialEq, Eq, Structural)]
pub enum NoticeKind {
    Error,
    Info,
}

/// A message for the status bar, and when it was raised, in milliseconds.
#[derive(Debug)]
pub struct Notice {
    pub kind: NoticeKind,
    pub raised: u64,
    pub text: String,
}

/// A notice by its contents.
pub struct NoticeView {
    pub kind: NoticeKind,
    pub raised: u64,
    pub text: Seq<char>,
}

impl View for Notice {
    type V = NoticeView;

    open spec fn view(&self) -> NoticeView {
        NoticeView { kind: self.kind, raised: self.raised, text: self.text@ }
    }
}

pub open spec fn notice_view(notice: Option<Notice>) -> Option<NoticeView> {
    match notice {
        Some(notice) => Some(notice@),
        None => None,
    }
}

/// How long a notice stays, in milliseconds.
pub const NOTICE_DURATION: u64 = 3000;

/// Something to be done outside the program's own state.
#[derive(Debug)]
pub enum Effect {
    /// Something for the program as a whole.
    Ask(Request),
    /// Put `text` on the clipboard; confirm with `done`, or report `failed`.
    Copy { text: String, done: String, failed: Option<String> },
    /// Fold a block of a pane.
    FoldBlock(PaneId, usize),
    /// Hand keys to the block that has focus.
    ForwardToBlock(Vec<u8>),
    /// Open what is at a row and column of the view.
    OpenAt(usize, usize),
    /// Paste what the clipboard holds.
    PasteClipboard,
    /// Fit every pane to the room there is.
    ResizePanes,
    /// Unfold a block of a pane.
    UnfoldBlock(PaneId, usize),
}

/// An effect by its contents.
pub enum EffectView {
    Ask(RequestView),
    Copy { text: Seq<char>, done: Seq<char>, failed: Option<Seq<char>> },
    FoldBlock(PaneId, usize),
    ForwardToBlock(Seq<u8>),
    OpenAt(usize, usize),
    PasteClipboard,
    ResizePanes,
    UnfoldBlock(PaneId, usize),
}

impl View for Effect {
    type V = EffectView;

    open spec fn view(&self) -> EffectView {
        match *self {
            Effect::Ask(request) => EffectView::Ask(request@),
            Effect::Copy { text, done, failed } => EffectView::Copy {
                text: text@,
                done: done@,
                failed: string_view(failed),
            },
            Effect::FoldBlock(pane, i) => EffectView::FoldBlock(pane, i),
            Effect::ForwardToBlock(bytes) => EffectView::ForwardToBlock(bytes@),
            Effect::OpenAt(row, col) => EffectView::OpenAt(row, col),
            Effect::PasteClipboard => EffectView::PasteClipboard,
            Effect::ResizePanes => EffectView::ResizePanes,
            Effect::UnfoldBlock(pane, i) => EffectView::UnfoldBlock(pane, i),
        }
    }
}

/// Effects by their views.
pub open spec fn effect_views(effects: Seq<Effect>) -> Seq<EffectView> {
    Seq::new(effects.len(), |i: int| effects[i]@)
}

/// What all panes share.
pub struct Shared {
    /// Whether something on screen has changed.
    pub dirty: bool,
    /// What is to be done outside, in order.
    pub effects: Vec<Effect>,
    pub find_labels: Option<Vec<CellLabel>>,
    pub last_find: Option<FindChar>,
    /// Whether the Normal-mode cursor goes to the shell's once the shell has echoed
    /// an edit.
    pub nav_resync_pending: bool,
    pub notice: Option<Notice>,
    /// The time, in milliseconds.
    pub now: u64,
    pub pending: PendingPrefix,
    /// Whether the shell's line editor takes the keys that edits are made of.
    pub prompt_editing: bool,
    pub quick_select: Option<Vec<CellLabel>>,
    pub registers: HashMap<u32, String>,
    pub search: SearchState,
    pub selection: SelectionState,
    /// Whether the status bar is shown at all times.
    pub status_bar_enabled: bool,
}

/// A search by its contents.
pub struct SearchView {
    pub current: Option<(PaneId, MatchPos)>,
    pub last: Option<Seq<char>>,
    pub match_index: usize,
    pub match_total: usize,
    pub origin: Option<(PaneId, MatchPos)>,
    pub query: Option<Seq<char>>,
    pub reverse: bool,
}

impl View for SearchState {
    type V = SearchView;

    open spec fn view(&self) -> SearchView {
        SearchView {
            current: self.current,
            last: string_view(self.last),
            match_index: self.match_index,
            match_total: self.match_total,
            origin: self.origin,
            query: string_view(self.query),
            reverse: self.reverse,
        }
    }
}

/// Labels that may not be up.
pub open spec fn labels_view(labels: Option<Vec<CellLabel>>) -> Option<Seq<CellLabel>> {
    match labels {
        Some(v) => Some(v@),
        None => None,
    }
}

/// Registers by their texts.
pub open spec fn register_texts(registers: Map<u32, String>) -> Map<u32, Seq<char>> {
    registers.map_values(|s: String| s@)
}

/// What all panes share, by its contents.
pub struct SharedView {
    pub dirty: bool,
    pub effects: Seq<EffectView>,
    pub find_labels: Option<Seq<CellLabel>>,
    pub last_find: Option<FindChar>,
    pub nav_resync_pending: bool,
    pub notice: Option<NoticeView>,
    pub now: u64,
    pub pending: PendingPrefix,
    pub prompt_editing: bool,
    pub quick_select: Option<Seq<CellLabel>>,
    pub registers: Map<u32, Seq<char>>,
    pub search: SearchView,
    pub selection: SelectionState,
    pub status_bar_enabled: bool,
}

impl View for Shared {
    type V = SharedView;

    open spec fn view(&self) -> SharedView {
        SharedView {
            dirty: self.dirty,
            effects: effect_views(self.effects@),
            find_labels: labels_view(self.find_labels),
            last_find: self.last_find,
            nav_resync_pending: self.nav_resync_pending,
            notice: notice_view(self.notice),
            now: self.now,
            pending: self.pending,
            prompt_editing: self.prompt_editing,
            quick_select: labels_view(self.quick_select),
            registers: register_texts(self.registers@),
            search: self.search@,
            selection: self.selection,
            status_bar_enabled: self.status_bar_enabled,
        }
    }
}

impl SharedView {
    /// Nothing searched for, selected or asked for.
    pub open spec fn fresh() -> SharedView {
        SharedView {
            dirty: false,
            effects: Seq::empty(),
            find_labels: None,
            last_find: None,
            nav_resync_pending: false,
            notice: None,
            now: 0,
            pending: PendingPrefix::Idle,
            prompt_editing: true,
            quick_select: None,
            registers: Map::empty(),
            search: SearchView {
                current: None,
                last: None,
                match_index: 0,
                match_total: 0,
                origin: None,
                query: None,
                reverse: false,
            },
            selection: SelectionState {
                last_visual: None,
                span: None,
                visual_anchor: None,
                visual_kind: crate::input::VisualKind::Char,
            },
            status_bar_enabled: false,
        }
    }
}

impl Default for Shared {
    fn default() -> (r: Self)
        ensures
            r@ == SharedView::fresh(),
    {
        let r = Shared {
            dirty: false,
            effects: Vec::new(),
            find_labels: None,
            last_find: None,
            nav_resync_pending: false,
            notice: None,
            now: 0,
            pending: PendingPrefix::Idle,
            prompt_editing: true,
            quick_select: None,
            registers: HashMap::new(),
            search: SearchState::default(),
            selection: SelectionState::default(),
            status_bar_enabled: false,
        };
        proof {
            assert(effect_views(r.effects@) =~= Seq::empty());
            assert(register_texts(r.registers@) =~= Map::empty());
        }
        r
    }
}

// ------------------------------------------------------------------------
// The session
// ------------------------------------------------------------------------

/// One pane, with what all panes share.
pub struct Session {
    pub id: PaneId,
    pub shared: Shared,
    pub state: PaneState,
}

/// One pane, with what all panes share, by its contents.
pub struct SessionView {
    pub id: PaneId,
    pub shared: SharedView,
    pub state: StateView,
}

impl View for Session {
    type V = SessionView;

    open spec fn view(&self) -> SessionView {
        SessionView { id: self.id, shared: self.shared@, state: self.state@ }
    }
}

impl SessionView {
    pub open spec fn wf(self) -> bool {
        self.state.wf()
    }

    /// What the pane shows.
    pub open spec fn grid(self) -> Grid {
        self.state.pane->0.grid
    }

    /// Whether a program runs in the pane.
    pub open spec fn live(self) -> bool {
        self.state.pane is Some
    }

    /// With the pane showing `grid`.
    pub open spec fn with_grid(self, grid: Grid) -> SessionView {
        match self.state.pane {
            Some(pane) => SessionView {
                state: StateView { pane: Some(PaneView { grid, ..pane }), ..self.state },
                ..self
            },
            None => self,
        }
    }

    /// With the Normal-mode cursor at `pos`.
    pub open spec fn with_cursor(self, pos: (usize, usize)) -> SessionView {
        SessionView { state: StateView { nav_cursor: Some(pos), ..self.state }, ..self }
    }

    /// Without a Normal-mode cursor.
    pub open spec fn without_cursor(self) -> SessionView {
        SessionView { state: StateView { nav_cursor: None, ..self.state }, ..self }
    }

    /// With the pane in mode `mode`.
    pub open spec fn with_mode(self, mode: Mode) -> SessionView {
        SessionView { state: StateView { mode: Some(mode), ..self.state }, ..self }
    }

    /// With `selection` selected.
    pub open spec fn with_selection(self, selection: SelectionState) -> SessionView {
        SessionView { shared: SharedView { selection, ..self.shared }, ..self }
    }

    /// With the search `search`.
    pub open spec fn with_search(self, search: SearchView) -> SessionView {
        SessionView { shared: SharedView { search, ..self.shared }, ..self }
    }

    /// With something changed on screen.
    pub open spec fn redrawn(self) -> SessionView {
        SessionView { shared: SharedView { dirty: true, ..self.shared }, ..self }
    }

    /// With `bytes` sent to the program.
    pub open spec fn sent(self, bytes: Seq<u8>) -> SessionView {
        match self.state.pane {
            Some(pane) => SessionView {
                state: StateView {
                    pane: Some(PaneView { outbox: pane.outbox + bytes, ..pane }),
                    ..self.state
                },
                ..self
            },
            None => self,
        }
    }

    /// With `effect` to be done.
    pub open spec fn with_effect(self, effect: EffectView) -> SessionView {
        SessionView {
            shared: SharedView { effects: self.shared.effects.push(effect), ..self.shared },
            ..self
        }
    }

    /// With a notice raised.
    pub open spec fn notified(self, text: Seq<char>, kind: NoticeKind) -> SessionView {
        SessionView {
            shared: SharedView {
                notice: Some(NoticeView { kind, raised: self.shared.now, text }),
                dirty: true,
                ..self.shared
            },
            ..self
        }
    }

    /// With a fault reported.
    pub open spec fn faulted(self, text: Seq<char>) -> SessionView {
        self.notified(text, NoticeKind::Error)
    }

    /// With the shadow of the prompt line changed to `shadow`, if there is one.
    pub open spec fn with_shadow(self, shadow: ShadowView) -> SessionView {
        match self.state.shadow {
            Some(_) => SessionView {
                state: StateView { shadow: Some(shadow), ..self.state },
                ..self
            },
            None => self,
        }
    }

    /// With the panes to be fitted to the room, unless the status bar is always
    /// there.
    pub open spec fn refitted(self) -> SessionView {
        if self.shared.status_bar_enabled {
            self
        } else {
            self.with_effect(EffectView::ResizePanes)
        }
    }

    /// The mode the pane is in.
    pub open spec fn mode(self) -> Mode {
        match self.state.mode {
            Some(mode) => mode,
            None => Mode::Insert,
        }
    }

    /// The Normal-mode cursor, or the shell's where there is none.
    pub open spec fn cursor(self) -> (usize, usize) {
        match self.state.nav_cursor {
            Some(pos) => pos,
            None => self.grid().cursor_at(),
        }
    }

    /// Whether the shell waits at its prompt.
    pub open spec fn at_prompt(self) -> bool {
        self.state.pane matches Some(pane) && pane.at_prompt
    }
}

impl Session {
    /// What the session holds is in order.
    pub open spec fn wf(self) -> bool {
        self@.wf()
    }

    /// The Normal-mode cursor of the pane.
    pub fn nav_cursor(&self) -> (r: Option<(usize, usize)>)
        ensures
            r == self@.state.nav_cursor,
    {
        self.state.nav_cursor
    }

    /// Put the Normal-mode cursor at `pos`.
    pub fn set_nav_cursor(&mut self, pos: (usize, usize))
        ensures
            final(self)@ == old(self)@.with_cursor(pos),
    {
        self.state.nav_cursor = Some(pos);
    }

    /// Take the Normal-mode cursor away.
    pub fn clear_nav_cursor(&mut self)
        ensures
            final(self)@ == old(self)@.without_cursor(),
    {
        self.state.nav_cursor = None;
    }

    /// The mode the pane is in.
    pub fn mode(&self) -> (r: Mode)
        ensures
            r == self@.mode(),
    {
        match self.state.mode {
            Some(mode) => mode,
            None => Mode::Insert,
        }
    }

    /// Whether the pane is in Visual mode.
    pub fn in_visual(&self) -> (r: bool)
        ensures
            r == (self@.state.mode == Some(Mode::Visual)),
    {
        match self.state.mode {
            Some(mode) => mode == Mode::Visual,
            None => false,
        }
    }

    /// Whether the shell waits at its prompt.
    pub fn at_prompt(&self) -> (r: bool)
        ensures
            r == self@.at_prompt(),
    {
        match &self.state.pane {
            Some(pane) => pane.at_prompt,
            None => false,
        }
    }

    /// Send `bytes` to the program.
    pub fn send(&mut self, bytes: &[u8])
        ensures
            final(self)@ == old(self)@.sent(bytes@),
    {
        if let Some(pane) = &mut self.state.pane {
            pane.write(bytes);
        }
    }

    /// Have `effect` done.
    pub fn emit(&mut self, effect: Effect)
        ensures
            final(self)@ == old(self)@.with_effect(effect@),
    {
        let ghost before = self.shared.effects@;
        self.shared.effects.push(effect);
        assert(effect_views(self.shared.effects@) =~= effect_views(before).push(effect@));
    }

    /// Raise a notice.
    pub fn show_notice(&mut self, text: &str, kind: NoticeKind)
        ensures
            final(self)@ == old(self)@.notified(text@, kind),
    {
        self.shared.notice = Some(
            Notice { kind, raised: self.shared.now, text: text.to_owned() },
        );
        self.shared.dirty = true;
    }

    /// Report a fault.
    pub fn set_error(&mut self, text: &str)
        ensures
            final(self)@ == old(self)@.faulted(text@),
    {
        self.show_notice(text, NoticeKind::Error);
    }

    /// Confirm something.
    pub fn set_notice(&mut self, text: &str)
        ensures
            final(self)@ == old(self)@.notified(text@, NoticeKind::Info),
    {
        self.show_notice(text, NoticeKind::Info);
    }

    /// Have the panes fitted to the room, unless the status bar is always there.
    pub fn refit(&mut self)
        ensures
            final(self)@ == old(self)@.refitted(),
    {
        if !self.shared.status_bar_enabled {
            self.emit(Effect::ResizePanes);
        }
    }
}

/// Each pane has a Normal-mode cursor of its own: what one session does to its
/// cursor leaves the rest of what panes share alone.
pub proof fn law_the_cursor_is_the_panes_own(s: SessionView, pos: (usize, usize))
    ensures
        s.with_cursor(pos).shared == s.shared,
        s.with_cursor(pos).state.nav_cursor == Some(pos),
        s.without_cursor().shared == s.shared,
        s.without_cursor().state.nav_cursor is None,
{
}

} // verus!
