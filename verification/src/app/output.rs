//! What has come out of the panes since it was last looked for.

use vstd::prelude::*;
use crate::app::{lemma_put_back, lemma_session, lemma_with_session, App, AppView};
use crate::grid::Grid;
use crate::input::PaneId;
use crate::navigation::search::string_view;
use crate::requests::{Request, RequestView};
use crate::session::{
    effect_views, Effect, EffectView, Pane, PaneView, SessionView, SharedView, StateView,
};
use crate::text::append_bytes;

verus! {

broadcast use {
    Grid::lemma_bounds,
    Grid::lemma_scrolled,
    vstd::std_specs::hash::group_hash_axioms,
    lemma_put_back,
    lemma_session,
    lemma_with_session,
};

/// What has come out of a pane.
pub struct PaneOutput {
    /// The blocks that have come in, by their numbers.
    pub blocks: Vec<u64>,
    /// Whether the program asks for the clipboard.
    pub clipboard_read: bool,
    /// What the program puts on the clipboard.
    pub clipboard_write: Option<String>,
    /// What the pane holds now, where the program has written something.
    pub contents: Option<Pane>,
    /// Blocks that are no longer kept, each with its part.
    pub elided: Vec<(usize, usize)>,
    /// Stretches of rows that were erased.
    pub erased: Vec<(usize, usize)>,
    pub pane: PaneId,
    /// Live blocks that have changed.
    pub patched: Vec<usize>,
    /// Resizes that have moved rows, by their numbers.
    pub remaps: Vec<u64>,
    pub title: Option<String>,
}

/// What has come out of a pane by its contents.
pub struct OutputView {
    pub blocks: Seq<u64>,
    pub clipboard_read: bool,
    pub clipboard_write: Option<Seq<char>>,
    pub contents: Option<PaneView>,
    pub elided: Seq<(usize, usize)>,
    pub erased: Seq<(usize, usize)>,
    pub pane: PaneId,
    pub patched: Seq<usize>,
    pub remaps: Seq<u64>,
    pub title: Option<Seq<char>>,
}

impl View for PaneOutput {
    type V = OutputView;

    open spec fn view(&self) -> OutputView {
        OutputView {
            blocks: self.blocks@,
            clipboard_read: self.clipboard_read,
            clipboard_write: string_view(self.clipboard_write),
            contents: match self.contents {
                Some(pane) => Some(pane@),
                None => None,
            },
            elided: self.elided@,
            erased: self.erased@,
            pane: self.pane,
            patched: self.patched@,
            remaps: self.remaps@,
            title: string_view(self.title),
        }
    }
}

/// What has come out of panes by its contents.
pub open spec fn output_views(outputs: Seq<PaneOutput>) -> Seq<OutputView> {
    Seq::new(outputs.len(), |i: int| outputs[i]@)
}

/// What is asked by its contents.
pub open spec fn request_views(requests: Seq<Request>) -> Seq<RequestView> {
    Seq::new(requests.len(), |i: int| requests[i]@)
}

impl OutputView {
    /// What the pane holds now is in order.
    pub open spec fn wf(self) -> bool {
        self.contents matches Some(pane) ==> pane.grid.wf()
    }
}

/// What is asked on account of what has come out of a pane.
#[derive(Clone, Copy, Debug, PartialEq, Eq, Structural)]
pub enum Part {
    Answer,
    Elide,
    Erase,
    Patch,
    Remap,
}

/// What is asked on account of one pane.
pub open spec fn part_of(output: OutputView, part: Part) -> Seq<RequestView> {
    match part {
        Part::Answer => if output.clipboard_read {
            seq![RequestView::ClipboardAnswer(output.pane)]
        } else {
            Seq::empty()
        },
        Part::Elide => Seq::new(
            output.elided.len(),
            |i: int|
                RequestView::DropElided {
                    pane: output.pane,
                    block: output.elided[i].0,
                    segment: output.elided[i].1,
                },
        ),
        Part::Erase => Seq::new(
            output.erased.len(),
            |i: int|
                RequestView::DropBlocks {
                    pane: output.pane,
                    from: output.erased[i].0,
                    to: output.erased[i].1,
                },
        ),
        Part::Patch => Seq::new(
            output.patched.len(),
            |i: int| RequestView::PatchTile { pane: output.pane, block: output.patched[i] },
        ),
        Part::Remap => Seq::new(
            output.remaps.len(),
            |i: int| RequestView::RemapAnchors { pane: output.pane, remap: output.remaps[i] },
        ),
    }
}

/// What is asked on account of the first `n` panes.
pub open spec fn gathered(outputs: Seq<OutputView>, part: Part, n: int) -> Seq<RequestView>
    decreases n,
{
    if n <= 0 {
        Seq::empty()
    } else {
        gathered(outputs, part, n - 1) + part_of(outputs[n - 1], part)
    }
}

/// The blocks that have come in from the first `n` panes.
pub open spec fn new_blocks(outputs: Seq<OutputView>, n: int) -> Seq<(PaneId, u64)>
    decreases n,
{
    if n <= 0 {
        Seq::empty()
    } else {
        new_blocks(outputs, n - 1) + Seq::new(
            outputs[n - 1].blocks.len(),
            |i: int| (outputs[n - 1].pane, outputs[n - 1].blocks[i]),
        )
    }
}

/// What the last of the first `n` panes that puts something on the clipboard puts there.
pub open spec fn last_write(outputs: Seq<OutputView>, n: int) -> Option<Seq<char>>
    decreases n,
{
    if n <= 0 {
        None
    } else if outputs[n - 1].clipboard_write is Some {
        outputs[n - 1].clipboard_write
    } else {
        last_write(outputs, n - 1)
    }
}

/// What takes old blocks away: rows that have moved are followed first, then the erased and
/// those no longer kept go.
pub open spec fn removals(outputs: Seq<OutputView>) -> Seq<RequestView> {
    let n = outputs.len() as int;
    gathered(outputs, Part::Remap, n) + gathered(outputs, Part::Erase, n) + gathered(
        outputs,
        Part::Elide,
        n,
    )
}

/// What shows new blocks, and shows again those that have changed.
pub open spec fn additions(outputs: Seq<OutputView>) -> Seq<RequestView> {
    let n = outputs.len() as int;
    let blocks = new_blocks(outputs, n);
    (if blocks.len() == 0 {
        Seq::empty()
    } else {
        seq![RequestView::CreateTiles(blocks)]
    }) + gathered(outputs, Part::Patch, n)
}

/// What is put on the clipboard for programs, and which of them are told what it holds.
pub open spec fn clipboard_use(outputs: Seq<OutputView>, reads: bool) -> Seq<RequestView> {
    let n = outputs.len() as int;
    (match last_write(outputs, n) {
        Some(text) => seq![RequestView::ClipboardWrite(text)],
        None => Seq::empty(),
    }) + (if reads {
        gathered(outputs, Part::Answer, n)
    } else {
        Seq::empty()
    })
}

/// All that is asked on account of what has come out of panes. Programs learn what the
/// clipboard holds only where `reads` allows it.
pub open spec fn pump_requests(outputs: Seq<OutputView>, reads: bool) -> Seq<RequestView> {
    removals(outputs) + additions(outputs) + clipboard_use(outputs, reads)
}

fn push_request(out: &mut Vec<Request>, request: Request)
    ensures
        request_views(final(out)@) == request_views(old(out)@).push(request@),
{
    let ghost before = out@;
    out.push(request);
    assert(request_views(out@) =~= request_views(before).push(request@));
}

fn push_part(output: &PaneOutput, part: Part, out: &mut Vec<Request>)
    ensures
        request_views(final(out)@) == request_views(old(out)@) + part_of(output@, part),
{
    let ghost start = request_views(out@);
    let pane = output.pane;
    let total: usize = match part {
        Part::Answer => if output.clipboard_read {
            1
        } else {
            0
        },
        Part::Elide => output.elided.len(),
        Part::Erase => output.erased.len(),
        Part::Patch => output.patched.len(),
        Part::Remap => output.remaps.len(),
    };
    let mut i: usize = 0;
    assert(start + part_of(output@, part).take(0) =~= start);
    while i < total
        invariant
            i <= total,
            pane == output@.pane,
            total == part_of(output@, part).len(),
            request_views(out@) == start + part_of(output@, part).take(i as int),
        decreases total - i,
    {
        let request = match part {
            Part::Answer => Request::ClipboardAnswer(pane),
            Part::Elide => Request::DropElided {
                pane,
                block: output.elided[i].0,
                segment: output.elided[i].1,
            },
            Part::Erase => Request::DropBlocks {
                pane,
                from: output.erased[i].0,
                to: output.erased[i].1,
            },
            Part::Patch => Request::PatchTile { pane, block: output.patched[i] },
            Part::Remap => Request::RemapAnchors { pane, remap: output.remaps[i] },
        };
        proof {
            assert(request@ == part_of(output@, part)[i as int]);
            assert(part_of(output@, part).take(i + 1) =~= part_of(output@, part).take(
                i as int,
            ).push(request@));
            assert(start + part_of(output@, part).take(i + 1) =~= (start + part_of(
                output@,
                part,
            ).take(i as int)).push(request@));
        }
        push_request(out, request);
        i = i + 1;
    }
    assert(part_of(output@, part).take(total as int) =~= part_of(output@, part));
}

fn gather(outputs: &Vec<PaneOutput>, part: Part, out: &mut Vec<Request>)
    ensures
        request_views(final(out)@) == request_views(old(out)@) + gathered(
            output_views(outputs@),
            part,
            outputs@.len() as int,
        ),
{
    let ghost start = request_views(out@);
    let ghost all = output_views(outputs@);
    let mut n: usize = 0;
    assert(start + gathered(all, part, 0) =~= start);
    while n < outputs.len()
        invariant
            n <= outputs@.len(),
            all == output_views(outputs@),
            request_views(out@) == start + gathered(all, part, n as int),
        decreases outputs@.len() - n,
    {
        push_part(&outputs[n], part, out);
        proof {
            assert(outputs@[n as int]@ == all[n as int]);
            assert(start + gathered(all, part, n as int) + part_of(all[n as int], part) =~= start
                + gathered(all, part, n + 1));
        }
        n = n + 1;
    }
}

fn gather_blocks(outputs: &Vec<PaneOutput>) -> (r: Vec<(PaneId, u64)>)
    ensures
        r@ == new_blocks(output_views(outputs@), outputs@.len() as int),
{
    let ghost all = output_views(outputs@);
    let mut blocks: Vec<(PaneId, u64)> = Vec::new();
    let mut n: usize = 0;
    while n < outputs.len()
        invariant
            n <= outputs@.len(),
            all == output_views(outputs@),
            blocks@ == new_blocks(all, n as int),
        decreases outputs@.len() - n,
    {
        let ghost before = blocks@;
        let ghost own = Seq::new(
            all[n as int].blocks.len(),
            |i: int| (all[n as int].pane, all[n as int].blocks[i]),
        );
        let mut i: usize = 0;
        assert(before + own.take(0) =~= before);
        while i < outputs[n].blocks.len()
            invariant
                n < outputs@.len(),
                all == output_views(outputs@),
                i <= outputs@[n as int].blocks@.len(),
                own == Seq::new(
                    all[n as int].blocks.len(),
                    |i: int| (all[n as int].pane, all[n as int].blocks[i]),
                ),
                blocks@ == before + own.take(i as int),
            decreases outputs@[n as int].blocks@.len() - i,
        {
            blocks.push((outputs[n].pane, outputs[n].blocks[i]));
            assert(own.take(i + 1) =~= own.take(i as int).push(own[i as int]));
            assert(blocks@ =~= before + own.take(i + 1));
            i = i + 1;
        }
        assert(own.take(i as int) =~= own);
        n = n + 1;
    }
    blocks
}

fn find_write(outputs: &Vec<PaneOutput>) -> (r: Option<String>)
    ensures
        string_view(r) == last_write(output_views(outputs@), outputs@.len() as int),
{
    let ghost all = output_views(outputs@);
    let mut n: usize = outputs.len();
    while n > 0
        invariant
            n <= outputs@.len(),
            all == output_views(outputs@),
            last_write(all, outputs@.len() as int) == last_write(all, n as int),
        decreases n,
    {
        assert(all[n - 1] == outputs@[n - 1]@);
        if let Some(text) = &outputs[n - 1].clipboard_write {
            return Some(text.as_str().to_owned());
        }
        n = n - 1;
    }
    None
}

/// All that is asked on account of what has come out of panes.
pub fn pump(outputs: &Vec<PaneOutput>, reads: bool) -> (r: Vec<Request>)
    ensures
        request_views(r@) == pump_requests(output_views(outputs@), reads),
{
    let ghost all = output_views(outputs@);
    let mut out: Vec<Request> = Vec::new();
    assert(request_views(out@) =~= Seq::empty());
    gather(outputs, Part::Remap, &mut out);
    gather(outputs, Part::Erase, &mut out);
    gather(outputs, Part::Elide, &mut out);
    assert(request_views(out@) =~= removals(all));
    let blocks = gather_blocks(outputs);
    if blocks.len() > 0 {
        push_request(&mut out, Request::CreateTiles(blocks));
    }
    gather(outputs, Part::Patch, &mut out);
    assert(request_views(out@) =~= removals(all) + additions(all));
    if let Some(text) = find_write(outputs) {
        push_request(&mut out, Request::ClipboardWrite(text));
    }
    if reads {
        gather(outputs, Part::Answer, &mut out);
    }
    assert(request_views(out@) =~= removals(all) + additions(all) + clipboard_use(all, reads));
    out
}

impl AppView {
    /// With what a pane holds as it is now. What was to be sent to its program still is.
    pub open spec fn pane_filled(self, id: PaneId, pane: PaneView) -> AppView {
        let s = self.session(id);
        match s.state.pane {
            Some(before) => self.with_session(
                SessionView {
                    state: StateView {
                        pane: Some(PaneView { outbox: before.outbox + pane.outbox, ..pane }),
                        ..s.state
                    },
                    ..s
                },
            ),
            None => self,
        }
    }

    /// With a pane named as its program names it.
    pub open spec fn pane_titled(self, id: PaneId, title: Seq<char>) -> AppView {
        AppView { titles: self.titles.insert(id.0, title), ..self }
    }

    /// With what has come out of a pane taken in.
    #[verifier::opaque]
    pub open spec fn pane_pumped(self, output: OutputView) -> AppView {
        let me = match output.contents {
            Some(pane) => self.pane_filled(output.pane, pane),
            None => self,
        };
        match output.title {
            Some(title) => me.pane_titled(output.pane, title),
            None => me,
        }
    }

    /// With what has come out of the first `n` panes taken in.
    pub open spec fn pumped(self, outputs: Seq<OutputView>, n: int) -> AppView
        decreases n,
    {
        if n <= 0 {
            self
        } else {
            self.pumped(outputs, n - 1).pane_pumped(outputs[n - 1])
        }
    }

    /// With the first `n` of `requests` made.
    pub open spec fn all_asked(self, requests: Seq<RequestView>, n: int) -> AppView
        decreases n,
    {
        if n <= 0 {
            self
        } else {
            self.all_asked(requests, n - 1).asked(requests[n - 1])
        }
    }

    /// With the blocks of every pane held to the trust that the user allows.
    pub open spec fn trust_limited(self) -> AppView {
        self.asked(RequestView::LimitTrust(self.config.block_max_trust))
    }

    /// With the window called anew where a program has named its pane.
    pub open spec fn titles_shown(self, outputs: Seq<OutputView>) -> AppView {
        if any_title(outputs) {
            self.asked(RequestView::UpdateTitle)
        } else {
            self
        }
    }

    /// With what has come out of panes taken in, and what that asks for asked. That blocks be
    /// held to the limit on trust is asked before any of them is shown.
    pub open spec fn output_taken(self, outputs: Seq<OutputView>) -> AppView {
        let requests = pump_requests(outputs, self.config.clipboard_read);
        self.trust_limited().pumped(outputs, outputs.len() as int).titles_shown(outputs).all_asked(
            requests,
            requests.len() as int,
        )
    }
}

/// Whether a program has named its pane.
pub open spec fn any_title(outputs: Seq<OutputView>) -> bool {
    exists|i: int| 0 <= i < outputs.len() && (#[trigger] outputs[i]).title is Some
}

/// Whether a program has written something.
pub open spec fn any_output(outputs: Seq<OutputView>) -> bool {
    exists|i: int| 0 <= i < outputs.len() && (#[trigger] outputs[i]).contents is Some
}

impl App {
    fn fill_pane(&mut self, id: PaneId, pane: Pane)
        requires
            old(self).wf(),
            pane.grid.wf(),
        ensures
            final(self).wf(),
            final(self)@ == old(self)@.pane_filled(id, pane@),
    {
        let live = match self.panes.get(&id.0) {
            Some(state) => state.pane.is_some(),
            None => false,
        };
        if !live {
            return;
        }
        let mut s = self.enter(id);
        let mut fresh = pane;
        if let Some(before) = &s.state.pane {
            let ghost sent = fresh.outbox@;
            let mut outbox: Vec<u8> = Vec::new();
            append_bytes(&mut outbox, before.outbox.as_slice());
            append_bytes(&mut outbox, fresh.outbox.as_slice());
            assert(outbox@ =~= before.outbox@ + sent);
            fresh.outbox = outbox;
        }
        s.state.pane = Some(fresh);
        self.leave(s);
    }

    fn name_pane(&mut self, id: PaneId, title: String)
        requires
            old(self).wf(),
        ensures
            final(self).wf(),
            final(self)@ == old(self)@.pane_titled(id, title@),
    {
        let ghost before = self@;
        let ghost text = title@;
        self.titles.insert(id.0, title);
        assert(self@.titles =~= before.titles.insert(id.0, text));
    }

    fn pump_pane(&mut self, output: PaneOutput)
        requires
            old(self).wf(),
            output@.wf(),
        ensures
            final(self).wf(),
            final(self)@ == old(self)@.pane_pumped(output@),
    {
        proof {
            reveal(AppView::pane_pumped);
        }
        if let Some(pane) = output.contents {
            self.fill_pane(output.pane, pane);
        }
        if let Some(title) = output.title {
            self.name_pane(output.pane, title);
        }
    }

    fn ask_all(&mut self, requests: Vec<Request>)
        requires
            old(self).wf(),
        ensures
            final(self).wf(),
            final(self)@ == old(self)@.all_asked(
                request_views(requests@),
                requests@.len() as int,
            ),
    {
        let ghost start = self@;
        let ghost all = requests@;
        let mut left = requests;
        let ghost mut n: int = 0;
        assert(all.skip(0) =~= all);
        while left.len() > 0
            invariant
                self.wf(),
                0 <= n <= all.len(),
                left@ == all.skip(n),
                self@ == start.all_asked(request_views(all), n),
            decreases left@.len(),
        {
            let next = left.remove(0);
            assert(next == all[n]);
            assert(left@ =~= all.skip(n + 1));
            self.ask(next);
            proof {
                assert(request_views(all)[n] == all[n]@);
                n = n + 1;
            }
        }
    }

    fn pump_panes(&mut self, outputs: Vec<PaneOutput>)
        requires
            old(self).wf(),
            forall|i: int| 0 <= i < outputs@.len() ==> (#[trigger] outputs@[i])@.wf(),
        ensures
            final(self).wf(),
            final(self)@ == old(self)@.pumped(output_views(outputs@), outputs@.len() as int),
    {
        let ghost start = self@;
        let ghost all = outputs@;
        let mut left = outputs;
        let ghost mut n: int = 0;
        assert(all.skip(0) =~= all);
        while left.len() > 0
            invariant
                self.wf(),
                0 <= n <= all.len(),
                left@ == all.skip(n),
                forall|i: int| 0 <= i < all.len() ==> (#[trigger] all[i])@.wf(),
                self@ == start.pumped(output_views(all), n),
            decreases left@.len(),
        {
            let next = left.remove(0);
            assert(next == all[n]);
            assert(left@ =~= all.skip(n + 1));
            self.pump_pane(next);
            proof {
                assert(output_views(all)[n] == all[n]@);
                n = n + 1;
            }
        }
    }

    /// Take in what has come out of the panes: whether a program has written something.
    pub fn drain_all_panes(&mut self, outputs: Vec<PaneOutput>) -> (r: bool)
        requires
            old(self).wf(),
            forall|i: int| 0 <= i < outputs@.len() ==> (#[trigger] outputs@[i])@.wf(),
        ensures
            final(self).wf(),
            final(self)@ == old(self)@.output_taken(output_views(outputs@)),
            r == any_output(output_views(outputs@)),
    {
        let ghost all = output_views(outputs@);
        let mut any = false;
        let mut named = false;
        let mut i: usize = 0;
        while i < outputs.len()
            invariant
                i <= outputs@.len(),
                all == output_views(outputs@),
                any == (exists|j: int| 0 <= j < i && (#[trigger] all[j]).contents is Some),
                named == (exists|j: int| 0 <= j < i && (#[trigger] all[j]).title is Some),
            decreases outputs@.len() - i,
        {
            assert(all[i as int] == outputs@[i as int]@);
            if outputs[i].contents.is_some() {
                any = true;
            }
            if outputs[i].title.is_some() {
                named = true;
            }
            i = i + 1;
        }
        let requests = pump(&outputs, self.config.clipboard_read);
        self.ask(Request::LimitTrust(self.config.block_max_trust));
        self.pump_panes(outputs);
        if named {
            self.ask(Request::UpdateTitle);
        }
        self.ask_all(requests);
        any
    }

    /// Take what is to be done outside, in order.
    pub fn take_effects(&mut self) -> (r: Vec<Effect>)
        requires
            old(self).wf(),
        ensures
            final(self).wf(),
            effect_views(r@) == old(self)@.shared.effects,
            final(self)@ == (AppView {
                shared: SharedView {
                    effects: Seq::empty(),
                    ..old(self)@.shared
                },
                ..old(self)@
            }),
    {
        let mut effects: Vec<Effect> = Vec::new();
        std::mem::swap(&mut effects, &mut self.shared.effects);
        assert(effect_views(self.shared.effects@) =~= Seq::empty());
        effects
    }

    /// Take what is to be sent to the program of a pane.
    pub fn take_outbox(&mut self, id: PaneId) -> (r: Vec<u8>)
        requires
            old(self).wf(),
        ensures
            final(self).wf(),
            match old(self)@.state(id).pane {
                Some(pane) => r@ == pane.outbox && final(self)@ == old(self)@.with_session(
                    SessionView {
                        state: StateView {
                            pane: Some(PaneView { outbox: Seq::empty(), ..pane }),
                            ..old(self)@.state(id)
                        },
                        ..old(self)@.session(id)
                    },
                ),
                None => r@.len() == 0 && final(self)@ == old(self)@,
            },
    {
        let mut bytes: Vec<u8> = Vec::new();
        let live = match self.panes.get(&id.0) {
            Some(state) => state.pane.is_some(),
            None => false,
        };
        if live {
            let mut s = self.enter(id);
            if let Some(pane) = &mut s.state.pane {
                std::mem::swap(&mut bytes, &mut pane.outbox);
                assert(pane.outbox@ =~= Seq::empty());
            }
            self.leave(s);
        }
        bytes
    }
}

// ------------------------------------------------------------------------
// Laws
// ------------------------------------------------------------------------

proof fn lemma_pumped_keeps_what_is_asked(app: AppView, outputs: Seq<OutputView>, n: int)
    requires
        0 <= n <= outputs.len(),
    ensures
        app.pumped(outputs, n).shared == app.shared,
    decreases n,
{
    if n > 0 {
        lemma_pumped_keeps_what_is_asked(app, outputs, n - 1);
        reveal(AppView::pane_pumped);
    }
}

proof fn lemma_asked_in_order(app: AppView, requests: Seq<RequestView>, n: int)
    requires
        0 <= n <= requests.len(),
    ensures
        app.shared.effects.is_prefix_of(app.all_asked(requests, n).shared.effects),
    decreases n,
{
    if n > 0 {
        lemma_asked_in_order(app, requests, n - 1);
    }
}

/// Whatever has come out of panes, and whenever they were made, the first thing asked is that
/// their blocks be held to the trust that the user allows.
pub proof fn law_trust_is_limited_before_blocks_are_shown(app: AppView, outputs: Seq<OutputView>)
    ensures
        app.shared.effects.push(
            EffectView::Ask(RequestView::LimitTrust(app.config.block_max_trust)),
        ).is_prefix_of(app.output_taken(outputs).shared.effects),
{
    let n = outputs.len() as int;
    let requests = pump_requests(outputs, app.config.clipboard_read);
    let limited = app.trust_limited();
    lemma_pumped_keeps_what_is_asked(limited, outputs, n);
    let pumped = limited.pumped(outputs, n);
    let shown = pumped.titles_shown(outputs);
    lemma_asked_in_order(shown, requests, requests.len() as int);
}

/// Whether a request takes old blocks away.
pub open spec fn removes_blocks(request: RequestView) -> bool {
    request is DropBlocks || request is DropElided
}

proof fn lemma_gathered(outputs: Seq<OutputView>, part: Part, n: int)
    requires
        0 <= n <= outputs.len(),
    ensures
        forall|i: int|
            0 <= i < gathered(outputs, part, n).len() ==> ((#[trigger] gathered(
                outputs,
                part,
                n,
            )[i]) !is CreateTiles && (removes_blocks(gathered(outputs, part, n)[i]) ==> part
                == Part::Erase || part == Part::Elide)),
    decreases n,
{
    if n > 0 {
        lemma_gathered(outputs, part, n - 1);
        let before = gathered(outputs, part, n - 1);
        let own = part_of(outputs[n - 1], part);
        assert forall|i: int| 0 <= i < gathered(outputs, part, n).len() implies ((
        #[trigger] gathered(outputs, part, n)[i]) !is CreateTiles && (removes_blocks(
            gathered(outputs, part, n)[i],
        ) ==> part == Part::Erase || part == Part::Elide)) by {
            if i < before.len() {
                assert(gathered(outputs, part, n)[i] == before[i]);
            } else {
                assert(gathered(outputs, part, n)[i] == own[i - before.len()]);
            }
        }
    }
}

/// Old blocks go before new ones come: a block that comes in together with the erasing of
/// the screen before it stays.
pub proof fn law_old_blocks_go_before_new_ones_come(
    outputs: Seq<OutputView>,
    reads: bool,
    i: int,
    j: int,
)
    requires
        0 <= i < pump_requests(outputs, reads).len(),
        0 <= j < pump_requests(outputs, reads).len(),
        removes_blocks(pump_requests(outputs, reads)[i]),
        pump_requests(outputs, reads)[j] is CreateTiles,
    ensures
        i < j,
{
    let n = outputs.len() as int;
    lemma_gathered(outputs, Part::Remap, n);
    lemma_gathered(outputs, Part::Erase, n);
    lemma_gathered(outputs, Part::Elide, n);
    lemma_gathered(outputs, Part::Patch, n);
    lemma_gathered(outputs, Part::Answer, n);
    let all = pump_requests(outputs, reads);
    let front = removals(outputs);
    let back = additions(outputs);
    let end = clipboard_use(outputs, reads);
    assert(all =~= front + back + end);
    let remaps = gathered(outputs, Part::Remap, n);
    let erased = gathered(outputs, Part::Erase, n);
    let elided = gathered(outputs, Part::Elide, n);
    if j < front.len() {
        assert(all[j] == front[j]);
        if j < remaps.len() {
            assert(front[j] == remaps[j]);
        } else if j < remaps.len() + erased.len() {
            assert(front[j] == erased[j - remaps.len()]);
        } else {
            assert(front[j] == elided[j - remaps.len() - erased.len()]);
        }
    }
    if i >= front.len() {
        let patched = gathered(outputs, Part::Patch, n);
        let answers = gathered(outputs, Part::Answer, n);
        if i < front.len() + back.len() {
            let k = i - front.len();
            assert(all[i] == back[k]);
            let shown = back.len() - patched.len();
            if k >= shown {
                assert(back[k] == patched[k - shown]);
            }
        } else {
            let k = i - front.len() - back.len();
            assert(all[i] == end[k]);
            if reads {
                let wrote = end.len() - answers.len();
                if k >= wrote {
                    assert(end[k] == answers[k - wrote]);
                }
            }
        }
    }
}

/// No program learns what the clipboard holds unless the user lets programs read it.
pub proof fn law_the_clipboard_is_not_read_unasked(outputs: Seq<OutputView>, i: int)
    requires
        0 <= i < pump_requests(outputs, false).len(),
    ensures
        pump_requests(outputs, false)[i] !is ClipboardAnswer,
{
    let n = outputs.len() as int;
    lemma_no_answers(outputs, Part::Remap, n);
    lemma_no_answers(outputs, Part::Erase, n);
    lemma_no_answers(outputs, Part::Elide, n);
    lemma_no_answers(outputs, Part::Patch, n);
    let all = pump_requests(outputs, false);
    let front = removals(outputs);
    let back = additions(outputs);
    let remaps = gathered(outputs, Part::Remap, n);
    let erased = gathered(outputs, Part::Erase, n);
    let elided = gathered(outputs, Part::Elide, n);
    let patched = gathered(outputs, Part::Patch, n);
    if i < front.len() {
        assert(all[i] == front[i]);
        if i < remaps.len() {
            assert(front[i] == remaps[i]);
        } else if i < remaps.len() + erased.len() {
            assert(front[i] == erased[i - remaps.len()]);
        } else {
            assert(front[i] == elided[i - remaps.len() - erased.len()]);
        }
    } else if i < front.len() + back.len() {
        let k = i - front.len();
        assert(all[i] == back[k]);
        let shown = back.len() - patched.len();
        if k >= shown {
            assert(back[k] == patched[k - shown]);
        }
    } else {
        assert(all[i] == clipboard_use(outputs, false)[i - front.len() - back.len()]);
    }
}

proof fn lemma_no_answers(outputs: Seq<OutputView>, part: Part, n: int)
    requires
        0 <= n <= outputs.len(),
        part != Part::Answer,
    ensures
        forall|i: int|
            0 <= i < gathered(outputs, part, n).len() ==> (#[trigger] gathered(
                outputs,
                part,
                n,
            )[i]) !is ClipboardAnswer,
    decreases n,
{
    if n > 0 {
        lemma_no_answers(outputs, part, n - 1);
        let before = gathered(outputs, part, n - 1);
        let own = part_of(outputs[n - 1], part);
        assert forall|i: int| 0 <= i < gathered(outputs, part, n).len() implies (
        #[trigger] gathered(outputs, part, n)[i]) !is ClipboardAnswer by {
            if i < before.len() {
                assert(gathered(outputs, part, n)[i] == before[i]);
            } else {
                assert(gathered(outputs, part, n)[i] == own[i - before.len()]);
            }
        }
    }
}

} // verus!
