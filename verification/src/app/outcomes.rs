//! What comes of the input that a page was given.

use vstd::prelude::*;
use crate::app::pages::{toggles_wrap, Offer};
use crate::app::palette::plain_entries;
use crate::app::{phrase, App, AppView, Keymap};
use crate::events::texts;
use crate::input::{Action, Key, PaneId};
use crate::pages::{PageOutcome, PagesView, PickView, PromptView};
use crate::palette::PaletteMode;
use crate::requests::{Request, RequestView};
use crate::session::{Effect, EffectView};

verus! {

/// What has become of input that a page was given.
#[derive(Clone, Copy, Debug, PartialEq, Eq, Structural)]
pub enum InputUse {
    /// The page has no use for it.
    Declined,
    /// What the page makes of the clipboard's text decides: of no text, where there is none.
    Paste,
    /// It has been used.
    Spent,
}

impl AppView {
    /// With what a page asked for done.
    #[verifier::opaque]
    pub open spec fn outcome_done(
        self,
        pane: PaneId,
        outcome: PageOutcome,
        keymap: Keymap,
    ) -> AppView {
        match outcome {
            PageOutcome::CancelJobs => self.jobs_given_up(pane).redrawn(),
            PageOutcome::Close => self.page_closed(pane),
            PageOutcome::Consumed => self.redrawn(),
            PageOutcome::Ignored => self,
            PageOutcome::Job(job) => self.job_begun(pane, job),
            PageOutcome::OpenExternal(path) => self.asked(RequestView::OpenExternal(path@)),
            PageOutcome::OpenPath(target) => self.asked(
                RequestView::OpenPath { path: target.path@, line: target.line },
            ),
            PageOutcome::Paste => self,
            PageOutcome::Pick(request) => AppView {
                pages: PagesView {
                    pick: Some(PickView { label: request.label@, pane, tag: request.tag@ }),
                    ..self.pages
                },
                ..self
            }.listed(PaletteMode::Pick, plain_entries(texts(request.items@))),
            PageOutcome::Prompt(request) => self.with_prompt(
                Some(
                    PromptView {
                        initial: request.initial@,
                        input: request.initial@,
                        pane,
                        label: request.label@,
                        mode: request.mode,
                        tag: request.tag@,
                    },
                ),
            ).redrawn(),
            PageOutcome::RunAction(name) => self.page_closed(pane).command_run(
                name@,
                pane,
                keymap,
            ),
            PageOutcome::Spawn(command) => self.asked(RequestView::SpawnCommand(command@)),
            PageOutcome::SpawnEditor(target) => self.asked(
                RequestView::OpenEditor { path: target.path@, line: target.line },
            ),
            PageOutcome::Yank(text) => self.text_yanked(text@),
        }
    }

    /// What becomes of the input that led to what a page asked for.
    pub open spec fn input_use(self, pane: PaneId, outcome: PageOutcome) -> InputUse {
        match outcome {
            PageOutcome::Ignored => InputUse::Declined,
            PageOutcome::Paste => if self.pages.covers(pane) {
                InputUse::Paste
            } else {
                InputUse::Spent
            },
            _ => InputUse::Spent,
        }
    }

    /// With a text of a page copied.
    pub open spec fn text_yanked(self, text: Seq<char>) -> AppView {
        self.with_effect(
            EffectView::Copy {
                text,
                done: "copied "@ + text + ""@,
                failed: Some("clipboard unavailable"@),
            },
        )
    }
}

impl App {
    fn yank_text(&mut self, text: String)
        requires
            old(self).wf(),
        ensures
            final(self).wf(),
            final(self)@ == old(self)@.text_yanked(text@),
    {
        let done = phrase("copied ", text.as_str(), "");
        self.emit(
            Effect::Copy { text, done, failed: Some("clipboard unavailable".to_owned()) },
        );
    }

    /// Do what a page asked for: what becomes of the input that led to it. Where the page
    /// is to be handed what the clipboard holds, what it makes of that is acted on in turn.
    pub fn act_on_page_outcome(
        &mut self,
        pane: PaneId,
        outcome: PageOutcome,
        keymap: &Keymap,
    ) -> (r: InputUse)
        requires
            old(self).wf(),
            old(self)@.has_room(),
        ensures
            final(self).wf(),
            final(self)@ == old(self)@.outcome_done(pane, outcome, *keymap),
            r == old(self)@.input_use(pane, outcome),
    {
        proof {
            reveal(AppView::outcome_done);
        }
        match outcome {
            PageOutcome::CancelJobs => {
                self.give_up_jobs(pane);
                self.redraw();
            },
            PageOutcome::Close => self.close_page(pane),
            PageOutcome::Consumed => self.redraw(),
            PageOutcome::Ignored => {
                return InputUse::Declined;
            },
            PageOutcome::Job(job) => self.begin_job(pane, job),
            PageOutcome::OpenExternal(path) => self.ask(Request::OpenExternal(path)),
            PageOutcome::OpenPath(target) => self.ask(
                Request::OpenPath { path: target.path, line: target.line },
            ),
            PageOutcome::Paste => {
                if self.pages.covers(pane) {
                    return InputUse::Paste;
                }
            },
            PageOutcome::Pick(request) => self.ask_choice(pane, request),
            PageOutcome::Prompt(request) => self.ask_question(pane, request),
            PageOutcome::RunAction(name) => {
                self.close_page(pane);
                self.run_command(name.as_str(), pane, keymap);
            },
            PageOutcome::Spawn(command) => self.ask(Request::SpawnCommand(command)),
            PageOutcome::SpawnEditor(target) => self.ask(
                Request::OpenEditor { path: target.path, line: target.line },
            ),
            PageOutcome::Yank(text) => self.yank_text(text),
        }
        InputUse::Spent
    }

    /// Route a key that what a page draws for itself handed back: it is offered to the page,
    /// and where no page wants it the keymap's `action` is carried out.
    pub fn route_surface_key(
        &mut self,
        pane: PaneId,
        key: &Key,
        action: &Action,
        keymap: &Keymap,
    ) -> (r: Offer)
        requires
            old(self).wf(),
            old(self)@.has_room(),
        ensures
            final(self).wf(),
            r == (if toggles_wrap(*key) {
                Offer::Spent
            } else if old(self)@.pages.covers(pane) {
                Offer::Ask
            } else {
                Offer::Declined
            }),
            final(self)@ == (match r {
                Offer::Spent => (AppView {
                    pages: PagesView { wrap: !old(self)@.pages.wrap, ..old(self)@.pages },
                    ..old(self)@
                }).redrawn(),
                Offer::Ask => old(self)@,
                Offer::Declined => old(self)@.acted(*action, pane, *keymap).redrawn(),
            }),
    {
        let offer = self.offer_key_to_page(pane, key);
        if offer == Offer::Declined {
            self.surface_key_declined(pane, action, keymap);
        }
        offer
    }

    /// Go on with such a key once the page has been asked and has no use for it: the
    /// keymap's `action` is carried out.
    pub fn surface_key_declined(&mut self, pane: PaneId, action: &Action, keymap: &Keymap)
        requires
            old(self).wf(),
            old(self)@.has_room(),
        ensures
            final(self).wf(),
            final(self)@ == old(self)@.acted(*action, pane, *keymap).redrawn(),
    {
        self.handle_action(action, pane, keymap);
        self.redraw();
    }
}

/// A page that runs a command gives its pane back first: what the command does, it does to
/// a pane that the page does not cover any more.
pub proof fn law_a_page_is_gone_before_its_command_runs(
    app: AppView,
    pane: PaneId,
    name: String,
    keymap: Keymap,
)
    requires
        app.pages.below(pane).len() == 0,
    ensures
        !app.page_closed(pane).pages.covers(pane),
        app.outcome_done(pane, PageOutcome::RunAction(name), keymap) == app.page_closed(
            pane,
        ).command_run(name@, pane, keymap),
{
    reveal(AppView::outcome_done);
    reveal(AppView::page_closed);
    reveal(AppView::cursor_stopped);
    reveal(AppView::jobs_given_up);
}

/// A page that asks for the clipboard's text has used nothing yet: nothing changes before
/// what it makes of the text is acted on, and that alone says whether the input was used.
pub proof fn law_a_paste_is_decided_by_the_page(
    app: AppView,
    pane: PaneId,
    answer: PageOutcome,
    keymap: Keymap,
)
    requires
        app.pages.covers(pane),
    ensures
        app.outcome_done(pane, PageOutcome::Paste, keymap) == app,
        app.input_use(pane, PageOutcome::Paste) == InputUse::Paste,
        app.outcome_done(pane, PageOutcome::Paste, keymap).outcome_done(pane, answer, keymap)
            == app.outcome_done(pane, answer, keymap),
        (app.input_use(pane, answer) == InputUse::Declined) == (answer is Ignored),
        answer is Ignored ==> app.outcome_done(pane, answer, keymap) == app,
{
    reveal(AppView::outcome_done);
}

} // verus!
