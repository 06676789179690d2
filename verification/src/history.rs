//! A linear undo history: where a value has been, where it is, and what an undo
//! stepped back over.

use vstd::prelude::*;

verus! {

/// The states of one edited value and the one it is in now.
pub struct EditHistory<T> {
    past: Vec<T>,
    current: T,
    /// The nearest state last.
    future: Vec<T>,
}

/// What an [`EditHistory`] holds.
pub struct HistoryView<T> {
    /// What undo steps back to, the nearest last.
    pub past: Seq<T>,
    pub current: T,
    /// What redo steps forward to, the nearest first.
    pub future: Seq<T>,
}

impl<T> HistoryView<T> {
    /// Forget everything but `current`.
    pub open spec fn started(current: T) -> Self {
        HistoryView { past: Seq::empty(), current, future: Seq::empty() }
    }

    /// A new state, after which nothing is left to redo.
    pub open spec fn recorded(self, next: T) -> Self {
        HistoryView { past: self.past.push(self.current), current: next, future: Seq::empty() }
    }

    /// The current state replaced in place.
    pub open spec fn amended(self, next: T) -> Self {
        HistoryView { past: self.past, current: next, future: self.future }
    }

    /// One step back, when there is one.
    pub open spec fn undone(self) -> Self {
        if self.past.len() == 0 {
            self
        } else {
            HistoryView {
                past: self.past.drop_last(),
                current: self.past.last(),
                future: seq![self.current] + self.future,
            }
        }
    }

    /// One step forward, when there is one.
    pub open spec fn redone(self) -> Self {
        if self.future.len() == 0 {
            self
        } else {
            HistoryView {
                past: self.past.push(self.current),
                current: self.future.first(),
                future: self.future.drop_first(),
            }
        }
    }
}

impl<T> View for EditHistory<T> {
    type V = HistoryView<T>;

    closed spec fn view(&self) -> HistoryView<T> {
        HistoryView {
            past: self.past@,
            current: self.current,
            future: self.future@.reverse(),
        }
    }
}

impl<T> EditHistory<T> {
    /// A history that starts at `initial`.
    pub fn new(initial: T) -> (r: Self)
        ensures
            r@ == HistoryView::started(initial),
    {
        let r = EditHistory { past: Vec::new(), current: initial, future: Vec::new() };
        assert(r@.future =~= Seq::empty());
        r
    }

    /// Start over at `initial`.
    pub fn reset(&mut self, initial: T)
        ensures
            final(self)@ == HistoryView::started(initial),
    {
        *self = EditHistory::new(initial);
    }

    /// The state the value is in.
    pub fn current(&self) -> (r: &T)
        ensures
            *r == self@.current,
    {
        &self.current
    }

    /// Move on to `next`, forgetting what could have been redone.
    pub fn record(&mut self, next: T)
        ensures
            final(self)@ == old(self)@.recorded(next),
    {
        let mut previous = next;
        std::mem::swap(&mut self.current, &mut previous);
        self.past.push(previous);
        self.future.clear();
        assert(self@.future =~= Seq::empty());
    }

    /// Replace the current state with `next`, keeping what lies either side.
    pub fn amend(&mut self, next: T)
        ensures
            final(self)@ == old(self)@.amended(next),
    {
        self.current = next;
    }

    /// Step back. `None` at the oldest state.
    pub fn undo(&mut self) -> (r: Option<&T>)
        ensures
            final(self)@ == old(self)@.undone(),
            match r {
                Some(current) => old(self)@.past.len() > 0 && *current == final(self)@.current,
                None => old(self)@.past.len() == 0,
            },
    {
        match self.past.pop() {
            Some(previous) => {
                let mut state = previous;
                std::mem::swap(&mut self.current, &mut state);
                self.future.push(state);
                assert(self@.future =~= seq![old(self)@.current] + old(self)@.future);
                Some(&self.current)
            },
            None => None,
        }
    }

    /// Step forward. `None` at the newest state.
    pub fn redo(&mut self) -> (r: Option<&T>)
        ensures
            final(self)@ == old(self)@.redone(),
            match r {
                Some(current) => old(self)@.future.len() > 0 && *current == final(self)@.current,
                None => old(self)@.future.len() == 0,
            },
    {
        match self.future.pop() {
            Some(next) => {
                let mut state = next;
                std::mem::swap(&mut self.current, &mut state);
                self.past.push(state);
                assert(self@.future =~= old(self)@.future.drop_first());
                Some(&self.current)
            },
            None => None,
        }
    }
}

/// Undoing a step and redoing it leaves the history as it was.
pub proof fn law_undo_then_redo<T>(h: HistoryView<T>)
    requires
        h.past.len() > 0,
    ensures
        h.undone().redone() == h,
{
    assert(h.past.drop_last().push(h.past.last()) =~= h.past);
    assert((seq![h.current] + h.future).drop_first() =~= h.future);
}

/// Redoing a step and undoing it leaves the history as it was.
pub proof fn law_redo_then_undo<T>(h: HistoryView<T>)
    requires
        h.future.len() > 0,
    ensures
        h.redone().undone() == h,
{
    assert(h.past.push(h.current).drop_last() =~= h.past);
    assert(seq![h.future.first()] + h.future.drop_first() =~= h.future);
}

} // verus!
