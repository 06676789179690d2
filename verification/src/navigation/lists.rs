//! Where the cursor has been: the jump list behind `Ctrl+O` and `Ctrl+I`, and the
//! change list behind `g;` and `g,`.

use vstd::prelude::*;

verus! {

/// How many positions a list keeps; older ones fall off the front.
pub const MAX_LIST_LEN: usize = 100;

/// Recorded positions, oldest first, and how far back a walk through them has
/// gone.
pub struct JumpList {
    entries: Vec<(usize, usize)>,
    /// How far back from the newest entry the walk is; 0 at the live position.
    index: usize,
    /// The live position the walk started from.
    return_pos: Option<(usize, usize)>,
}

/// What a list holds.
#[verifier::ext_equal]
pub struct ListView {
    pub entries: Seq<(usize, usize)>,
    pub index: int,
    pub return_pos: Option<(usize, usize)>,
}

/// The newest [`MAX_LIST_LEN`] entries, given at most one too many.
pub open spec fn capped(entries: Seq<(usize, usize)>) -> Seq<(usize, usize)> {
    if entries.len() > MAX_LIST_LEN {
        entries.drop_first()
    } else {
        entries
    }
}

impl ListView {
    /// The walk is within the list, which is within its limit, and a walk knows
    /// where it started.
    pub open spec fn wf(self) -> bool {
        &&& 0 <= self.index <= self.entries.len() <= MAX_LIST_LEN
        &&& self.index > 0 <==> self.return_pos is Some
    }

    pub open spec fn empty() -> ListView {
        ListView { entries: Seq::empty(), index: 0, return_pos: None }
    }

    /// A new jump: whatever the walk had stepped back past is forgotten.
    pub open spec fn jumped(self, origin: (usize, usize)) -> ListView {
        ListView {
            entries: capped(
                self.entries.take(self.entries.len() - self.index).push(origin),
            ),
            index: 0,
            return_pos: None,
        }
    }

    /// A new change: the log grows, unless the change is where the last one was,
    /// and the walk is over.
    pub open spec fn logged(self, pos: (usize, usize)) -> ListView {
        ListView {
            entries: if self.entries.len() > 0 && self.entries.last() == pos {
                self.entries
            } else {
                capped(self.entries.push(pos))
            },
            index: 0,
            return_pos: None,
        }
    }

    /// Whether there is an older entry to step to.
    pub open spec fn has_older(self) -> bool {
        self.index < self.entries.len()
    }

    /// The entry one step back.
    pub open spec fn older_entry(self) -> (usize, usize) {
        self.entries[self.entries.len() - self.index - 1]
    }

    /// One step back from the live position `live`, or further back.
    pub open spec fn stepped_older(self, live: (usize, usize)) -> ListView {
        if self.has_older() {
            ListView {
                index: self.index + 1,
                return_pos: if self.index == 0 {
                    Some(live)
                } else {
                    self.return_pos
                },
                ..self
            }
        } else {
            self
        }
    }

    /// Where one step forward lands: the next entry, or at last the position the
    /// walk started from.
    pub open spec fn newer_entry(self) -> Option<(usize, usize)> {
        if self.index == 0 {
            None
        } else if self.index == 1 {
            self.return_pos
        } else {
            Some(self.entries[self.entries.len() - self.index + 1])
        }
    }

    /// One step forward.
    pub open spec fn stepped_newer(self) -> ListView {
        if self.index == 0 {
            self
        } else {
            ListView {
                index: self.index - 1,
                return_pos: if self.index == 1 {
                    None
                } else {
                    self.return_pos
                },
                ..self
            }
        }
    }

    /// `n` steps back.
    pub open spec fn walked_back(self, live: (usize, usize), n: nat) -> ListView
        decreases n,
    {
        if n == 0 {
            self
        } else {
            self.walked_back(live, (n - 1) as nat).stepped_older(live)
        }
    }

    /// `n` steps forward.
    pub open spec fn walked_forward(self, n: nat) -> ListView
        decreases n,
    {
        if n == 0 {
            self
        } else {
            self.stepped_newer().walked_forward((n - 1) as nat)
        }
    }
}

impl View for JumpList {
    type V = ListView;

    closed spec fn view(&self) -> ListView {
        ListView {
            entries: self.entries@,
            index: self.index as int,
            return_pos: self.return_pos,
        }
    }
}

/// An empty list.
impl Default for JumpList {
    fn default() -> (r: Self)
        ensures
            r@ == ListView::empty(),
            r@.wf(),
    {
        JumpList { entries: Vec::new(), index: 0, return_pos: None }
    }
}

impl JumpList {
    /// Record `origin` as the newest jump origin. A jump made while stepped back
    /// forgets what had been stepped back past.
    pub fn push(&mut self, origin: (usize, usize))
        requires
            old(self)@.wf(),
        ensures
            final(self)@ == old(self)@.jumped(origin),
            final(self)@.wf(),
    {
        if self.index > 0 {
            let keep: usize = self.entries.len() - self.index;
            self.entries.truncate(keep);
            self.index = 0;
            self.return_pos = None;
        }
        assert(self.entries@ =~= old(self)@.entries.take(
            old(self)@.entries.len() - old(self)@.index,
        ));
        self.entries.push(origin);
        if self.entries.len() > MAX_LIST_LEN {
            let ghost full = self.entries@;
            self.entries.remove(0);
            assert(self.entries@ =~= full.drop_first());
        }
    }

    /// The entry one step back, or `None` when already at the oldest. `live` is
    /// the position the walk starts from, to come back to.
    pub fn older(&mut self, live: (usize, usize)) -> (r: Option<(usize, usize)>)
        requires
            old(self)@.wf(),
        ensures
            final(self)@ == old(self)@.stepped_older(live),
            final(self)@.wf(),
            r == (if old(self)@.has_older() {
                Some(old(self)@.older_entry())
            } else {
                None
            }),
    {
        if self.index >= self.entries.len() {
            return None;
        }
        if self.index == 0 {
            self.return_pos = Some(live);
        }
        self.index = self.index + 1;
        Some(self.entries[self.entries.len() - self.index])
    }

    /// The entry one step forward, or the position the walk started from once it
    /// is exhausted. `None` when already there.
    pub fn newer(&mut self) -> (r: Option<(usize, usize)>)
        requires
            old(self)@.wf(),
        ensures
            final(self)@ == old(self)@.stepped_newer(),
            final(self)@.wf(),
            r == old(self)@.newer_entry(),
    {
        if self.index == 0 {
            return None;
        }
        self.index = self.index - 1;
        if self.index == 0 {
            self.return_pos.take()
        } else {
            Some(self.entries[self.entries.len() - self.index])
        }
    }
}

/// Where recorded changes began: a log that is only ever added to, walked as a
/// [`JumpList`] is.
pub struct ChangeList(JumpList);

impl View for ChangeList {
    type V = ListView;

    closed spec fn view(&self) -> ListView {
        self.0@
    }
}

/// An empty log.
impl Default for ChangeList {
    fn default() -> (r: Self)
        ensures
            r@ == ListView::empty(),
            r@.wf(),
    {
        ChangeList(JumpList::default())
    }
}

impl ChangeList {
    /// Record `pos` as the newest change, unless the newest is already there, and
    /// end the walk.
    pub fn push(&mut self, pos: (usize, usize))
        requires
            old(self)@.wf(),
        ensures
            final(self)@ == old(self)@.logged(pos),
            final(self)@.wf(),
    {
        let n: usize = self.0.entries.len();
        let same: bool = if n > 0 {
            let last: (usize, usize) = self.0.entries[n - 1];
            last.0 == pos.0 && last.1 == pos.1
        } else {
            false
        };
        if !same {
            self.0.entries.push(pos);
            if self.0.entries.len() > MAX_LIST_LEN {
                let ghost full = self.0.entries@;
                self.0.entries.remove(0);
                assert(self.0.entries@ =~= full.drop_first());
            }
        }
        self.0.index = 0;
        self.0.return_pos = None;
    }

    /// The entry one step back.
    pub fn older(&mut self, live: (usize, usize)) -> (r: Option<(usize, usize)>)
        requires
            old(self)@.wf(),
        ensures
            final(self)@ == old(self)@.stepped_older(live),
            final(self)@.wf(),
            r == (if old(self)@.has_older() {
                Some(old(self)@.older_entry())
            } else {
                None
            }),
    {
        self.0.older(live)
    }

    /// The entry one step forward.
    pub fn newer(&mut self) -> (r: Option<(usize, usize)>)
        requires
            old(self)@.wf(),
        ensures
            final(self)@ == old(self)@.stepped_newer(),
            final(self)@.wf(),
            r == old(self)@.newer_entry(),
    {
        self.0.newer()
    }
}

// ------------------------------------------------------------------------
// Laws
// ------------------------------------------------------------------------

/// A step forward undoes a step back.
pub proof fn law_newer_undoes_older(list: ListView, live: (usize, usize))
    requires
        list.wf(),
        list.has_older(),
    ensures
        list.stepped_older(live).stepped_newer() == list,
        list.index == 0 ==> list.stepped_older(live).newer_entry() == Some(live),
        list.index > 0 ==> list.stepped_older(live).newer_entry() == Some(
            list.entries[list.entries.len() - list.index],
        ),
{
}

/// Walking back any number of steps and forward as many returns to the live
/// position, with the list as it was.
pub proof fn law_walk_returns(list: ListView, live: (usize, usize), n: nat)
    requires
        list.wf(),
        list.index + n <= list.entries.len(),
    ensures
        list.walked_back(live, n).walked_forward(n) == list,
        list.walked_back(live, n).wf(),
        list.walked_back(live, n).index == list.index + n,
        list.walked_back(live, n).entries == list.entries,
    decreases n,
{
    if n > 0 {
        let m = (n - 1) as nat;
        law_walk_returns(list, live, m);
        law_newer_undoes_older(list.walked_back(live, m), live);
    }
}

/// The first step forward of a walk that began at the live position leads, in the
/// end, back to it.
pub proof fn law_walk_ends_at_the_live_position(list: ListView, live: (usize, usize), n: nat)
    requires
        list.wf(),
        list.index == 0,
        0 < n <= list.entries.len(),
    ensures
        list.walked_back(live, n).return_pos == Some(live),
        list.walked_back(live, n).walked_forward((n - 1) as nat).newer_entry() == Some(live),
    decreases n,
{
    let m = (n - 1) as nat;
    law_walk_returns(list, live, n);
    if n > 1 {
        law_walk_ends_at_the_live_position(list, live, m);
        law_walk_returns(list, live, m);
        law_newer_undoes_older(list.walked_back(live, m), live);
        assert(list.walked_back(live, n).walked_forward(m) == list.walked_back(
            live,
            m,
        ).walked_forward((m - 1) as nat));
    } else {
        assert(list.walked_back(live, 0) == list);
    }
}

/// A jump from the past forgets the abandoned future: nothing stepped back past is
/// left, and the newest entry is the new one.
pub proof fn law_a_jump_forks(list: ListView, origin: (usize, usize))
    requires
        list.wf(),
    ensures
        list.jumped(origin).entries.last() == origin,
        list.jumped(origin).entries.len() <= list.entries.len() - list.index + 1,
        list.jumped(origin).index == 0,
{
}

/// A change made in the past keeps every entry of the log, but for the oldest of a
/// full one.
pub proof fn law_a_change_appends(list: ListView, pos: (usize, usize), i: int)
    requires
        list.wf(),
        0 <= i < list.entries.len(),
        i > 0 || list.entries.len() < MAX_LIST_LEN,
    ensures
        list.logged(pos).entries.contains(list.entries[i]),
        list.logged(pos).entries.last() == pos,
{
    let after = list.logged(pos).entries;
    if list.entries.last() == pos {
        assert(after[i] == list.entries[i]);
    } else if list.entries.len() < MAX_LIST_LEN {
        assert(after[i] == list.entries[i]);
    } else {
        assert(after[i - 1] == list.entries[i]);
    }
}

/// No list grows past its limit.
pub proof fn law_lists_are_bounded(list: ListView, pos: (usize, usize))
    requires
        list.wf(),
    ensures
        list.jumped(pos).entries.len() <= MAX_LIST_LEN,
        list.logged(pos).entries.len() <= MAX_LIST_LEN,
{
}

} // verus!
