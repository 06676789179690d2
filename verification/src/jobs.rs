//! Slow work done beside the event loop: who asked for what, which answers are still
//! wanted, and what the work makes of the files it reads.

use vstd::prelude::*;
use crate::input::PaneId;
use crate::text::{chars_of, lowered, same_chars, string_of, string_of_range, text_stop};

verus! {

// ------------------------------------------------------------------------
// Requests and replies
// ------------------------------------------------------------------------

/// A program to run to its end.
#[derive(Debug)]
pub struct CommandRequest {
    pub args: Vec<String>,
    pub cwd: String,
    pub program: String,
    pub stdin: Option<String>,
    pub tag: String,
}

/// A text to look for, ignoring case, in the files under a directory.
#[derive(Debug)]
pub struct SearchRequest {
    pub query: String,
    pub root: String,
}

/// What a page asks to have done.
#[derive(Debug)]
pub enum JobRequest {
    Command(CommandRequest),
    /// The bytes under a directory.
    DirSize(String),
    /// What each of some files holds.
    ReadFiles(Vec<String>),
    Search(SearchRequest),
}

/// How a program ended, and what it wrote.
#[derive(Debug)]
pub struct CommandOutput {
    pub code: Option<i32>,
    pub stderr: String,
    pub stdout: String,
    pub tag: String,
}

/// A line that holds what was looked for.
#[derive(Debug)]
pub struct SearchHit {
    /// Counted from one.
    pub line: usize,
    pub path: String,
    pub text: String,
}

/// The lines that hold what was looked for, as many as are kept.
#[derive(Debug)]
pub struct SearchResult {
    pub hits: Vec<SearchHit>,
    pub query: String,
    /// Whether there were more.
    pub truncated: bool,
}

/// The answer to a [`JobRequest`].
#[derive(Debug)]
pub enum JobReply {
    Command(CommandOutput),
    DirSize { bytes: u64, path: String },
    Files(Vec<(String, String)>),
    Search(SearchResult),
}

// ------------------------------------------------------------------------
// Running jobs
// ------------------------------------------------------------------------

/// How many jobs run at once. A request past that is dropped and not kept for later: by
/// then it would ask about a screen that is gone.
pub const MAX_IN_FLIGHT: usize = 16;

/// A job whose answer is wanted: its number, and the pane that asked.
#[derive(Clone, Copy, Debug, PartialEq, Eq, Structural)]
pub struct RunningJob {
    pub id: u64,
    pub pane: PaneId,
}

/// An answer that has come in.
#[derive(Debug)]
pub struct Finished {
    pub id: u64,
    pub pane: PaneId,
    pub reply: JobReply,
}

/// The jobs whose answers are wanted.
pub struct Jobs {
    next_id: u64,
    running: Vec<RunningJob>,
}

/// The jobs whose answers are wanted.
pub struct JobsView {
    pub next_id: u64,
    pub running: Seq<RunningJob>,
}

impl View for Jobs {
    type V = JobsView;

    closed spec fn view(&self) -> JobsView {
        JobsView { next_id: self.next_id, running: self.running@ }
    }
}

/// Where the job numbered `id` is among `running`, or their number.
pub open spec fn job_at(running: Seq<RunningJob>, id: u64, i: int) -> int
    decreases running.len() - i,
{
    if 0 <= i < running.len() && running[i].id != id {
        job_at(running, id, i + 1)
    } else {
        i
    }
}

/// The jobs of `running` that `pane` did not ask for.
pub open spec fn jobs_without(running: Seq<RunningJob>, pane: PaneId) -> Seq<RunningJob>
    decreases running.len(),
{
    if running.len() == 0 {
        running
    } else {
        let rest = jobs_without(running.drop_last(), pane);
        if running.last().pane == pane {
            rest
        } else {
            rest.push(running.last())
        }
    }
}

/// The numbers of the jobs of `running` that `pane` asked for.
pub open spec fn jobs_of(running: Seq<RunningJob>, pane: PaneId) -> Seq<u64>
    decreases running.len(),
{
    if running.len() == 0 {
        Seq::empty()
    } else {
        let rest = jobs_of(running.drop_last(), pane);
        if running.last().pane == pane {
            rest.push(running.last().id)
        } else {
            rest
        }
    }
}

impl JobsView {
    /// Every job has a number of its own, given out before, and there are not too many.
    pub open spec fn wf(self) -> bool {
        &&& self.running.len() <= MAX_IN_FLIGHT
        &&& forall|i: int| 0 <= i < self.running.len() ==> (#[trigger] self.running[i]).id
            < self.next_id
        &&& forall|i: int, j: int|
            0 <= i < j < self.running.len() ==> (#[trigger] self.running[i]).id
                != (#[trigger] self.running[j]).id
    }

    /// With a job started for `pane`.
    pub open spec fn started(self, pane: PaneId) -> JobsView {
        if self.running.len() >= MAX_IN_FLIGHT {
            self
        } else {
            JobsView {
                next_id: (self.next_id + 1) as u64,
                running: self.running.push(RunningJob { id: self.next_id, pane }),
            }
        }
    }

    /// With the jobs of `pane` given up.
    pub open spec fn cancelled(self, pane: PaneId) -> JobsView {
        JobsView { running: jobs_without(self.running, pane), ..self }
    }

    /// Whether the answer numbered `id` is wanted.
    pub open spec fn wants(self, id: u64) -> bool {
        job_at(self.running, id, 0) < self.running.len()
    }

    /// With the answer numbered `id` received.
    pub open spec fn received(self, id: u64) -> JobsView {
        if self.wants(id) {
            JobsView { running: self.running.remove(job_at(self.running, id, 0)), ..self }
        } else {
            self
        }
    }

    /// With the first `n` of `finished` received.
    pub open spec fn drained(self, finished: Seq<Finished>, n: int) -> JobsView
        decreases n,
    {
        if n <= 0 {
            self
        } else {
            self.drained(finished, n - 1).received(finished[n - 1].id)
        }
    }

    /// Of the first `n` of `finished`, those that are wanted, for those who asked.
    pub open spec fn answers(self, finished: Seq<Finished>, n: int) -> Seq<(PaneId, JobReply)>
        decreases n,
    {
        if n <= 0 {
            Seq::empty()
        } else {
            let rest = self.answers(finished, n - 1);
            if self.drained(finished, n - 1).wants(finished[n - 1].id) {
                rest.push((finished[n - 1].pane, finished[n - 1].reply))
            } else {
                rest
            }
        }
    }
}

proof fn lemma_job_at(running: Seq<RunningJob>, id: u64, i: int)
    requires
        0 <= i <= running.len(),
    ensures
        i <= job_at(running, id, i) <= running.len(),
        job_at(running, id, i) < running.len() ==> running[job_at(running, id, i)].id == id,
        forall|j: int| i <= j < job_at(running, id, i) ==> (#[trigger] running[j]).id != id,
    decreases running.len() - i,
{
    if i < running.len() && running[i].id != id {
        lemma_job_at(running, id, i + 1);
    }
}

proof fn lemma_jobs_without(running: Seq<RunningJob>, pane: PaneId)
    ensures
        jobs_without(running, pane).len() <= running.len(),
        forall|i: int|
            0 <= i < jobs_without(running, pane).len() ==> (#[trigger] jobs_without(running, pane)[i]).pane
                != pane && running.contains(jobs_without(running, pane)[i]),
        forall|i: int|
            0 <= i < running.len() && (#[trigger] running[i]).pane != pane ==> jobs_without(
                running,
                pane,
            ).contains(running[i]),
    decreases running.len(),
{
    if running.len() > 0 {
        let rest = running.drop_last();
        let kept = jobs_without(rest, pane);
        lemma_jobs_without(rest, pane);
        let all = jobs_without(running, pane);
        assert forall|i: int| 0 <= i < all.len() implies (#[trigger] all[i]).pane != pane
            && running.contains(all[i]) by {
            if i < kept.len() {
                assert(all[i] == kept[i]);
                let j = choose|j: int| 0 <= j < rest.len() && rest[j] == kept[i];
                assert(running[j] == all[i]);
            } else {
                assert(running[running.len() - 1] == all[i]);
            }
        }
        assert forall|i: int| 0 <= i < running.len() && (#[trigger] running[i]).pane
            != pane implies all.contains(running[i]) by {
            if i < rest.len() {
                assert(rest[i] == running[i]);
                let j = choose|j: int| 0 <= j < kept.len() && kept[j] == rest[i];
                assert(all[j] == running[i]);
            } else {
                assert(all[all.len() - 1] == running[i]);
            }
        }
    }
}

proof fn lemma_jobs_without_order(running: Seq<RunningJob>, pane: PaneId)
    requires
        forall|i: int, j: int|
            0 <= i < j < running.len() ==> (#[trigger] running[i]).id != (#[trigger] running[j]).id,
    ensures
        forall|i: int, j: int|
            0 <= i < j < jobs_without(running, pane).len() ==> (#[trigger] jobs_without(
                running,
                pane,
            )[i]).id != (#[trigger] jobs_without(running, pane)[j]).id,
    decreases running.len(),
{
    if running.len() > 0 {
        let rest = running.drop_last();
        assert forall|i: int, j: int| 0 <= i < j < rest.len() implies (#[trigger] rest[i]).id != (
        #[trigger] rest[j]).id by {
            assert(rest[i] == running[i] && rest[j] == running[j]);
        }
        lemma_jobs_without_order(rest, pane);
        lemma_jobs_without(rest, pane);
        let kept = jobs_without(rest, pane);
        let all = jobs_without(running, pane);
        assert forall|i: int, j: int| 0 <= i < j < all.len() implies (#[trigger] all[i]).id != (
        #[trigger] all[j]).id by {
            assert(all[i] == kept[i]);
            if j < kept.len() {
                assert(all[j] == kept[j]);
            } else {
                let k = choose|k: int| 0 <= k < rest.len() && rest[k] == kept[i];
                assert(running[k] == rest[k]);
                assert(all[j] == running[running.len() - 1]);
            }
        }
    }
}

/// What is kept in order stays so when the jobs of a pane are given up.
proof fn lemma_cancelled_wf(jobs: JobsView, pane: PaneId)
    requires
        jobs.wf(),
    ensures
        jobs.cancelled(pane).wf(),
{
    lemma_jobs_without(jobs.running, pane);
    lemma_jobs_without_order(jobs.running, pane);
    let kept = jobs_without(jobs.running, pane);
    assert forall|i: int| 0 <= i < kept.len() implies (#[trigger] kept[i]).id < jobs.next_id by {
        let j = choose|j: int| 0 <= j < jobs.running.len() && jobs.running[j] == kept[i];
        assert(jobs.running[j].id < jobs.next_id);
    }
}

proof fn lemma_received_wf(jobs: JobsView, id: u64)
    requires
        jobs.wf(),
    ensures
        jobs.received(id).wf(),
        !jobs.received(id).wants(id),
{
    lemma_job_at(jobs.running, id, 0);
    if jobs.wants(id) {
        let at = job_at(jobs.running, id, 0);
        let left = jobs.running.remove(at);
        assert forall|i: int| 0 <= i < left.len() implies (#[trigger] left[i]).id < jobs.next_id
            && left[i].id != id by {
            if i < at {
                assert(left[i] == jobs.running[i]);
            } else {
                assert(left[i] == jobs.running[i + 1]);
            }
        }
        assert forall|i: int, j: int| 0 <= i < j < left.len() implies (#[trigger] left[i]).id != (
        #[trigger] left[j]).id by {
            assert(left[i] == jobs.running[if i < at {
                i
            } else {
                i + 1
            }]);
            assert(left[j] == jobs.running[if j < at {
                j
            } else {
                j + 1
            }]);
        }
        lemma_job_at(left, id, 0);
    }
}

impl Jobs {
    /// What is kept is in order.
    pub open spec fn wf(self) -> bool {
        self@.wf()
    }

    /// Nothing running.
    pub fn new() -> (r: Jobs)
        ensures
            r.wf(),
            r@ == (JobsView { next_id: 0, running: Seq::empty() }),
    {
        Jobs { next_id: 0, running: Vec::new() }
    }

    /// Whether an answer is still wanted.
    pub fn is_busy(&self) -> (r: bool)
        ensures
            r == (self@.running.len() > 0),
    {
        self.running.len() > 0
    }

    /// How many answers are still wanted.
    pub fn in_flight(&self) -> (r: usize)
        ensures
            r == self@.running.len(),
    {
        self.running.len()
    }

    /// Whether there is a number left for another job.
    pub fn has_number_left(&self) -> (r: bool)
        ensures
            r == (self@.next_id < u64::MAX),
    {
        self.next_id < u64::MAX
    }

    /// Start a job for `pane`: its number, or nothing when too many are running.
    pub fn spawn(&mut self, pane: PaneId) -> (r: Option<u64>)
        requires
            old(self).wf(),
            old(self)@.next_id < u64::MAX,
        ensures
            final(self).wf(),
            final(self)@ == old(self)@.started(pane),
            r == (if old(self)@.running.len() >= MAX_IN_FLIGHT {
                None
            } else {
                Some(old(self)@.next_id)
            }),
    {
        if self.running.len() >= MAX_IN_FLIGHT {
            return None;
        }
        let id: u64 = self.next_id;
        self.next_id = id + 1;
        self.running.push(RunningJob { id, pane });
        Some(id)
    }

    /// Give up every job of `pane`: the numbers of those that are to stop. Their answers
    /// are not wanted any more.
    pub fn cancel_for(&mut self, pane: PaneId) -> (r: Vec<u64>)
        requires
            old(self).wf(),
        ensures
            final(self).wf(),
            final(self)@ == old(self)@.cancelled(pane),
            r@ == jobs_of(old(self)@.running, pane),
    {
        let ghost all = self.running@;
        let mut kept: Vec<RunningJob> = Vec::new();
        let mut stopped: Vec<u64> = Vec::new();
        let mut i: usize = 0;
        assert(all.take(0) =~= Seq::empty());
        while i < self.running.len()
            invariant
                all == self.running@,
                self.next_id == old(self)@.next_id,
                i <= all.len(),
                kept@ == jobs_without(all.take(i as int), pane),
                stopped@ == jobs_of(all.take(i as int), pane),
            decreases all.len() - i,
        {
            let job = self.running[i];
            assert(all.take(i + 1).drop_last() =~= all.take(i as int));
            if job.pane == pane {
                stopped.push(job.id);
            } else {
                kept.push(job);
            }
            i = i + 1;
        }
        assert(all.take(i as int) =~= all);
        self.running = kept;
        proof {
            lemma_cancelled_wf(old(self)@, pane);
        }
        stopped
    }

    /// Take the answer numbered `id`: whether it was wanted.
    fn receive(&mut self, id: u64) -> (r: bool)
        requires
            old(self).wf(),
        ensures
            final(self).wf(),
            final(self)@ == old(self)@.received(id),
            r == old(self)@.wants(id),
    {
        proof {
            lemma_received_wf(self@, id);
            lemma_job_at(self.running@, id, 0);
        }
        let ghost all = self.running@;
        let mut i: usize = 0;
        while i < self.running.len() && self.running[i].id != id
            invariant
                all == self.running@,
                *self == *old(self),
                i <= all.len(),
                job_at(all, id, i as int) == job_at(all, id, 0),
            decreases all.len() - i,
        {
            i = i + 1;
        }
        if i < self.running.len() {
            self.running.remove(i);
            true
        } else {
            false
        }
    }

    /// Of the answers that have come in, those that are still wanted, for those who
    /// asked.
    pub fn drain(&mut self, finished: Vec<Finished>) -> (r: Vec<(PaneId, JobReply)>)
        requires
            old(self).wf(),
        ensures
            final(self).wf(),
            final(self)@ == old(self)@.drained(finished@, finished@.len() as int),
            r@ == old(self)@.answers(finished@, finished@.len() as int),
    {
        let ghost all = finished@;
        let ghost start = self@;
        let mut left = finished;
        let mut done: Vec<(PaneId, JobReply)> = Vec::new();
        let ghost mut n: int = 0;
        assert(all.skip(0) =~= all);
        while left.len() > 0
            invariant
                self.wf(),
                0 <= n <= all.len(),
                left@ == all.skip(n),
                self@ == start.drained(all, n),
                done@ == start.answers(all, n),
            decreases left@.len(),
        {
            let next = left.remove(0);
            assert(next == all[n]);
            assert(all.skip(n).remove(0) =~= all.skip(n + 1));
            if self.receive(next.id) {
                done.push((next.pane, next.reply));
            }
            proof {
                n = n + 1;
            }
        }
        assert(n == all.len());
        done
    }
}

/// There are never more than so many jobs running, whatever is asked for.
pub proof fn law_requests_past_the_limit_are_dropped(jobs: JobsView, pane: PaneId)
    requires
        jobs.wf(),
    ensures
        jobs.started(pane).running.len() <= MAX_IN_FLIGHT,
        jobs.running.len() == MAX_IN_FLIGHT ==> jobs.started(pane) == jobs,
{
}

/// A job that was given up is not reported: no answer to it is wanted, though it comes.
pub proof fn law_a_cancelled_job_is_not_reported(jobs: JobsView, pane: PaneId, i: int)
    requires
        jobs.wf(),
        0 <= i < jobs.running.len(),
        jobs.running[i].pane == pane,
    ensures
        !jobs.cancelled(pane).wants(jobs.running[i].id),
{
    let id = jobs.running[i].id;
    let kept = jobs_without(jobs.running, pane);
    lemma_jobs_without(jobs.running, pane);
    lemma_job_at(kept, id, 0);
    let at = job_at(kept, id, 0);
    if at < kept.len() {
        let j = choose|j: int| 0 <= j < jobs.running.len() && jobs.running[j] == kept[at];
        assert(jobs.running[j].id == id);
        assert(j == i);
        assert(kept[at].pane != pane);
    }
}

/// To give up the jobs of one pane is to leave those of another running.
pub proof fn law_cancelling_one_pane_leaves_another_running(
    jobs: JobsView,
    pane: PaneId,
    i: int,
)
    requires
        jobs.wf(),
        0 <= i < jobs.running.len(),
        jobs.running[i].pane != pane,
    ensures
        jobs.cancelled(pane).wants(jobs.running[i].id),
{
    let id = jobs.running[i].id;
    let kept = jobs_without(jobs.running, pane);
    lemma_jobs_without(jobs.running, pane);
    lemma_job_at(kept, id, 0);
    let j = choose|j: int| 0 <= j < kept.len() && kept[j] == jobs.running[i];
    assert(kept[j].id == id);
}

/// An answer is reported once: when it has been received it is not wanted again.
pub proof fn law_an_answer_is_taken_once(jobs: JobsView, id: u64)
    requires
        jobs.wf(),
    ensures
        !jobs.received(id).wants(id),
{
    lemma_received_wf(jobs, id);
}

// ------------------------------------------------------------------------
// Files
// ------------------------------------------------------------------------

/// What is under a name in a directory: another directory, a file with its text when it
/// has one, or a link, which is not followed.
#[derive(Debug)]
pub enum Node {
    Dir(Vec<(String, Node)>),
    File { bytes: u64, text: Option<String> },
    Link { bytes: u64 },
}

/// How deep the size of a directory is walked.
pub const SIZE_MAX_DEPTH: usize = 64;

/// The bytes under a directory, those below the deepest level walked aside.
pub open spec fn dir_size(entries: Seq<(String, Node)>, n: int, depth: int) -> int
    decreases SIZE_MAX_DEPTH - depth, n,
{
    if n <= 0 || depth >= SIZE_MAX_DEPTH {
        0
    } else {
        dir_size(entries, n - 1, depth) + (match entries[n - 1].1 {
            Node::Dir(sub) => if depth + 1 < SIZE_MAX_DEPTH {
                dir_size(sub@, sub@.len() as int, depth + 1)
            } else {
                0
            },
            Node::File { bytes, text } => bytes as int,
            Node::Link { bytes } => bytes as int,
        })
    }
}

proof fn lemma_dir_size(entries: Seq<(String, Node)>, m: int, n: int, depth: int)
    requires
        m <= n,
    ensures
        0 <= dir_size(entries, m, depth) <= dir_size(entries, n, depth),
    decreases SIZE_MAX_DEPTH - depth, n,
{
    if n > 0 && depth < SIZE_MAX_DEPTH {
        if m == n {
            lemma_dir_size(entries, n - 1, n - 1, depth);
        } else {
            lemma_dir_size(entries, m, n - 1, depth);
        }
        if let Node::Dir(sub) = entries[n - 1].1 {
            if depth + 1 < SIZE_MAX_DEPTH {
                lemma_dir_size(sub@, sub@.len() as int, sub@.len() as int, depth + 1);
            }
        }
    }
}

/// The bytes under a directory. A link counts for itself.
pub fn walk_size(entries: &Vec<(String, Node)>, depth: usize) -> (r: u64)
    requires
        dir_size(entries@, entries@.len() as int, depth as int) <= u64::MAX,
    ensures
        r == dir_size(entries@, entries@.len() as int, depth as int),
    decreases SIZE_MAX_DEPTH - depth,
{
    if depth >= SIZE_MAX_DEPTH {
        return 0;
    }
    let mut total: u64 = 0;
    let mut i: usize = 0;
    while i < entries.len()
        invariant
            i <= entries@.len(),
            depth < SIZE_MAX_DEPTH,
            dir_size(entries@, entries@.len() as int, depth as int) <= u64::MAX,
            total == dir_size(entries@, i as int, depth as int),
        decreases entries@.len() - i,
    {
        proof {
            lemma_dir_size(entries@, i + 1, entries@.len() as int, depth as int);
            lemma_dir_size(entries@, i as int, i as int, depth as int);
        }
        match &entries[i].1 {
            Node::Dir(sub) => {
                if depth + 1 < SIZE_MAX_DEPTH {
                    total = total + walk_size(sub, depth + 1);
                }
            },
            Node::File { bytes, .. } => {
                total = total + *bytes;
            },
            Node::Link { bytes } => {
                total = total + *bytes;
            },
        }
        i = i + 1;
    }
    total
}

// ------------------------------------------------------------------------
// Searching
// ------------------------------------------------------------------------

/// How many lines a search keeps.
pub const SEARCH_MAX_HITS: usize = 500;

/// How much of a line a search keeps.
pub const SEARCH_MAX_LINE: usize = 300;

/// The largest file a search reads, in bytes.
pub const SEARCH_MAX_FILE_BYTES: u64 = 1048576;

/// How deep a search goes.
pub const SEARCH_MAX_DEPTH: usize = 32;

/// The directories that no search enters: what a version-control system keeps for
/// itself, and what a build makes.
pub open spec fn skipped_dir(name: Seq<char>) -> bool {
    name == ".git"@ || name == ".hg"@ || name == ".svn"@ || name == "node_modules"@ || name
        == "target"@
}

/// Whether a directory is one that no search enters.
pub fn is_skipped_dir(name: &str) -> (r: bool)
    ensures
        r == skipped_dir(name@),
{
    crate::text::same_text(name, ".git") || crate::text::same_text(name, ".hg")
        || crate::text::same_text(name, ".svn") || crate::text::same_text(name, "node_modules")
        || crate::text::same_text(name, "target")
}

/// What a search has found, by its contents.
pub struct FoundView {
    pub hits: Seq<(int, Seq<char>, Seq<char>)>,
    pub query: Seq<char>,
    pub truncated: bool,
}

/// Hits by their contents.
pub open spec fn hit_views(hits: Seq<SearchHit>) -> Seq<(int, Seq<char>, Seq<char>)> {
    Seq::new(hits.len(), |i: int| (hits[i].line as int, hits[i].path@, hits[i].text@))
}

impl View for SearchResult {
    type V = FoundView;

    open spec fn view(&self) -> FoundView {
        FoundView { hits: hit_views(self.hits@), query: self.query@, truncated: self.truncated }
    }
}

/// Whether `needle` stands at `at` in `text`.
pub open spec fn stands_at(text: Seq<char>, needle: Seq<char>, at: int) -> bool {
    0 <= at && at + needle.len() <= text.len() && text.subrange(at, at + needle.len()) == needle
}

/// Whether `needle` stands somewhere in `text`.
pub open spec fn holds(text: Seq<char>, needle: Seq<char>) -> bool {
    exists|at: int| stands_at(text, needle, at)
}

/// Whether `needle` stands somewhere in `text`.
pub fn contains_text(text: &Vec<char>, needle: &Vec<char>) -> (r: bool)
    ensures
        r == holds(text@, needle@),
{
    let total: usize = text.len();
    let length: usize = needle.len();
    if length > total {
        return false;
    }
    if length == 0 {
        assert(text@.subrange(0, 0) =~= needle@);
        assert(stands_at(text@, needle@, 0));
        return true;
    }
    let mut at: usize = 0;
    while at <= total - length
        invariant
            total == text@.len(),
            length == needle@.len(),
            0 < length <= total,
            at <= total - length + 1,
            forall|i: int| 0 <= i < at ==> !#[trigger] stands_at(text@, needle@, i),
        decreases total - length + 1 - at,
    {
        let piece = crate::text::chars_range(text, at, at + length);
        if same_chars(&piece, needle) {
            assert(stands_at(text@, needle@, at as int));
            return true;
        }
        assert(!stands_at(text@, needle@, at as int));
        at = at + 1;
    }
    false
}

/// Where the line that starts at `i` ends: at its line feed, or at the end of the text.
pub open spec fn line_stop(text: Seq<char>, i: int) -> int
    decreases text.len() - i,
{
    if 0 <= i < text.len() && text[i] != '\n' {
        line_stop(text, i + 1)
    } else {
        i
    }
}

/// Where a line ends is within the text.
pub proof fn lemma_line_stop(text: Seq<char>, i: int)
    requires
        0 <= i <= text.len(),
    ensures
        i <= line_stop(text, i) <= text.len(),
        i < text.len() ==> i < line_next(text, i) <= text.len(),
    decreases text.len() - i,
{
    if i < text.len() && text[i] != '\n' {
        lemma_line_stop(text, i + 1);
    }
}

/// Where the line after the one that starts at `i` starts.
pub open spec fn line_next(text: Seq<char>, i: int) -> int {
    if line_stop(text, i) < text.len() {
        line_stop(text, i) + 1
    } else {
        text.len() as int
    }
}

/// The line that starts at `i`, without its line feed and a carriage return before that.
pub open spec fn line_at(text: Seq<char>, i: int) -> Seq<char> {
    let stop = line_stop(text, i);
    if stop < text.len() && stop > i && text[stop - 1] == '\r' {
        text.subrange(i, stop - 1)
    } else {
        text.subrange(i, stop)
    }
}

/// What is kept of a line: as much as is kept, of it without the white space at its end.
pub open spec fn kept_line(line: Seq<char>) -> Seq<char> {
    let stop = text_stop(line, line.len() as int);
    line.take(if stop <= SEARCH_MAX_LINE {
        stop
    } else {
        SEARCH_MAX_LINE as int
    })
}

/// What is found once the lines of `text` from `i` on, the first of them the line
/// numbered `number`, have been gone through for `needle`. Past so many there is no
/// looking on.
pub open spec fn file_found(
    text: Seq<char>,
    i: int,
    number: int,
    path: Seq<char>,
    needle: Seq<char>,
    found: FoundView,
) -> FoundView
    decreases text.len() - i,
{
    if 0 <= i < text.len() {
        proof {
            lemma_line_stop(text, i);
        }
        let next = line_next(text, i);
        let line = line_at(text, i);
        if !holds(lowered(line), needle) {
            file_found(text, next, number + 1, path, needle, found)
        } else if found.hits.len() >= SEARCH_MAX_HITS {
            FoundView { truncated: true, ..found }
        } else {
            file_found(
                text,
                next,
                number + 1,
                path,
                needle,
                FoundView { hits: found.hits.push((number, path, kept_line(line))), ..found },
            )
        }
    } else {
        found
    }
}

/// Go through the lines of a file for `needle`.
pub fn search_file(path: &str, text: &str, needle: &Vec<char>, found: &mut SearchResult)
    ensures
        final(found)@ == file_found(text@, 0, 1, path@, needle@, old(found)@),
{
    let chars = chars_of(text);
    let total: usize = chars.len();
    let mut i: usize = 0;
    let mut number: usize = 0;
    while i < total
        invariant
            total == chars@.len(),
            chars@ == text@,
            number <= i,
            file_found(text@, i as int, number + 1, path@, needle@, found@) == file_found(
                text@,
                0,
                1,
                path@,
                needle@,
                old(found)@,
            ),
        decreases total - i,
    {
        let from: usize = i;
        proof {
            lemma_line_stop(chars@, from as int);
        }
        while i < total && chars[i] != '\n'
            invariant
                total == chars@.len(),
                from <= i <= total,
                line_stop(chars@, i as int) == line_stop(chars@, from as int),
            decreases total - i,
        {
            i = i + 1;
        }
        let to: usize = if i < total && i > from && chars[i - 1] == '\r' {
            i - 1
        } else {
            i
        };
        let line = string_of_range(&chars, from, to);
        assert(line@ == line_at(text@, from as int));
        let low = line.as_str().to_lowercase();
        let low_chars = chars_of(low.as_str());
        if contains_text(&low_chars, needle) {
            if found.hits.len() >= SEARCH_MAX_HITS {
                found.truncated = true;
                return;
            }
            let line_chars = chars_of(line.as_str());
            let mut stop: usize = line_chars.len();
            while stop > 0 && line_chars[stop - 1].is_whitespace()
                invariant
                    stop <= line_chars@.len(),
                    text_stop(line_chars@, stop as int) == text_stop(
                        line_chars@,
                        line_chars@.len() as int,
                    ),
                decreases stop,
            {
                stop = stop - 1;
            }
            if stop > SEARCH_MAX_LINE {
                stop = SEARCH_MAX_LINE;
            }
            let kept = string_of_range(&line_chars, 0, stop);
            assert(kept@ =~= kept_line(line@));
            let ghost before = found.hits@;
            found.hits.push(SearchHit { line: number + 1, path: path.to_owned(), text: kept });
            assert(hit_views(found.hits@) =~= hit_views(before).push(
                (number + 1, path@, kept_line(line@)),
            ));
        }
        if i < total {
            number = number + 1;
            i = i + 1;
        } else {
            assert(file_found(text@, i as int, number + 2, path@, needle@, found@) == found@);
            return;
        }
    }
}

/// Whether a character comes before another.
pub open spec fn char_below(a: char, b: char) -> bool {
    (a as int) < (b as int)
}

fn is_below(a: char, b: char) -> (r: bool)
    ensures
        r == char_below(a, b),
{
    a < b
}

/// Whether a name comes before another: at the first character in which they differ, or
/// by its end.
pub open spec fn name_before(a: Seq<char>, b: Seq<char>, i: int) -> bool
    decreases a.len() - i,
{
    if 0 <= i < a.len() && i < b.len() {
        if a[i] == b[i] {
            name_before(a, b, i + 1)
        } else {
            char_below(a[i], b[i])
        }
    } else {
        i < b.len()
    }
}

fn comes_before(a: &Vec<char>, b: &Vec<char>) -> (r: bool)
    ensures
        r == name_before(a@, b@, 0),
{
    let mut i: usize = 0;
    while i < a.len() && i < b.len()
        invariant
            i <= a@.len(),
            i <= b@.len(),
            name_before(a@, b@, i as int) == name_before(a@, b@, 0),
        decreases a@.len() - i,
    {
        if a[i] != b[i] {
            return is_below(a[i], b[i]);
        }
        i = i + 1;
    }
    i < b.len()
}

/// How many of the entries listed in `order` come before the name `name`, or are not
/// after it.
pub open spec fn place_for(
    entries: Seq<(String, Node)>,
    order: Seq<usize>,
    name: Seq<char>,
    i: int,
) -> int
    decreases order.len() - i,
{
    if 0 <= i < order.len() && !name_before(name, entries[order[i] as int].0@, 0) {
        place_for(entries, order, name, i + 1)
    } else {
        i
    }
}

/// The first `n` of `entries` in the order of their names.
pub open spec fn by_name(entries: Seq<(String, Node)>, n: int) -> Seq<usize>
    decreases n,
{
    if n <= 0 {
        Seq::empty()
    } else {
        let order = by_name(entries, n - 1);
        order.insert(place_for(entries, order, entries[n - 1].0@, 0), (n - 1) as usize)
    }
}

proof fn lemma_place_for(
    entries: Seq<(String, Node)>,
    order: Seq<usize>,
    name: Seq<char>,
    i: int,
)
    requires
        0 <= i <= order.len(),
    ensures
        i <= place_for(entries, order, name, i) <= order.len(),
    decreases order.len() - i,
{
    if i < order.len() && !name_before(name, entries[order[i] as int].0@, 0) {
        lemma_place_for(entries, order, name, i + 1);
    }
}

/// Each of the first `n` entries is listed, and nothing else.
pub proof fn lemma_by_name(entries: Seq<(String, Node)>, n: int)
    requires
        0 <= n <= entries.len(),
        entries.len() <= usize::MAX,
    ensures
        by_name(entries, n).len() == n,
        forall|i: int| 0 <= i < n ==> (#[trigger] by_name(entries, n)[i]) < n,
    decreases n,
{
    if n > 0 {
        lemma_by_name(entries, n - 1);
        let order = by_name(entries, n - 1);
        lemma_place_for(entries, order, entries[n - 1].0@, 0);
    }
}

/// The places of `entries` in the order of their names.
fn sorted_places(entries: &Vec<(String, Node)>) -> (r: Vec<usize>)
    ensures
        r@ == by_name(entries@, entries@.len() as int),
        r@.len() == entries@.len(),
        forall|i: int| 0 <= i < r@.len() ==> (#[trigger] r@[i]) < entries@.len(),
{
    let total: usize = entries.len();
    let mut order: Vec<usize> = Vec::new();
    let mut n: usize = 0;
    while n < total
        invariant
            total == entries@.len(),
            n <= total,
            order@ == by_name(entries@, n as int),
        decreases total - n,
    {
        proof {
            lemma_by_name(entries@, n as int);
            lemma_place_for(entries@, order@, entries@[n as int].0@, 0);
        }
        let name = chars_of(entries[n].0.as_str());
        let mut at: usize = 0;
        let mut looking: bool = true;
        while looking
            invariant
                total == entries@.len(),
                n < total,
                order@.len() == n,
                forall|i: int| 0 <= i < n ==> (#[trigger] order@[i]) < n,
                name@ == entries@[n as int].0@,
                at <= n,
                looking ==> place_for(entries@, order@, name@, at as int) == place_for(
                    entries@,
                    order@,
                    name@,
                    0,
                ),
                !looking ==> at == place_for(entries@, order@, name@, 0),
            decreases (if looking {
                n - at + 1
            } else {
                0
            }),
        {
            if at < order.len() {
                let other = chars_of(entries[order[at]].0.as_str());
                if comes_before(&name, &other) {
                    looking = false;
                } else {
                    at = at + 1;
                }
            } else {
                looking = false;
            }
        }
        order.insert(at, n);
        n = n + 1;
    }
    proof {
        lemma_by_name(entries@, total as int);
    }
    order
}

/// A path with a name under it.
pub open spec fn under(path: Seq<char>, name: Seq<char>) -> Seq<char> {
    if path.len() == 0 || path.last() == '/' {
        path + name
    } else {
        path.push('/') + name
    }
}

/// What is found once a directory has been gone through for `needle`: its entries by
/// their names, links and what no search enters aside, and only so deep.
pub open spec fn dir_found(
    entries: Seq<(String, Node)>,
    path: Seq<char>,
    needle: Seq<char>,
    depth: int,
    found: FoundView,
) -> FoundView
    decreases SEARCH_MAX_DEPTH - depth, entries.len() + 1,
{
    if depth >= SEARCH_MAX_DEPTH || found.truncated {
        found
    } else {
        entries_found(entries, 0, path, needle, depth, found)
    }
}

/// What is found once the entries of a directory from the `k`th on, by their names, have
/// been gone through.
pub open spec fn entries_found(
    entries: Seq<(String, Node)>,
    k: int,
    path: Seq<char>,
    needle: Seq<char>,
    depth: int,
    found: FoundView,
) -> FoundView
    decreases SEARCH_MAX_DEPTH - depth, entries.len() - k,
{
    if !(0 <= k < entries.len()) || depth >= SEARCH_MAX_DEPTH || found.truncated {
        found
    } else {
        let entry = entries[by_name(entries, entries.len() as int)[k] as int];
        let next = match entry.1 {
            Node::Dir(sub) => if skipped_dir(entry.0@) || depth + 1 >= SEARCH_MAX_DEPTH {
                found
            } else {
                dir_found(sub@, under(path, entry.0@), needle, depth + 1, found)
            },
            Node::File { bytes, text } => match text {
                Some(text) => if bytes <= SEARCH_MAX_FILE_BYTES {
                    file_found(text@, 0, 1, under(path, entry.0@), needle, found)
                } else {
                    found
                },
                None => found,
            },
            Node::Link { bytes } => found,
        };
        entries_found(entries, k + 1, path, needle, depth, next)
    }
}

fn path_under(path: &str, name: &str) -> (r: String)
    ensures
        r@ == under(path@, name@),
{
    let mut chars = chars_of(path);
    if chars.len() > 0 && chars[chars.len() - 1] != '/' {
        chars.push('/');
    }
    crate::text::append_str(&mut chars, name);
    string_of(&chars)
}

/// Go through a directory for `needle`.
pub fn search_dir(
    entries: &Vec<(String, Node)>,
    path: &str,
    needle: &Vec<char>,
    depth: usize,
    found: &mut SearchResult,
)
    ensures
        final(found)@ == dir_found(entries@, path@, needle@, depth as int, old(found)@),
    decreases SEARCH_MAX_DEPTH - depth,
{
    if depth >= SEARCH_MAX_DEPTH || found.truncated {
        return;
    }
    let order = sorted_places(entries);
    let mut k: usize = 0;
    while k < order.len() && !found.truncated
        invariant
            depth < SEARCH_MAX_DEPTH,
            order@ == by_name(entries@, entries@.len() as int),
            order@.len() == entries@.len(),
            forall|i: int| 0 <= i < order@.len() ==> (#[trigger] order@[i]) < entries@.len(),
            k <= order@.len(),
            entries_found(entries@, k as int, path@, needle@, depth as int, found@)
                == entries_found(entries@, 0, path@, needle@, depth as int, old(found)@),
        decreases order@.len() - k,
    {
        let at: usize = order[k];
        let name: &str = entries[at].0.as_str();
        match &entries[at].1 {
            Node::Dir(sub) => {
                if !is_skipped_dir(name) && depth + 1 < SEARCH_MAX_DEPTH {
                    let inside = path_under(path, name);
                    search_dir(sub, inside.as_str(), needle, depth + 1, found);
                }
            },
            Node::File { bytes, text } => {
                if let Some(text) = text {
                    if *bytes <= SEARCH_MAX_FILE_BYTES {
                        let inside = path_under(path, name);
                        search_file(inside.as_str(), text.as_str(), needle, found);
                    }
                }
            },
            Node::Link { .. } => {},
        }
        k = k + 1;
    }
}

/// What a search finds under its root. An empty query finds nothing.
pub open spec fn tree_found(
    query: Seq<char>,
    root: Seq<char>,
    entries: Seq<(String, Node)>,
) -> FoundView {
    let none = FoundView { hits: Seq::empty(), query, truncated: false };
    if lowered(query).len() == 0 {
        none
    } else {
        dir_found(entries, root, lowered(query), 0, none)
    }
}

/// Every line under the root of `request` that holds its query, ignoring case. An empty
/// query finds nothing.
pub fn search_tree(request: &SearchRequest, entries: &Vec<(String, Node)>) -> (r: SearchResult)
    ensures
        r@ == tree_found(request.query@, request.root@, entries@),
{
    let low = request.query.as_str().to_lowercase();
    let needle = chars_of(low.as_str());
    let mut found = SearchResult {
        hits: Vec::new(),
        query: request.query.as_str().to_owned(),
        truncated: false,
    };
    assert(hit_views(found.hits@) =~= Seq::empty());
    if needle.len() == 0 {
        return found;
    }
    search_dir(entries, request.root.as_str(), &needle, 0, &mut found);
    found
}

/// A search keeps only so many lines, and those it keeps it keeps in the order it found
/// them.
proof fn lemma_file_found(
    text: Seq<char>,
    i: int,
    number: int,
    path: Seq<char>,
    needle: Seq<char>,
    found: FoundView,
)
    requires
        found.hits.len() <= SEARCH_MAX_HITS,
        found.truncated ==> found.hits.len() == SEARCH_MAX_HITS,
    ensures
        ({
            let r = file_found(text, i, number, path, needle, found);
            &&& r.hits.len() <= SEARCH_MAX_HITS
            &&& r.truncated ==> r.hits.len() == SEARCH_MAX_HITS
            &&& r.query == found.query
        }),
    decreases text.len() - i,
{
    if 0 <= i < text.len() {
        lemma_line_stop(text, i);
        let next = line_next(text, i);
        let line = line_at(text, i);
        if !holds(lowered(line), needle) {
            lemma_file_found(text, next, number + 1, path, needle, found);
        } else if found.hits.len() < SEARCH_MAX_HITS {
            let more = FoundView {
                hits: found.hits.push((number, path, kept_line(line))),
                ..found
            };
            lemma_file_found(text, next, number + 1, path, needle, more);
        }
    }
}

proof fn lemma_dir_found(
    entries: Seq<(String, Node)>,
    path: Seq<char>,
    needle: Seq<char>,
    depth: int,
    found: FoundView,
)
    requires
        found.hits.len() <= SEARCH_MAX_HITS,
        found.truncated ==> found.hits.len() == SEARCH_MAX_HITS,
    ensures
        ({
            let r = dir_found(entries, path, needle, depth, found);
            &&& r.hits.len() <= SEARCH_MAX_HITS
            &&& r.truncated ==> r.hits.len() == SEARCH_MAX_HITS
            &&& r.query == found.query
        }),
    decreases SEARCH_MAX_DEPTH - depth, entries.len() + 1,
{
    if depth < SEARCH_MAX_DEPTH && !found.truncated {
        lemma_entries_found(entries, 0, path, needle, depth, found);
    }
}

proof fn lemma_entries_found(
    entries: Seq<(String, Node)>,
    k: int,
    path: Seq<char>,
    needle: Seq<char>,
    depth: int,
    found: FoundView,
)
    requires
        found.hits.len() <= SEARCH_MAX_HITS,
        found.truncated ==> found.hits.len() == SEARCH_MAX_HITS,
    ensures
        ({
            let r = entries_found(entries, k, path, needle, depth, found);
            &&& r.hits.len() <= SEARCH_MAX_HITS
            &&& r.truncated ==> r.hits.len() == SEARCH_MAX_HITS
            &&& r.query == found.query
        }),
    decreases SEARCH_MAX_DEPTH - depth, entries.len() - k,
{
    if 0 <= k < entries.len() && depth < SEARCH_MAX_DEPTH && !found.truncated {
        let entry = entries[by_name(entries, entries.len() as int)[k] as int];
        match entry.1 {
            Node::Dir(sub) => {
                if skipped_dir(entry.0@) || depth + 1 >= SEARCH_MAX_DEPTH {
                    lemma_entries_found(entries, k + 1, path, needle, depth, found);
                } else {
                    lemma_dir_found(sub@, under(path, entry.0@), needle, depth + 1, found);
                    let next = dir_found(sub@, under(path, entry.0@), needle, depth + 1, found);
                    lemma_entries_found(entries, k + 1, path, needle, depth, next);
                }
            },
            Node::File { bytes, text } => {
                if text is Some && bytes <= SEARCH_MAX_FILE_BYTES {
                    let inside = under(path, entry.0@);
                    lemma_file_found(text->0@, 0, 1, inside, needle, found);
                    let next = file_found(text->0@, 0, 1, inside, needle, found);
                    lemma_entries_found(entries, k + 1, path, needle, depth, next);
                } else {
                    lemma_entries_found(entries, k + 1, path, needle, depth, found);
                }
            },
            Node::Link { bytes } => {
                lemma_entries_found(entries, k + 1, path, needle, depth, found);
            },
        }
    }
}

/// A search stops at its cap, and only a list at its cap is called partial.
pub proof fn law_a_search_stops_at_its_cap(
    query: Seq<char>,
    root: Seq<char>,
    entries: Seq<(String, Node)>,
)
    ensures
        tree_found(query, root, entries).hits.len() <= SEARCH_MAX_HITS,
        tree_found(query, root, entries).truncated ==> tree_found(query, root, entries).hits.len()
            == SEARCH_MAX_HITS,
        tree_found(query, root, entries).query == query,
{
    let none = FoundView { hits: Seq::empty(), query, truncated: false };
    lemma_dir_found(entries, root, lowered(query), 0, none);
}

/// What is in a directory that no search enters makes no difference.
pub proof fn law_a_search_stays_out_of_skipped_directories(
    name: String,
    sub: Vec<(String, Node)>,
    path: Seq<char>,
    needle: Seq<char>,
    found: FoundView,
)
    requires
        skipped_dir(name@),
    ensures
        dir_found(seq![(name, Node::Dir(sub))], path, needle, 0, found) == found,
{
    let entries = seq![(name, Node::Dir(sub))];
    assert(by_name(entries, 0).len() == 0);
    lemma_by_name(entries, 1);
    assert(by_name(entries, 1)[0] == 0);
    assert(entries_found(entries, 1, path, needle, 0, found) == found);
}

// ------------------------------------------------------------------------
// Doing the work
// ------------------------------------------------------------------------

/// How a program ended, and what it wrote, as texts.
#[derive(Debug)]
pub struct Ran {
    pub code: Option<i32>,
    pub stderr: String,
    pub stdout: String,
}

/// A request, with what the world outside gave for it: how the program ended or why it
/// did not start, what is under the directory, or what the files hold.
#[derive(Debug)]
pub enum Work {
    Command(CommandRequest, Result<Ran, String>),
    DirSize(String, Vec<(String, Node)>),
    ReadFiles(Vec<(String, Option<String>)>),
    Search(SearchRequest, Vec<(String, Node)>),
}

/// A reply by its contents.
pub enum ReplyView {
    Command { code: Option<i32>, stderr: Seq<char>, stdout: Seq<char>, tag: Seq<char> },
    DirSize { bytes: int, path: Seq<char> },
    Files(Seq<(Seq<char>, Seq<char>)>),
    Search(FoundView),
}

/// Files by their paths and texts.
pub open spec fn file_texts(files: Seq<(String, String)>) -> Seq<(Seq<char>, Seq<char>)> {
    Seq::new(files.len(), |i: int| (files[i].0@, files[i].1@))
}

impl View for JobReply {
    type V = ReplyView;

    open spec fn view(&self) -> ReplyView {
        match *self {
            JobReply::Command(output) => ReplyView::Command {
                code: output.code,
                stderr: output.stderr@,
                stdout: output.stdout@,
                tag: output.tag@,
            },
            JobReply::DirSize { bytes, path } => ReplyView::DirSize {
                bytes: bytes as int,
                path: path@,
            },
            JobReply::Files(files) => ReplyView::Files(file_texts(files@)),
            JobReply::Search(found) => ReplyView::Search(found@),
        }
    }
}

/// Of the first `n` files, those that could be read.
pub open spec fn readable(files: Seq<(String, Option<String>)>, n: int) -> Seq<
    (Seq<char>, Seq<char>),
>
    decreases n,
{
    if n <= 0 {
        Seq::empty()
    } else {
        let rest = readable(files, n - 1);
        match files[n - 1].1 {
            Some(text) => rest.push((files[n - 1].0@, text@)),
            None => rest,
        }
    }
}

/// What is made of a request and what the world outside gave for it.
pub open spec fn work_done(work: Work) -> ReplyView {
    match work {
        Work::Command(request, outcome) => match outcome {
            Ok(ran) => ReplyView::Command {
                code: ran.code,
                stderr: ran.stderr@,
                stdout: ran.stdout@,
                tag: request.tag@,
            },
            Err(reason) => ReplyView::Command {
                code: None,
                stderr: reason@,
                stdout: Seq::empty(),
                tag: request.tag@,
            },
        },
        Work::DirSize(path, entries) => ReplyView::DirSize {
            bytes: dir_size(entries@, entries@.len() as int, 0),
            path: path@,
        },
        Work::ReadFiles(files) => ReplyView::Files(readable(files@, files@.len() as int)),
        Work::Search(request, entries) => ReplyView::Search(
            tree_found(request.query@, request.root@, entries@),
        ),
    }
}

/// How a program ended: a program that did not start has no code, and says why.
pub fn run_command(request: CommandRequest, outcome: Result<Ran, String>) -> (r: CommandOutput)
    ensures
        JobReply::Command(r)@ == work_done(Work::Command(request, outcome)),
{
    match outcome {
        Ok(ran) => CommandOutput {
            code: ran.code,
            stderr: ran.stderr,
            stdout: ran.stdout,
            tag: request.tag,
        },
        Err(reason) => CommandOutput {
            code: None,
            stderr: reason,
            stdout: String::new(),
            tag: request.tag,
        },
    }
}

/// The files that could be read, with what they hold. One that could not is left out.
pub fn read_files(files: Vec<(String, Option<String>)>) -> (r: Vec<(String, String)>)
    ensures
        file_texts(r@) == readable(files@, files@.len() as int),
{
    let ghost all = files@;
    let mut left = files;
    let mut kept: Vec<(String, String)> = Vec::new();
    let ghost mut n: int = 0;
    assert(all.skip(0) =~= all);
    assert(file_texts(kept@) =~= readable(all, 0));
    while left.len() > 0
        invariant
            0 <= n <= all.len(),
            left@ == all.skip(n),
            file_texts(kept@) == readable(all, n),
        decreases left@.len(),
    {
        let (path, text) = left.remove(0);
        assert((path, text) == all[n]);
        assert(all.skip(n).remove(0) =~= all.skip(n + 1));
        if let Some(text) = text {
            let ghost before = kept@;
            kept.push((path, text));
            assert(file_texts(kept@) =~= file_texts(before).push((path@, text@)));
        }
        proof {
            n = n + 1;
        }
    }
    kept
}

/// Do what a request asks for with what the world outside gave for it.
pub fn run(work: Work) -> (r: JobReply)
    requires
        work matches Work::DirSize(path, entries) ==> dir_size(entries@, entries@.len() as int, 0)
            <= u64::MAX,
    ensures
        r@ == work_done(work),
{
    match work {
        Work::Command(request, outcome) => JobReply::Command(run_command(request, outcome)),
        Work::DirSize(path, entries) => {
            let bytes: u64 = walk_size(&entries, 0);
            JobReply::DirSize { bytes, path }
        },
        Work::ReadFiles(files) => JobReply::Files(read_files(files)),
        Work::Search(request, entries) => JobReply::Search(search_tree(&request, &entries)),
    }
}

} // verus!
