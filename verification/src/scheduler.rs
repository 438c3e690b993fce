//! Scheduler: one task per submitted page URL, each driven through the
//! pipeline Pending → Extracting → (Failed | LinkReady) → Downloading
//! → (Failed | Completed), with no transition back. A pipeline holds
//! one unit of the concurrency budget from the moment it starts until
//! it reaches a terminal state, and the number of units held never
//! exceeds the configured limit. One task's failure never touches
//! another task; every submitted URL yields exactly one outcome.

use vstd::pervasive::unreached;
use vstd::prelude::*;

use crate::bytes::sub_vec;
use crate::errors::DownloadError;

verus! {

/// Lifecycle state of one task.
pub enum TaskState {
    /// Submitted, pipeline not started.
    Pending,
    /// Holds a slot; the extractor is resolving the direct link.
    Extracting,
    /// Holds a slot; the direct link is resolved and not yet consumed.
    LinkReady { link: Vec<u8> },
    /// Holds a slot; the transfer engine is streaming the file.
    Downloading,
    /// Terminal: the whole body was written.
    Completed,
    /// Terminal: the pipeline failed at some stage.
    Failed { error: DownloadError },
}

/// One page URL submitted for processing, with its lifecycle state.
pub struct Task {
    /// The source page URL.
    pub url: Vec<u8>,
    /// Where the task stands in its pipeline.
    pub state: TaskState,
}

/// The task holds a concurrency slot.
pub open spec fn is_active(st: TaskState) -> bool {
    ||| st is Extracting
    ||| st is LinkReady
    ||| st is Downloading
}

/// The task is finished, for good or ill.
pub open spec fn is_terminal(st: TaskState) -> bool {
    st is Completed || st is Failed
}

/// How many tasks hold a concurrency slot.
pub open spec fn count_active(tasks: Seq<Task>) -> int
    decreases tasks.len(),
{
    if tasks.len() == 0 {
        0
    } else {
        count_active(tasks.drop_last()) + if is_active(tasks.last().state) {
            1int
        } else {
            0int
        }
    }
}

proof fn lemma_count_push(s: Seq<Task>, t: Task)
    ensures
        count_active(s.push(t)) == count_active(s) + if is_active(t.state) {
            1int
        } else {
            0int
        },
{
    assert(s.push(t).drop_last() =~= s);
}

proof fn lemma_count_bounds(s: Seq<Task>)
    ensures
        0 <= count_active(s) <= s.len(),
    decreases s.len(),
{
    if s.len() > 0 {
        lemma_count_bounds(s.drop_last());
    }
}

proof fn lemma_count_update(s: Seq<Task>, i: int, t: Task)
    requires
        0 <= i < s.len(),
    ensures
        count_active(s.update(i, t)) == count_active(s) - (if is_active(s[i].state) {
            1int
        } else {
            0int
        }) + (if is_active(t.state) {
            1int
        } else {
            0int
        }),
    decreases s.len(),
{
    if i == s.len() - 1 {
        assert(s.update(i, t).drop_last() =~= s.drop_last());
    } else {
        lemma_count_update(s.drop_last(), i, t);
        assert(s.update(i, t).drop_last() =~= s.drop_last().update(i, t));
    }
}

proof fn lemma_count_at_least_one(s: Seq<Task>, i: int)
    requires
        0 <= i < s.len(),
        is_active(s[i].state),
    ensures
        count_active(s) >= 1,
    decreases s.len(),
{
    if i == s.len() - 1 {
        lemma_count_bounds(s.drop_last());
    } else {
        lemma_count_at_least_one(s.drop_last(), i);
    }
}

/// Final report for one task.
pub enum Outcome {
    /// The task's file was downloaded whole.
    Completed,
    /// The task failed at some stage of its pipeline.
    Failed { error: DownloadError },
}

/// One entry of the aggregate report.
pub struct TaskOutcome {
    /// The source page URL the task was submitted with.
    pub url: Vec<u8>,
    /// Success, or the task's own error.
    pub outcome: Outcome,
}

/// `o` reports task `t`: the same URL, and completion or the task's
/// own error.
pub open spec fn reports(t: Task, o: TaskOutcome) -> bool {
    &&& o.url@ == t.url@
    &&& match t.state {
        TaskState::Completed => o.outcome is Completed,
        TaskState::Failed { error } => o.outcome matches Outcome::Failed { error: e } && e
            == error,
        _ => false,
    }
}

/// The scheduler: the submitted tasks, the configured concurrency
/// limit, and the number of slots currently held. The `active` counter
/// is the concurrency budget: acquiring a slot increments it, and
/// every pipeline end — success or failure — releases it.
pub struct Scheduler {
    /// One task per submitted URL, in submission order.
    pub tasks: Vec<Task>,
    /// Configured concurrency limit; at least 1.
    pub limit: usize,
    /// Concurrency slots currently held.
    pub active: usize,
}

impl Scheduler {
    /// Positive limit, an accurate slot counter, and the bounded-
    /// concurrency invariant: no more than `limit` slots held.
    pub open spec fn wf(self) -> bool {
        &&& self.limit >= 1
        &&& self.active as int == count_active(self.tasks@)
        &&& self.active <= self.limit
    }

    /// Every task has reached a terminal state.
    pub open spec fn all_terminal(self) -> bool {
        forall|i: int| 0 <= i < self.tasks@.len() ==> is_terminal((#[trigger] self.tasks@[i]).state)
    }

    /// Accept one task per submitted URL, in order, all pending, with
    /// no concurrency slot held yet.
    pub fn new(urls: Vec<Vec<u8>>, limit: usize) -> (s: Scheduler)
        requires
            limit >= 1,
        ensures
            s.wf(),
            s.limit == limit,
            s.active == 0,
            s.tasks@.len() == urls@.len(),
            forall|i: int|
                0 <= i < urls@.len() ==> (#[trigger] s.tasks@[i]).url == urls@[i]
                    && s.tasks@[i].state is Pending,
    {
        let mut rest = urls;
        let ghost orig = rest@;
        let mut tasks: Vec<Task> = Vec::new();
        while rest.len() > 0
            invariant
                tasks@.len() + rest@.len() == orig.len(),
                rest@ == orig.subrange(tasks@.len() as int, orig.len() as int),
                forall|i: int|
                    0 <= i < tasks@.len() ==> (#[trigger] tasks@[i]).url == orig[i]
                        && tasks@[i].state is Pending,
                count_active(tasks@) == 0,
            decreases rest@.len(),
        {
            let u = rest.remove(0);
            let ghost pre = tasks@;
            tasks.push(Task { url: u, state: TaskState::Pending });
            proof {
                lemma_count_push(pre, tasks@.last());
                assert(rest@ =~= orig.subrange(tasks@.len() as int, orig.len() as int));
            }
        }
        Scheduler { tasks, limit, active: 0 }
    }

    /// Task `i` may start a pipeline now: it is pending and a
    /// concurrency slot is free.
    pub fn can_start(&self, i: usize) -> (r: bool)
        ensures
            r == (i < self.tasks@.len() && self.tasks@[i as int].state is Pending && self.active
                < self.limit),
    {
        i < self.tasks.len() && state_is_pending(&self.tasks[i].state) && self.active < self.limit
    }

    /// The first task that may start a pipeline now, if any.
    pub fn next_startable(&self) -> (r: Option<usize>)
        ensures
            match r {
                Some(i) => {
                    &&& i < self.tasks@.len()
                    &&& self.tasks@[i as int].state is Pending
                    &&& self.active < self.limit
                    &&& forall|j: int| 0 <= j < i ==> !((#[trigger] self.tasks@[j]).state is Pending)
                },
                None => self.active >= self.limit || forall|i: int|
                    0 <= i < self.tasks@.len() ==> !((#[trigger] self.tasks@[i]).state is Pending),
            },
    {
        if self.active >= self.limit {
            return None;
        }
        let mut i: usize = 0;
        while i < self.tasks.len()
            invariant
                self.active < self.limit,
                i <= self.tasks@.len(),
                forall|j: int| 0 <= j < i ==> !((#[trigger] self.tasks@[j]).state is Pending),
            decreases self.tasks@.len() - i,
        {
            if state_is_pending(&self.tasks[i].state) {
                return Some(i);
            }
            i += 1;
        }
        None
    }

    /// Begin task `i`'s pipeline: acquire one concurrency slot and
    /// move the task from `Pending` to `Extracting`.
    pub fn start_task(&mut self, i: usize)
        requires
            old(self).wf(),
            i < old(self).tasks@.len(),
            old(self).tasks@[i as int].state is Pending,
            old(self).active < old(self).limit,
        ensures
            final(self).wf(),
            final(self).limit == old(self).limit,
            final(self).active == old(self).active + 1,
            final(self).tasks@ == old(self).tasks@.update(
                i as int,
                Task { url: old(self).tasks@[i as int].url, state: TaskState::Extracting },
            ),
    {
        let t = self.tasks.remove(i);
        self.tasks.insert(i, Task { url: t.url, state: TaskState::Extracting });
        self.active = self.active + 1;
        proof {
            let ghost nt = self.tasks@[i as int];
            assert(self.tasks@ =~= old(self).tasks@.update(i as int, nt));
            lemma_count_update(old(self).tasks@, i as int, nt);
        }
    }

    /// Record the extractor's outcome for task `i`: a resolved direct
    /// link moves it to `LinkReady`, keeping its slot; an error ends
    /// the pipeline, frees the slot and marks the task failed.
    pub fn finish_extraction(&mut self, i: usize, outcome: Result<Vec<u8>, DownloadError>)
        requires
            old(self).wf(),
            i < old(self).tasks@.len(),
            old(self).tasks@[i as int].state is Extracting,
        ensures
            final(self).wf(),
            final(self).limit == old(self).limit,
            match outcome {
                Ok(link) => {
                    &&& final(self).tasks@ == old(self).tasks@.update(
                        i as int,
                        Task {
                            url: old(self).tasks@[i as int].url,
                            state: TaskState::LinkReady { link },
                        },
                    )
                    &&& final(self).active == old(self).active
                },
                Err(error) => {
                    &&& final(self).tasks@ == old(self).tasks@.update(
                        i as int,
                        Task {
                            url: old(self).tasks@[i as int].url,
                            state: TaskState::Failed { error },
                        },
                    )
                    &&& final(self).active == old(self).active - 1
                },
            },
    {
        proof {
            lemma_count_at_least_one(old(self).tasks@, i as int);
        }
        let t = self.tasks.remove(i);
        match outcome {
            Ok(link) => {
                self.tasks.insert(i, Task { url: t.url, state: TaskState::LinkReady { link } });
                proof {
                    let ghost nt = self.tasks@[i as int];
                    assert(self.tasks@ =~= old(self).tasks@.update(i as int, nt));
                    lemma_count_update(old(self).tasks@, i as int, nt);
                }
            },
            Err(error) => {
                self.tasks.insert(i, Task { url: t.url, state: TaskState::Failed { error } });
                self.active = self.active - 1;
                proof {
                    let ghost nt = self.tasks@[i as int];
                    assert(self.tasks@ =~= old(self).tasks@.update(i as int, nt));
                    lemma_count_update(old(self).tasks@, i as int, nt);
                }
            },
        }
    }

    /// Hand task `i`'s resolved direct link to the transfer engine:
    /// the task moves to `Downloading`, keeping its slot, and the link
    /// is consumed — it can be taken exactly once.
    pub fn begin_download(&mut self, i: usize) -> (link: Vec<u8>)
        requires
            old(self).wf(),
            i < old(self).tasks@.len(),
            old(self).tasks@[i as int].state is LinkReady,
        ensures
            final(self).wf(),
            final(self).limit == old(self).limit,
            final(self).active == old(self).active,
            final(self).tasks@ == old(self).tasks@.update(
                i as int,
                Task { url: old(self).tasks@[i as int].url, state: TaskState::Downloading },
            ),
            old(self).tasks@[i as int].state matches TaskState::LinkReady { link: l } && link == l,
    {
        let t = self.tasks.remove(i);
        let Task { url, state } = t;
        match state {
            TaskState::LinkReady { link } => {
                self.tasks.insert(i, Task { url, state: TaskState::Downloading });
                proof {
                    let ghost nt = self.tasks@[i as int];
                    assert(self.tasks@ =~= old(self).tasks@.update(i as int, nt));
                    lemma_count_update(old(self).tasks@, i as int, nt);
                }
                link
            },
            _ => unreached(),
        }
    }

    /// Record the transfer engine's outcome for task `i`: the pipeline
    /// ends, the slot is freed, and the task is completed or failed.
    pub fn finish_download(&mut self, i: usize, outcome: Result<(), DownloadError>)
        requires
            old(self).wf(),
            i < old(self).tasks@.len(),
            old(self).tasks@[i as int].state is Downloading,
        ensures
            final(self).wf(),
            final(self).limit == old(self).limit,
            final(self).active == old(self).active - 1,
            match outcome {
                Ok(u) => final(self).tasks@ == old(self).tasks@.update(
                    i as int,
                    Task { url: old(self).tasks@[i as int].url, state: TaskState::Completed },
                ),
                Err(error) => final(self).tasks@ == old(self).tasks@.update(
                    i as int,
                    Task {
                        url: old(self).tasks@[i as int].url,
                        state: TaskState::Failed { error },
                    },
                ),
            },
    {
        proof {
            lemma_count_at_least_one(old(self).tasks@, i as int);
        }
        let t = self.tasks.remove(i);
        let st = match outcome {
            Ok(_) => TaskState::Completed,
            Err(error) => TaskState::Failed { error },
        };
        self.tasks.insert(i, Task { url: t.url, state: st });
        self.active = self.active - 1;
        proof {
            let ghost nt = self.tasks@[i as int];
            assert(self.tasks@ =~= old(self).tasks@.update(i as int, nt));
            lemma_count_update(old(self).tasks@, i as int, nt);
        }
    }

    /// Every task has finished.
    pub fn all_done(&self) -> (r: bool)
        ensures
            r == self.all_terminal(),
    {
        let mut i: usize = 0;
        while i < self.tasks.len()
            invariant
                i <= self.tasks@.len(),
                forall|j: int| 0 <= j < i ==> is_terminal((#[trigger] self.tasks@[j]).state),
            decreases self.tasks@.len() - i,
        {
            if !state_is_terminal(&self.tasks[i].state) {
                return false;
            }
            i += 1;
        }
        true
    }

    /// Aggregate one outcome per submitted URL, in submission order:
    /// no task is dropped, and each entry tells success from failure
    /// with the task's own error.
    pub fn outcomes(&self) -> (r: Vec<TaskOutcome>)
        requires
            self.all_terminal(),
        ensures
            r@.len() == self.tasks@.len(),
            forall|i: int| 0 <= i < r@.len() ==> reports(self.tasks@[i], #[trigger] r@[i]),
    {
        let mut r: Vec<TaskOutcome> = Vec::new();
        let mut i: usize = 0;
        while i < self.tasks.len()
            invariant
                self.all_terminal(),
                i <= self.tasks@.len(),
                r@.len() == i,
                forall|j: int| 0 <= j < i ==> reports(self.tasks@[j], #[trigger] r@[j]),
            decreases self.tasks@.len() - i,
        {
            let t = &self.tasks[i];
            let url_copy = sub_vec(t.url.as_slice(), 0, t.url.len());
            proof {
                assert(url_copy@ =~= t.url@);
            }
            let oc = match &t.state {
                TaskState::Completed => Outcome::Completed,
                TaskState::Failed { error } => Outcome::Failed { error: *error },
                _ => unreached(),
            };
            r.push(TaskOutcome { url: url_copy, outcome: oc });
            i += 1;
        }
        r
    }
}

/// Whether a task in state `st` is still waiting to start.
pub fn state_is_pending(st: &TaskState) -> (r: bool)
    ensures
        r == (*st is Pending),
{
    match st {
        TaskState::Pending => true,
        _ => false,
    }
}

/// Whether a task in state `st` has finished.
pub fn state_is_terminal(st: &TaskState) -> (r: bool)
    ensures
        r == is_terminal(*st),
{
    match st {
        TaskState::Completed => true,
        TaskState::Failed { .. } => true,
        _ => false,
    }
}

/// Bounded concurrency: in every well-formed scheduler state — `new`
/// establishes one and every transition preserves it — the number of
/// tasks holding a pipeline slot is at most the configured limit.
pub proof fn lemma_concurrency_bounded(s: Scheduler)
    requires
        s.wf(),
    ensures
        count_active(s.tasks@) <= s.limit,
{
}

} // verus!
