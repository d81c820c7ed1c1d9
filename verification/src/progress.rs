//! Task status counts for the workflow progress view.

use vstd::prelude::*;

verus! {

/// The state of a task, as the progress view tells them apart.
#[derive(Debug, Clone, Copy, PartialEq, Eq)]
pub enum TaskState {
    Pending,
    InProgress,
    Completed,
    Failed,
    FailedPermanently,
    /// Any other state: counted in the total only.
    Other,
}

/// How many tasks are in each state the progress view shows; failed counts
/// both failed and permanently failed tasks.
#[derive(Debug, Clone, Copy, PartialEq, Eq)]
pub struct StatusCounts {
    pub completed: usize,
    pub in_progress: usize,
    pub pending: usize,
    pub failed: usize,
    pub total: usize,
}

/// How many of the states satisfy a predicate.
pub open spec fn count_where(s: Seq<TaskState>, pred: spec_fn(TaskState) -> bool) -> nat
    decreases s.len(),
{
    if s.len() == 0 {
        0
    } else {
        count_where(s.drop_last(), pred) + if pred(s.last()) { 1nat } else { 0nat }
    }
}

proof fn lemma_count_bound(s: Seq<TaskState>, pred: spec_fn(TaskState) -> bool)
    ensures
        count_where(s, pred) <= s.len(),
    decreases s.len(),
{
    if s.len() > 0 {
        lemma_count_bound(s.drop_last(), pred);
    }
}

/// Counts the tasks in each state: completed, in progress, pending, failed
/// (either way) and all of them.
pub fn count_statuses(states: &[TaskState]) -> (c: StatusCounts)
    ensures
        c.completed == count_where(states@, |t: TaskState| t == TaskState::Completed),
        c.in_progress == count_where(states@, |t: TaskState| t == TaskState::InProgress),
        c.pending == count_where(states@, |t: TaskState| t == TaskState::Pending),
        c.failed == count_where(
            states@,
            |t: TaskState| t == TaskState::Failed || t == TaskState::FailedPermanently,
        ),
        c.total == states@.len(),
{
    let ghost pc = |t: TaskState| t == TaskState::Completed;
    let ghost pi = |t: TaskState| t == TaskState::InProgress;
    let ghost pp = |t: TaskState| t == TaskState::Pending;
    let ghost pf = |t: TaskState| t == TaskState::Failed || t == TaskState::FailedPermanently;
    let mut c = StatusCounts { completed: 0, in_progress: 0, pending: 0, failed: 0, total: 0 };
    let mut i: usize = 0;
    while i < states.len()
        invariant
            i <= states@.len(),
            pc == (|t: TaskState| t == TaskState::Completed),
            pi == (|t: TaskState| t == TaskState::InProgress),
            pp == (|t: TaskState| t == TaskState::Pending),
            pf == (|t: TaskState| t == TaskState::Failed || t == TaskState::FailedPermanently),
            c.completed == count_where(states@.take(i as int), pc),
            c.in_progress == count_where(states@.take(i as int), pi),
            c.pending == count_where(states@.take(i as int), pp),
            c.failed == count_where(states@.take(i as int), pf),
            c.total == i,
        decreases states@.len() - i,
    {
        proof {
            assert(states@.take(i + 1).drop_last() == states@.take(i as int));
            assert(states@.take(i + 1).last() == states@[i as int]);
            lemma_count_bound(states@.take(i as int), pc);
            lemma_count_bound(states@.take(i as int), pi);
            lemma_count_bound(states@.take(i as int), pp);
            lemma_count_bound(states@.take(i as int), pf);
        }
        match states[i] {
            TaskState::Completed => c.completed = c.completed + 1,
            TaskState::InProgress => c.in_progress = c.in_progress + 1,
            TaskState::Pending => c.pending = c.pending + 1,
            TaskState::Failed | TaskState::FailedPermanently => c.failed = c.failed + 1,
            TaskState::Other => {},
        }
        c.total = c.total + 1;
        i += 1;
    }
    proof {
        assert(states@.take(states@.len() as int) == states@);
    }
    c
}

} // verus!
