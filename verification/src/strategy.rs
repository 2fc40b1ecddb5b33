use vstd::prelude::*;
use crate::task::{TaskId, ThreadId};

verus! {

/// The exploration strategy: at each scheduling point it picks one of the
/// runnable tasks, or none, to abandon the execution.
///
/// `may_choose` says which answers the strategy can give to a question in a
/// given state of its own, and `may_name` which thread ids it can give for a
/// task. A strategy that promises nothing leaves both as they are: they hold
/// of every answer.
pub trait Strategy {
    open spec fn may_choose(
        &self,
        runnable: Seq<(TaskId, usize)>,
        last: Option<TaskId>,
        choice: Option<TaskId>,
    ) -> bool {
        true
    }

    open spec fn may_name(&self, task: TaskId, thread: ThreadId) -> bool {
        true
    }

    /// Picks the task to run next among `runnable`, which gives each runnable
    /// task with its instruction count; `last` is the task that ran last.
    /// `None` abandons the execution.
    fn next_task(&mut self, runnable: &[(TaskId, usize)], last: Option<TaskId>) -> (choice: Option<
        TaskId,
    >)
        ensures
            old(self).may_choose(runnable@, last, choice),
    ;

    /// The name under which the strategy knows the task's thread.
    fn to_thread_id(&self, task: TaskId) -> (thread: ThreadId)
        ensures
            self.may_name(task, thread),
    ;
}

/// Whether `id` is the lowest task id among `runnable`.
pub open spec fn is_lowest(runnable: Seq<(TaskId, usize)>, id: TaskId) -> bool {
    &&& exists|i: int| 0 <= i < runnable.len() && (#[trigger] runnable[i]).0 == id
    &&& forall|j: int| 0 <= j < runnable.len() ==> id.0 <= (#[trigger] runnable[j]).0.0
}

/// The strategy that always runs the runnable task with the lowest id, and
/// names each task's thread by the task's number.
#[derive(Clone, Copy, Debug)]
pub struct LowestFirst;

impl Strategy for LowestFirst {
    open spec fn may_choose(
        &self,
        runnable: Seq<(TaskId, usize)>,
        last: Option<TaskId>,
        choice: Option<TaskId>,
    ) -> bool {
        match choice {
            Some(id) => is_lowest(runnable, id),
            None => runnable.len() == 0,
        }
    }

    open spec fn may_name(&self, task: TaskId, thread: ThreadId) -> bool {
        thread == ThreadId(task.0)
    }

    fn next_task(&mut self, runnable: &[(TaskId, usize)], last: Option<TaskId>) -> (choice: Option<
        TaskId,
    >) {
        if runnable.len() == 0 {
            return None;
        }
        let mut best: TaskId = runnable[0].0;
        let mut k: usize = 1;
        while k < runnable.len()
            invariant
                1 <= k <= runnable@.len(),
                exists|i: int| 0 <= i < k && (#[trigger] runnable@[i]).0 == best,
                forall|j: int| 0 <= j < k ==> best.0 <= (#[trigger] runnable@[j]).0.0,
            decreases runnable@.len() - k,
        {
            if runnable[k].0.0 < best.0 {
                best = runnable[k].0;
            }
            k = k + 1;
        }
        Some(best)
    }

    fn to_thread_id(&self, task: TaskId) -> (thread: ThreadId) {
        ThreadId(task.0)
    }
}

} // verus!
