use vstd::prelude::*;
use vstd::string::*;
use crate::failure::{
    blocked_label, blocked_label_string, blocked_labels, deadlock_message, failure_name, failure_name_string,
    join, lemma_blocked_labels_push, lemma_join_push, no_task_message, unknown_task_message,
};
use crate::registry::{
    runnable_as_slice, runnable_is_empty, runnable_list, runnable_new, runnable_push, task_list,
    tasks_get, tasks_get_mut, tasks_into_vec, tasks_len, tasks_new, tasks_push, RunnableList,
    TaskList,
};
use crate::strategy::Strategy;
use crate::task::{Event, Task, TaskId, TaskView};

verus! {

/// What the driver runs, or has stopped running.
#[derive(Debug, PartialEq, Eq, Structural, Clone, Copy)]
pub enum ScheduledTask {
    /// No task has been chosen.
    Nothing,
    /// The task to run.
    Task(TaskId),
    /// The strategy abandoned the execution.
    Stopped,
    /// No task was left to run.
    Finished,
}

impl ScheduledTask {
    pub open spec fn spec_id(&self) -> Option<TaskId> {
        match *self {
            ScheduledTask::Task(tid) => Some(tid),
            _ => None,
        }
    }

    /// Whether the execution has ended: by the strategy's will or for want of tasks.
    pub open spec fn is_terminal(self) -> bool {
        self == ScheduledTask::Stopped || self == ScheduledTask::Finished
    }

    #[verifier::when_used_as_spec(spec_id)]
    pub fn id(&self) -> (id: Option<TaskId>)
        ensures
            id == self.spec_id(),
    {
        match self {
            ScheduledTask::Task(tid) => Some(*tid),
            _ => None,
        }
    }

    pub fn take(&mut self) -> (taken: Self)
        ensures
            taken == *old(self),
            *final(self) == ScheduledTask::Nothing,
    {
        let taken = *self;
        *self = ScheduledTask::Nothing;
        taken
    }
}

/// What the driver does next, as a mathematical value.
pub ghost enum StepView {
    Task(TaskId),
    Failure(Seq<char>),
    Finished,
}

/// What the driver does next: resume a task, report a failure, or stop.
#[derive(Debug)]
pub enum NextStep {
    Task(TaskId),
    Failure(String),
    Finished,
}

impl View for NextStep {
    type V = StepView;

    open spec fn view(&self) -> StepView {
        match self {
            NextStep::Task(tid) => StepView::Task(*tid),
            NextStep::Failure(msg) => StepView::Failure(msg@),
            NextStep::Finished => StepView::Finished,
        }
    }
}

/// The entry of a task in the list handed to the strategy.
pub open spec fn entry(task: TaskView) -> (TaskId, usize) {
    (task.id, task.instructions)
}

/// The runnable tasks among `tasks`, in order, each with its instruction count.
pub open spec fn runnable_of(tasks: Seq<TaskView>) -> Seq<(TaskId, usize)> {
    tasks.filter(|t: TaskView| t.runnable).map_values(|t: TaskView| entry(t))
}

/// The runnable tasks, with one more task behind the others.
pub proof fn lemma_runnable_push(tasks: Seq<TaskView>, task: TaskView)
    ensures
        runnable_of(tasks.push(task)) == if task.runnable {
            runnable_of(tasks).push(entry(task))
        } else {
            runnable_of(tasks)
        },
        runnable_of(Seq::empty()) == Seq::<(TaskId, usize)>::empty(),
        runnable_of(tasks).len() <= tasks.len(),
{
    tasks.lemma_filter_push(task, |t: TaskView| t.runnable);
    tasks.lemma_filter_len(|t: TaskView| t.runnable);
    reveal(Seq::filter);
    assert(runnable_of(tasks.push(task)) =~= if task.runnable {
        runnable_of(tasks).push(entry(task))
    } else {
        runnable_of(tasks)
    });
    assert(runnable_of(Seq::empty()) =~= Seq::<(TaskId, usize)>::empty());
}

/// The state of one execution, as a mathematical value.
pub ghost struct ExecutionView {
    pub tasks: Seq<TaskView>,
    pub current: ScheduledTask,
    pub next: ScheduledTask,
    pub cleaned_up: bool,
}

impl ExecutionView {
    /// The state in which an execution starts.
    pub open spec fn initial() -> ExecutionView {
        ExecutionView {
            tasks: Seq::empty(),
            current: ScheduledTask::Nothing,
            next: ScheduledTask::Nothing,
            cleaned_up: false,
        }
    }

    /// Task ids are the positions in the registry, and no finished task is
    /// runnable.
    pub open spec fn wf(self) -> bool {
        &&& forall|i: int|
            0 <= i < self.tasks.len() ==> (#[trigger] self.tasks[i]).id == TaskId(i as usize)
                && self.tasks[i].wf()
        &&& self.tasks.len() <= isize::MAX
    }

    /// Whether a task of the registry is the current one.
    pub open spec fn has_current(self) -> bool {
        self.current matches ScheduledTask::Task(id) && id.0 < self.tasks.len()
    }

    /// The current task, where a task of the registry is the current one.
    pub open spec fn current_view(self) -> TaskView
        recommends
            self.has_current(),
    {
        self.tasks[self.current->Task_0.0 as int]
    }

    /// The runnable tasks in spawn order, each with its instruction count:
    /// what the strategy is asked to choose from.
    pub open spec fn runnable(self) -> Seq<(TaskId, usize)> {
        runnable_of(self.tasks)
    }

    pub open spec fn all_finished(self) -> bool {
        forall|i: int| 0 <= i < self.tasks.len() ==> (#[trigger] self.tasks[i]).finished
    }

    /// Whether `id` names a task of the registry that is runnable.
    pub open spec fn selectable(self, id: TaskId) -> bool {
        id.0 < self.tasks.len() && self.tasks[id.0 as int].runnable
    }

    /// Whether a call of `schedule` in this state asks the strategy.
    pub open spec fn consults(self) -> bool {
        self.next == ScheduledTask::Nothing && self.runnable().len() > 0
    }

    /// The state after the strategy's answer was taken down, as it came: the
    /// chosen task is next, and `None` stops the execution.
    pub open spec fn recorded(self, choice: Option<TaskId>) -> ExecutionView {
        ExecutionView {
            next: match choice {
                Some(id) => ScheduledTask::Task(id),
                None => ScheduledTask::Stopped,
            },
            ..self
        }
    }

    /// The state after `schedule`, where `choice` is the strategy's answer if
    /// it was asked.
    pub open spec fn scheduled(self, choice: Option<TaskId>) -> ExecutionView {
        if self.next != ScheduledTask::Nothing {
            self
        } else if self.runnable().len() == 0 {
            ExecutionView { next: ScheduledTask::Finished, ..self }
        } else {
            self.recorded(choice)
        }
    }

    /// Whether `choice` is an answer that the strategy can give when
    /// `schedule` runs in this state: if the strategy is asked, it is asked to
    /// choose among the runnable tasks, and told the task that ran last.
    pub open spec fn asked<S: Strategy>(self, strategy: S, choice: Option<TaskId>) -> bool {
        self.consults() ==> strategy.may_choose(self.runnable(), self.current.spec_id(), choice)
    }

    /// The state after the chosen task became the current one.
    pub open spec fn advanced(self) -> ExecutionView {
        ExecutionView { current: self.next, next: ScheduledTask::Nothing, ..self }
    }

    /// The state after one more task was spawned.
    pub open spec fn spawned(self, name: Option<Seq<char>>) -> ExecutionView {
        ExecutionView {
            tasks: self.tasks.push(TaskView::fresh(TaskId(self.tasks.len() as usize), name)),
            ..self
        }
    }

    /// The state with the task `id` replaced.
    pub open spec fn with_task(self, id: TaskId, task: TaskView) -> ExecutionView {
        ExecutionView { tasks: self.tasks.update(id.0 as int, task), ..self }
    }

    /// What the driver does once a task was made current: it resumes a task
    /// of the registry, runnable or not, and fails on one that is not there.
    pub open spec fn step(self) -> StepView {
        match self.current {
            ScheduledTask::Task(tid) => if tid.0 < self.tasks.len() {
                StepView::Task(tid)
            } else {
                StepView::Failure(unknown_task_message())
            },
            ScheduledTask::Finished => if self.all_finished() {
                StepView::Finished
            } else {
                StepView::Failure(deadlock_message(self.tasks))
            },
            ScheduledTask::Stopped => StepView::Finished,
            ScheduledTask::Nothing => StepView::Failure(no_task_message()),
        }
    }

    /// The state after the first phase of a step, and what the driver does
    /// next; `choice` is the strategy's answer if it was asked.
    pub open spec fn stepped(self, choice: Option<TaskId>) -> (ExecutionView, StepView) {
        let after = self.scheduled(choice).advanced();
        (after, after.step())
    }

    /// The state after `maybe_yield`, and whether the current task yields;
    /// `choice` is the strategy's answer if it was asked.
    pub open spec fn yielded(self, choice: Option<TaskId>) -> (ExecutionView, bool) {
        let after = self.scheduled(choice);
        if after.current == after.next {
            (after.advanced(), false)
        } else {
            (after, true)
        }
    }

    /// Whether `cleanup` may run: the execution has ended, and every task has
    /// finished unless the strategy stopped it.
    pub open spec fn may_clean_up(self) -> bool {
        self.current == ScheduledTask::Stopped || (self.current == ScheduledTask::Finished
            && self.all_finished())
    }
}

/// The part of one execution's state that its tasks reach: the registry of
/// tasks, the task that runs and the one chosen to run next, and the strategy.
pub struct ExecutionState<S: Strategy> {
    tasks: TaskList,
    current_task: ScheduledTask,
    next_task: ScheduledTask,
    strategy: S,
    has_cleaned_up: bool,
}

impl<S: Strategy> View for ExecutionState<S> {
    type V = ExecutionView;

    closed spec fn view(&self) -> ExecutionView {
        ExecutionView {
            tasks: task_list(self.tasks).map_values(|t: Task| t@),
            current: self.current_task,
            next: self.next_task,
            cleaned_up: self.has_cleaned_up,
        }
    }
}

impl<S: Strategy> ExecutionState<S> {
    /// The strategy that this execution asks.
    pub closed spec fn spec_strategy(&self) -> S {
        self.strategy
    }

    pub fn new(strategy: S) -> (state: Self)
        ensures
            state@ == ExecutionView::initial(),
            state.spec_strategy() == strategy,
            state@.wf(),
    {
        let state = ExecutionState {
            tasks: tasks_new(),
            current_task: ScheduledTask::Nothing,
            next_task: ScheduledTask::Nothing,
            strategy,
            has_cleaned_up: false,
        };
        assert(state@.tasks =~= Seq::<TaskView>::empty());
        state
    }

    /// Adds a task to the registry, runnable, and returns its id: the number
    /// of tasks spawned before it.
    pub fn spawn_thread(&mut self, name: Option<String>) -> (id: TaskId)
        requires
            old(self)@.wf(),
            old(self)@.tasks.len() < isize::MAX,
        ensures
            id == TaskId(old(self)@.tasks.len() as usize),
            final(self)@ == old(self)@.spawned(
                match name {
                    Some(n) => Some(n@),
                    None => None,
                },
            ),
            final(self)@.wf(),
            final(self).spec_strategy() == old(self).spec_strategy(),
    {
        let task_id = TaskId(tasks_len(&self.tasks));
        let task = Task::new(task_id, name);
        tasks_push(&mut self.tasks, task);
        assert(self@.tasks =~= old(self)@.tasks.push(task@));
        task_id
    }

    pub fn is_running(&self) -> (running: bool)
        ensures
            running == (self@.current is Task),
    {
        match self.current_task {
            ScheduledTask::Task(_) => true,
            _ => false,
        }
    }

    pub fn try_get(&self, id: TaskId) -> (task: Option<&Task>)
        ensures
            match task {
                Some(t) => id.0 < self@.tasks.len() && t@ == self@.tasks[id.0 as int],
                None => id.0 >= self@.tasks.len(),
            },
    {
        tasks_get(&self.tasks, id.0)
    }

    pub fn get(&self, id: TaskId) -> (task: &Task)
        requires
            id.0 < self@.tasks.len(),
        ensures
            task@ == self@.tasks[id.0 as int],
    {
        self.try_get(id).unwrap()
    }

    /// A borrow of the task `id`: what is written through it takes the task's
    /// place in the registry.
    pub fn get_mut(&mut self, id: TaskId) -> (task: &mut Task)
        requires
            id.0 < old(self)@.tasks.len(),
        ensures
            task@ == old(self)@.tasks[id.0 as int],
            final(self)@ == old(self)@.with_task(id, final(task)@),
            final(self).spec_strategy() == old(self).spec_strategy(),
    {
        let ghost before = task_list(self.tasks);
        let task = tasks_get_mut(&mut self.tasks, id.0);
        proof {
            assert(before.update(id.0 as int, *final(task)).map_values(|t: Task| t@)
                =~= before.map_values(|t: Task| t@).update(id.0 as int, final(task)@));
        }
        task
    }

    pub fn try_current(&self) -> (task: Option<&Task>)
        ensures
            match task {
                Some(t) => self@.has_current() && t@ == self@.current_view(),
                None => !self@.has_current(),
            },
    {
        match self.current_task.id() {
            Some(id) => self.try_get(id),
            None => None,
        }
    }

    pub fn current(&self) -> (task: &Task)
        requires
            self@.has_current(),
        ensures
            task@ == self@.current_view(),
    {
        self.get(self.current_task.id().unwrap())
    }

    pub fn current_mut(&mut self) -> (task: &mut Task)
        requires
            old(self)@.has_current(),
        ensures
            task@ == old(self)@.current_view(),
            final(self)@ == old(self)@.with_task(old(self)@.current->Task_0, final(task)@),
            final(self).spec_strategy() == old(self).spec_strategy(),
    {
        let id = self.current_task.id().unwrap();
        self.get_mut(id)
    }

    pub fn strategy(&self) -> (strategy: &S)
        ensures
            *strategy == self.spec_strategy(),
    {
        &self.strategy
    }

    /// The task that runs, or how the execution ended.
    pub fn current_task(&self) -> (current: ScheduledTask)
        ensures
            current == self@.current,
    {
        self.current_task
    }

    /// The task chosen to run next, if one is chosen.
    pub fn next_task(&self) -> (next: ScheduledTask)
        ensures
            next == self@.next,
    {
        self.next_task
    }

    /// The number of tasks spawned so far.
    pub fn task_count(&self) -> (n: usize)
        ensures
            n == self@.tasks.len(),
    {
        tasks_len(&self.tasks)
    }

    /// Whether `cleanup` has run.
    pub fn has_cleaned_up(&self) -> (done: bool)
        ensures
            done == self@.cleaned_up,
    {
        self.has_cleaned_up
    }

    /// The runnable tasks in spawn order, each with its instruction count.
    fn runnable_tasks(&self) -> (list: RunnableList)
        requires
            self@.wf(),
        ensures
            runnable_list(list) == self@.runnable(),
    {
        let n = tasks_len(&self.tasks);
        let mut list = runnable_new();
        let mut i: usize = 0;
        proof {
            lemma_runnable_push(Seq::empty(), TaskView::fresh(TaskId(0), None));
            assert(self@.tasks.take(0) =~= Seq::<TaskView>::empty());
        }
        while i < n
            invariant
                n == self@.tasks.len(),
                n <= isize::MAX,
                i <= n,
                runnable_list(list) == runnable_of(self@.tasks.take(i as int)),
                runnable_list(list).len() <= i,
            decreases n - i,
        {
            let task = tasks_get(&self.tasks, i).unwrap();
            proof {
                lemma_runnable_push(self@.tasks.take(i as int), task@);
                assert(self@.tasks.take(i as int + 1) =~= self@.tasks.take(i as int).push(task@));
            }
            if task.runnable() {
                runnable_push(&mut list, (task.id(), task.instructions()));
            }
            i = i + 1;
        }
        proof {
            assert(self@.tasks.take(n as int) =~= self@.tasks);
        }
        list
    }

    /// Whether every task has finished.
    pub fn all_finished(&self) -> (all: bool)
        ensures
            all == self@.all_finished(),
    {
        let n = tasks_len(&self.tasks);
        let mut i: usize = 0;
        while i < n
            invariant
                n == self@.tasks.len(),
                i <= n,
                forall|j: int| 0 <= j < i ==> (#[trigger] self@.tasks[j]).finished,
            decreases n - i,
        {
            let task = tasks_get(&self.tasks, i).unwrap();
            if !task.finished() {
                assert(!self@.tasks[i as int].finished);
                return false;
            }
            i = i + 1;
        }
        true
    }

    /// The report of a deadlock: the tasks that have not finished, in spawn
    /// order, each by its name and number.
    pub fn deadlock_report(&self) -> (msg: String)
        ensures
            msg@ == deadlock_message(self@.tasks),
    {
        let n = tasks_len(&self.tasks);
        let mut body = String::new();
        let mut any = false;
        let mut i: usize = 0;
        proof {
            lemma_blocked_labels_push(Seq::empty(), TaskView::fresh(TaskId(0), None));
            assert(self@.tasks.take(0) =~= Seq::<TaskView>::empty());
        }
        while i < n
            invariant
                n == self@.tasks.len(),
                i <= n,
                any == (blocked_labels(self@.tasks.take(i as int)).len() > 0),
                body@ == join(blocked_labels(self@.tasks.take(i as int)), ", "@),
            decreases n - i,
        {
            let task = tasks_get(&self.tasks, i).unwrap();
            proof {
                lemma_blocked_labels_push(self@.tasks.take(i as int), task@);
                lemma_join_push(
                    blocked_labels(self@.tasks.take(i as int)),
                    blocked_label(task@),
                    ", "@,
                );
                assert(self@.tasks.take(i as int + 1) =~= self@.tasks.take(i as int).push(task@));
            }
            if !task.finished() {
                if any {
                    body.append(", ");
                }
                let label = blocked_label_string(task);
                body.append(label.as_str());
                any = true;
            }
            i = i + 1;
        }
        proof {
            assert(self@.tasks.take(n as int) =~= self@.tasks);
        }
        let mut msg = String::from_str("deadlock! blocked tasks: [");
        msg.append(body.as_str());
        msg.append("]");
        msg
    }

    /// Takes down the strategy's answer, as it came: the chosen task is next,
    /// and `None` stops the execution. It always succeeds.
    pub fn record_choice(&mut self, choice: Option<TaskId>) -> (r: Result<(), String>)
        ensures
            r is Ok,
            final(self)@ == old(self)@.recorded(choice),
            final(self).spec_strategy() == old(self).spec_strategy(),
    {
        self.next_task = match choice {
            Some(id) => ScheduledTask::Task(id),
            None => ScheduledTask::Stopped,
        };
        Ok(())
    }

    /// Chooses the task to run next, unless one is chosen already. With no
    /// runnable task the execution is finished; otherwise the strategy is
    /// asked, with the runnable tasks and the task that ran last, and its
    /// answer is taken down as it comes. It always succeeds.
    pub fn schedule(&mut self) -> (r: Result<(), String>)
        requires
            old(self)@.wf(),
        ensures
            r is Ok,
            final(self)@.wf(),
            exists|choice: Option<TaskId>|
                {
                    &&& old(self)@.asked(old(self).spec_strategy(), choice)
                    &&& final(self)@ == #[trigger] old(self)@.scheduled(choice)
                },
            !old(self)@.consults() ==> final(self).spec_strategy() == old(self).spec_strategy(),
    {
        if self.next_task != ScheduledTask::Nothing {
            assert(self@ == old(self)@.scheduled(None));
            return Ok(());
        }
        let runnable = self.runnable_tasks();
        if runnable_is_empty(&runnable) {
            self.next_task = ScheduledTask::Finished;
            assert(self@ == old(self)@.scheduled(None));
            return Ok(());
        }
        let choice = self.strategy.next_task(runnable_as_slice(&runnable), self.current_task.id());
        let r = self.record_choice(choice);
        assert(self@ == old(self)@.scheduled(choice));
        r
    }

    /// Makes the chosen task the current one, and leaves nothing chosen.
    pub fn advance_to_next_task(&mut self)
        requires
            old(self)@.next != ScheduledTask::Nothing,
        ensures
            final(self)@ == old(self)@.advanced(),
            final(self).spec_strategy() == old(self).spec_strategy(),
            old(self)@.wf() ==> final(self)@.wf(),
    {
        self.current_task = self.next_task.take();
    }

    /// Lets the strategy choose while a task runs. Returns whether the task
    /// is to yield: not where the strategy chose the same task again, which
    /// then goes on as the current one.
    pub fn maybe_yield(&mut self) -> (yield_now: bool)
        requires
            old(self)@.wf(),
            old(self)@.current is Task,
            old(self)@.next == ScheduledTask::Nothing,
        ensures
            final(self)@.wf(),
            exists|choice: Option<TaskId>|
                {
                    &&& old(self)@.asked(old(self).spec_strategy(), choice)
                    &&& (final(self)@, yield_now) == #[trigger] old(self)@.yielded(choice)
                },
            !old(self)@.consults() ==> final(self).spec_strategy() == old(self).spec_strategy(),
    {
        let result = self.schedule();
        let ghost choice = choose|choice: Option<TaskId>|
            {
                &&& old(self)@.asked(old(self).spec_strategy(), choice)
                &&& self@ == #[trigger] old(self)@.scheduled(choice)
            };
        if result.is_err() {
            return true;
        }
        if self.current_task == self.next_task {
            self.advance_to_next_task();
            assert((self@, false) == old(self)@.yielded(choice));
            false
        } else {
            assert((self@, true) == old(self)@.yielded(choice));
            true
        }
    }

    /// The first phase of a step: chooses the task to run, makes it the
    /// current one, and says what the driver does next. A deadlock, where no
    /// task can run and not all have finished, is a failure, and so is a
    /// chosen task that is not in the registry.
    pub fn next_step(&mut self) -> (step: NextStep)
        requires
            old(self)@.wf(),
        ensures
            final(self)@.wf(),
            exists|choice: Option<TaskId>|
                {
                    &&& old(self)@.asked(old(self).spec_strategy(), choice)
                    &&& (final(self)@, step@) == #[trigger] old(self)@.stepped(choice)
                },
            !old(self)@.consults() ==> final(self).spec_strategy() == old(self).spec_strategy(),
    {
        let result = self.schedule();
        let ghost choice = choose|choice: Option<TaskId>|
            {
                &&& old(self)@.asked(old(self).spec_strategy(), choice)
                &&& self@ == #[trigger] old(self)@.scheduled(choice)
            };
        if let Err(msg) = result {
            return NextStep::Failure(msg);
        }
        self.advance_to_next_task();
        let step = match self.current_task {
            ScheduledTask::Task(tid) => {
                if tid.0 < tasks_len(&self.tasks) {
                    NextStep::Task(tid)
                } else {
                    NextStep::Failure(String::from_str("the scheduled task is not in the registry"))
                }
            },
            ScheduledTask::Finished => {
                if self.all_finished() {
                    NextStep::Finished
                } else {
                    NextStep::Failure(self.deadlock_report())
                }
            },
            ScheduledTask::Stopped => NextStep::Finished,
            ScheduledTask::Nothing => NextStep::Failure(String::from_str("no task was scheduled")),
        };
        assert((self@, step@) == old(self)@.stepped(choice));
        step
    }

    /// The last phase of a step in which the current task returned: the task
    /// is finished.
    pub fn finish_current(&mut self)
        requires
            old(self)@.has_current(),
        ensures
            final(self)@ == old(self)@.with_task(
                old(self)@.current->Task_0,
                TaskView { finished: true, runnable: false, ..old(self)@.current_view() },
            ),
            old(self)@.wf() ==> final(self)@.wf(),
            final(self).spec_strategy() == old(self).spec_strategy(),
    {
        self.current_mut().finish();
    }

    /// Moves the current task on to its next instruction and returns that position.
    pub fn next_pos(&mut self) -> (pos: Event)
        requires
            old(self)@.has_current(),
            old(self)@.current_view().instructions < usize::MAX,
        ensures
            old(self).spec_strategy().may_name(old(self)@.current->Task_0, pos.thread),
            pos.index == (old(self)@.current_view().instructions + 1) as u32,
            final(self)@ == old(self)@.with_task(
                old(self)@.current->Task_0,
                TaskView {
                    instructions: (old(self)@.current_view().instructions + 1) as usize,
                    ..old(self)@.current_view()
                },
            ),
            old(self)@.wf() ==> final(self)@.wf(),
            final(self).spec_strategy() == old(self).spec_strategy(),
    {
        let tid = self.strategy.to_thread_id(self.current_task.id().unwrap());
        let icount = self.current_mut().advance();
        Event::new(tid, #[verifier::truncate] (icount as u32))
    }

    /// Moves the current task back to the instruction before and returns
    /// that position.
    pub fn prev_pos(&mut self) -> (pos: Event)
        requires
            old(self)@.has_current(),
            old(self)@.current_view().instructions > 0,
        ensures
            old(self).spec_strategy().may_name(old(self)@.current->Task_0, pos.thread),
            pos.index == (old(self)@.current_view().instructions - 1) as u32,
            final(self)@ == old(self)@.with_task(
                old(self)@.current->Task_0,
                TaskView {
                    instructions: (old(self)@.current_view().instructions - 1) as usize,
                    ..old(self)@.current_view()
                },
            ),
            old(self)@.wf() ==> final(self)@.wf(),
            final(self).spec_strategy() == old(self).spec_strategy(),
    {
        let tid = self.strategy.to_thread_id(self.current_task.id().unwrap());
        let icount = self.current_mut().retreat();
        Event::new(tid, #[verifier::truncate] (icount as u32))
    }

    /// The position that the current task has reached.
    pub fn curr_pos(&self) -> (pos: Event)
        requires
            self@.has_current(),
        ensures
            self.spec_strategy().may_name(self@.current->Task_0, pos.thread),
            pos.index == self@.current_view().instructions as u32,
    {
        let tid = self.strategy.to_thread_id(self.current_task.id().unwrap());
        let icount = self.current().instructions();
        Event::new(tid, #[verifier::truncate] (icount as u32))
    }

    /// What a failure report says of the running task: the name under which
    /// it is reported and the position it has reached. `None` where no task
    /// of the registry is running.
    pub fn failure_info(&self) -> (info: Option<(String, Event)>)
        ensures
            match info {
                Some((name, pos)) => {
                    &&& self@.has_current()
                    &&& name@ == failure_name(self@.current_view())
                    &&& self.spec_strategy().may_name(self@.current->Task_0, pos.thread)
                    &&& pos.index == self@.current_view().instructions as u32
                },
                None => !self@.has_current(),
            },
    {
        match self.try_current() {
            Some(task) => {
                let name = failure_name_string(task);
                Some((name, self.curr_pos()))
            },
            None => None,
        }
    }

    /// Whether the state may be dropped: only after `cleanup`, unless the
    /// thread is unwinding from a panic already.
    pub fn may_drop(&self, panicking: bool) -> (allowed: bool)
        ensures
            allowed == (self@.cleaned_up || panicking),
    {
        self.has_cleaned_up || panicking
    }

    /// Whether `cleanup` may run: the execution has ended, and every task has
    /// finished unless the strategy stopped it.
    pub fn cleanup_allowed(&self) -> (allowed: bool)
        ensures
            allowed == self@.may_clean_up(),
    {
        match self.current_task {
            ScheduledTask::Stopped => true,
            ScheduledTask::Finished => self.all_finished(),
            _ => false,
        }
    }

    /// Ends the execution: hands the tasks out, in spawn order, and leaves
    /// the registry empty, so that the caller can drop them while the state
    /// is no longer borrowed.
    pub fn cleanup(&mut self) -> (tasks: Vec<Task>)
        requires
            old(self)@.may_clean_up(),
        ensures
            tasks@.map_values(|t: Task| t@) == old(self)@.tasks,
            final(self)@ == (ExecutionView {
                tasks: Seq::empty(),
                cleaned_up: true,
                ..old(self)@
            }),
            final(self)@.wf(),
            final(self).spec_strategy() == old(self).spec_strategy(),
    {
        let mut tasks = tasks_new();
        std::mem::swap(&mut self.tasks, &mut tasks);
        self.has_cleaned_up = true;
        assert(self@.tasks =~= Seq::<TaskView>::empty());
        tasks_into_vec(tasks)
    }
}

/// One run of a closure under a strategy.
pub struct Execution<S: Strategy> {
    strategy: S,
}

impl<S: Strategy> Execution<S> {
    pub closed spec fn spec_strategy(&self) -> S {
        self.strategy
    }

    pub fn new(strategy: S) -> (execution: Self)
        ensures
            execution.spec_strategy() == strategy,
    {
        Execution { strategy }
    }

    /// The state in which the run begins: the root task, under the given
    /// name, is task 0 and the only one.
    pub fn start(self, root: Option<String>) -> (state: ExecutionState<S>)
        ensures
            state@ == ExecutionView::initial().spawned(
                match root {
                    Some(n) => Some(n@),
                    None => None,
                },
            ),
            state@.wf(),
            state.spec_strategy() == self.spec_strategy(),
    {
        let mut state = ExecutionState::new(self.strategy);
        state.spawn_thread(root);
        state
    }
}

/// Whether the ids of `tasks` are their positions.
pub open spec fn dense(tasks: Seq<TaskView>) -> bool {
    &&& tasks.len() <= usize::MAX
    &&& forall|i: int| 0 <= i < tasks.len() ==> (#[trigger] tasks[i]).id == TaskId(i as usize)
}

/// Of tasks whose ids are their positions, the list handed to the strategy
/// holds exactly the runnable ones: each entry is that of a runnable task,
/// with its instruction count, every runnable task has its entry, and the
/// entries come in spawn order.
pub proof fn lemma_runnable_entries(tasks: Seq<TaskView>)
    requires
        dense(tasks),
    ensures
        forall|k: int|
            0 <= k < runnable_of(tasks).len() ==> {
                let e = #[trigger] runnable_of(tasks)[k];
                &&& e.0.0 < tasks.len()
                &&& tasks[e.0.0 as int].runnable
                &&& e == entry(tasks[e.0.0 as int])
            },
        forall|i: int|
            0 <= i < tasks.len() && (#[trigger] tasks[i]).runnable ==> runnable_of(
                tasks,
            ).contains(entry(tasks[i])),
        forall|j: int, k: int|
            0 <= j < k < runnable_of(tasks).len() ==> (#[trigger] runnable_of(tasks)[j]).0.0 < (
            #[trigger] runnable_of(tasks)[k]).0.0,
    decreases tasks.len(),
{
    if tasks.len() == 0 {
        lemma_runnable_push(Seq::empty(), TaskView::fresh(TaskId(0), None));
        assert(tasks =~= Seq::<TaskView>::empty());
    } else {
        let init = tasks.drop_last();
        let last = tasks.last();
        assert(tasks =~= init.push(last));
        lemma_runnable_push(init, last);
        assert(dense(init)) by {
            assert forall|i: int| 0 <= i < init.len() implies (#[trigger] init[i]).id == TaskId(
                i as usize,
            ) by {
                assert(init[i] == tasks[i]);
            }
        }
        lemma_runnable_entries(init);
        let before = runnable_of(init);
        let all = runnable_of(tasks);
        assert forall|k: int| 0 <= k < all.len() implies {
            let e = #[trigger] all[k];
            &&& e.0.0 < tasks.len()
            &&& tasks[e.0.0 as int].runnable
            &&& e == entry(tasks[e.0.0 as int])
        } by {
            if k < before.len() {
                let e = before[k];
                assert(all[k] == e);
                assert(init[e.0.0 as int] == tasks[e.0.0 as int]);
            } else {
                assert(all[k] == entry(last));
                assert(last == tasks[tasks.len() - 1]);
            }
        }
        assert forall|i: int| 0 <= i < tasks.len() && (#[trigger] tasks[i]).runnable implies all.contains(
            entry(tasks[i]),
        ) by {
            if i < init.len() {
                assert(init[i] == tasks[i]);
                assert(before.contains(entry(init[i])));
                let k = choose|k: int| 0 <= k < before.len() && before[k] == entry(init[i]);
                assert(all[k] == entry(tasks[i]));
            } else {
                assert(all[all.len() - 1] == entry(tasks[i]));
            }
        }
        assert forall|j: int, k: int| 0 <= j < k < all.len() implies (#[trigger] all[j]).0.0 < (
        #[trigger] all[k]).0.0 by {
            if k < before.len() {
                assert(all[j] == before[j] && all[k] == before[k]);
            } else {
                assert(all[j] == before[j]);
                assert(all[k] == entry(last));
                assert(last == tasks[tasks.len() - 1]);
            }
        }
    }
}

/// The strategy is offered a task if and only if the task is in the registry
/// and runnable; a finished task is never offered.
pub proof fn lemma_offered_iff_selectable(s: ExecutionView, id: TaskId)
    requires
        s.wf(),
    ensures
        s.selectable(id) <==> exists|k: int|
            0 <= k < s.runnable().len() && (#[trigger] s.runnable()[k]).0 == id,
        s.selectable(id) ==> !s.tasks[id.0 as int].finished && s.runnable().contains(
            (id, s.tasks[id.0 as int].instructions),
        ),
{
    assert(dense(s.tasks));
    lemma_runnable_entries(s.tasks);
    if s.selectable(id) {
        let t = s.tasks[id.0 as int];
        assert(t.id == id);
        assert(t.wf());
        assert(s.runnable().contains(entry(t)));
        let k = choose|k: int| 0 <= k < s.runnable().len() && s.runnable()[k] == entry(t);
        assert(s.runnable()[k].0 == id);
    }
    if exists|k: int| 0 <= k < s.runnable().len() && (#[trigger] s.runnable()[k]).0 == id {
        let k = choose|k: int| 0 <= k < s.runnable().len() && (#[trigger] s.runnable()[k]).0 == id;
        let e = s.runnable()[k];
        assert(s.tasks[e.0.0 as int].runnable);
    }
}

/// The ids of the tasks of a registry are the numbers below its length, each once.
pub proof fn lemma_ids_are_dense(s: ExecutionView)
    requires
        s.wf(),
    ensures
        s.tasks.map_values(|t: TaskView| t.id).to_set() == Set::new(
            |id: TaskId| id.0 < s.tasks.len(),
        ),
        forall|i: int, j: int|
            0 <= i < j < s.tasks.len() ==> (#[trigger] s.tasks[i]).id != (#[trigger] s.tasks[j]).id,
{
    let ids = s.tasks.map_values(|t: TaskView| t.id);
    let below = Set::new(|id: TaskId| id.0 < s.tasks.len());
    assert forall|id: TaskId| ids.to_set().contains(id) <==> below.contains(id) by {
        if ids.to_set().contains(id) {
            let i = choose|i: int| 0 <= i < ids.len() && ids[i] == id;
            assert(s.tasks[i].id == id);
        }
        if below.contains(id) {
            assert(ids[id.0 as int] == s.tasks[id.0 as int].id);
            assert(ids.contains(id));
        }
    }
    assert(ids.to_set() =~= below);
}

/// The current task is changed by `advance_to_next_task` alone: to schedule,
/// to take down a choice, to spawn a task or to write to one leaves it as it is.
pub proof fn lemma_current_is_kept(
    s: ExecutionView,
    choice: Option<TaskId>,
    name: Option<Seq<char>>,
    id: TaskId,
    task: TaskView,
)
    ensures
        s.scheduled(choice).current == s.current,
        s.recorded(choice).current == s.current,
        s.spawned(name).current == s.current,
        s.with_task(id, task).current == s.current,
{
}

/// A step tells the driver to resume a task only where that task is the
/// current one and in the registry; a step that leaves the execution stopped
/// or finished tells the driver to stop or to fail.
pub proof fn lemma_ended_execution_resumes_nothing(s: ExecutionView, choice: Option<TaskId>)
    ensures
        s.stepped(choice).1 matches StepView::Task(id) ==> s.stepped(choice).0.current
            == ScheduledTask::Task(id) && s.stepped(choice).0.has_current(),
        s.stepped(choice).0.current.is_terminal() ==> !(s.stepped(choice).1 is Task),
{
}

/// An execution that finished for want of runnable tasks stays finished at
/// every further step, as long as no task is made runnable again.
pub proof fn lemma_finished_stays_finished(s: ExecutionView, choice: Option<TaskId>)
    requires
        s.current == ScheduledTask::Finished,
        s.next == ScheduledTask::Nothing,
        s.runnable().len() == 0,
    ensures
        s.stepped(choice).0 == s,
{
}

/// After `advance_to_next_task` took a chosen task, that task and no other
/// is the current one, and it stays so until the next `advance_to_next_task`.
pub proof fn lemma_one_task_is_current(
    s: ExecutionView,
    choice: Option<TaskId>,
    name: Option<Seq<char>>,
    id: TaskId,
    task: TaskView,
)
    requires
        s.next is Task,
    ensures
        s.advanced().current == s.next,
        s.advanced().next == ScheduledTask::Nothing,
        forall|other: TaskId|
            s.advanced().current == ScheduledTask::Task(other) <==> other == s.next->Task_0,
        s.advanced().spawned(name).current == s.next,
        s.advanced().with_task(id, task).current == s.next,
{
}

/// No finished task is offered to the strategy.
pub proof fn lemma_finished_is_not_offered(s: ExecutionView, id: TaskId)
    requires
        s.wf(),
        id.0 < s.tasks.len(),
        s.tasks[id.0 as int].finished,
    ensures
        !s.selectable(id),
        forall|k: int| 0 <= k < s.runnable().len() ==> (#[trigger] s.runnable()[k]).0 != id,
{
    assert(s.tasks[id.0 as int].wf());
    lemma_offered_iff_selectable(s, id);
}

/// Where the strategy is asked, `schedule` takes its answer down as it
/// comes: the chosen task is next, whatever task it is, and `None` stops the
/// execution. Nothing else is left as the choice then.
pub proof fn lemma_answer_is_taken_down(s: ExecutionView, choice: Option<TaskId>)
    requires
        s.consults(),
    ensures
        choice matches Some(id) ==> s.scheduled(choice).next == ScheduledTask::Task(id),
        choice is None ==> s.scheduled(choice).next == ScheduledTask::Stopped,
        s.scheduled(choice).next != ScheduledTask::Nothing,
        s.scheduled(choice).next != ScheduledTask::Finished,
        s.scheduled(choice) == (ExecutionView { next: s.scheduled(choice).next, ..s }),
{
}

/// Inside a task, `maybe_yield` says not to yield exactly where the strategy
/// was asked and chose the current task again; nothing is left chosen then.
/// Where the task is to yield, the choice is left pending: another task, the
/// stop, or the end for want of runnable tasks. The current task stays the
/// current one either way.
pub proof fn lemma_yield_unless_same_task(s: ExecutionView, choice: Option<TaskId>)
    requires
        s.current is Task,
        s.next == ScheduledTask::Nothing,
    ensures
        !s.yielded(choice).1 <==> s.consults() && choice == Some(s.current->Task_0),
        !s.yielded(choice).1 ==> s.yielded(choice).0 == s,
        s.yielded(choice).1 ==> s.yielded(choice).0 == s.scheduled(choice) && s.yielded(
            choice,
        ).0.next != ScheduledTask::Nothing && s.yielded(choice).0.next != s.current,
        s.yielded(choice).0.current == s.current,
{
}

/// A spawn keeps the ids dense: the new task's id is the number of tasks
/// spawned before it, and the ids are again the positions.
pub proof fn lemma_spawn_keeps_ids_dense(s: ExecutionView, name: Option<Seq<char>>)
    requires
        dense(s.tasks),
        s.tasks.len() < usize::MAX,
    ensures
        dense(s.spawned(name).tasks),
        s.spawned(name).tasks.len() == s.tasks.len() + 1,
        s.spawned(name).tasks.last().id == TaskId(s.tasks.len() as usize),
        forall|i: int| 0 <= i < s.tasks.len() ==> s.spawned(name).tasks[i] == s.tasks[i],
{
}

/// Whatever the strategy answers, a well-formed state stays well-formed
/// through `schedule`, `advance_to_next_task` and a spawn.
pub proof fn lemma_wf_is_kept(s: ExecutionView, choice: Option<TaskId>, name: Option<Seq<char>>)
    requires
        s.wf(),
    ensures
        s.scheduled(choice).wf(),
        s.scheduled(choice).advanced().wf(),
        s.stepped(choice).0.wf(),
        s.yielded(choice).0.wf(),
        s.tasks.len() < isize::MAX ==> s.spawned(name).wf(),
{
}

} // verus!
