use vstd::prelude::*;

verus! {

/// How many tasks a registry holds before it moves to the heap.
pub const DEFAULT_INLINE_TASKS: usize = 16;

/// Identity of a task: its position in spawn order, starting at 0.
/// It is also the task's index in the registry.
#[derive(Clone, Copy, Debug, PartialEq, Eq, Structural, Hash)]
pub struct TaskId(pub usize);

/// The name under which the strategy knows a task.
#[derive(Clone, Copy, Debug, PartialEq, Eq, Structural, Hash)]
pub struct ThreadId(pub usize);

/// A position in an execution: a thread and the number of the instruction
/// that the thread has reached.
#[derive(Clone, Copy, Debug, PartialEq, Eq, Structural, Hash)]
pub struct Event {
    pub thread: ThreadId,
    pub index: u32,
}

impl Event {
    pub fn new(thread: ThreadId, index: u32) -> (e: Event)
        ensures
            e == (Event { thread, index }),
    {
        Event { thread, index }
    }
}

/// What a task is, as a mathematical value.
pub ghost struct TaskView {
    pub id: TaskId,
    pub name: Option<Seq<char>>,
    pub instructions: usize,
    pub runnable: bool,
    pub finished: bool,
}

impl TaskView {
    /// A finished task is never runnable.
    pub open spec fn wf(self) -> bool {
        self.finished ==> !self.runnable
    }

    /// A task as it is when spawned: runnable, not finished, no instruction issued.
    pub open spec fn fresh(id: TaskId, name: Option<Seq<char>>) -> TaskView {
        TaskView { id, name, instructions: 0, runnable: true, finished: false }
    }
}

/// The bookkeeping of one unit of scheduled work. The code that the task runs
/// is kept by the driver, under the task's id.
#[derive(Debug)]
pub struct Task {
    id: TaskId,
    name: Option<String>,
    instructions: usize,
    runnable: bool,
    finished: bool,
}

impl View for Task {
    type V = TaskView;

    closed spec fn view(&self) -> TaskView {
        TaskView {
            id: self.id,
            name: match self.name {
                Some(n) => Some(n@),
                None => None,
            },
            instructions: self.instructions,
            runnable: self.runnable,
            finished: self.finished,
        }
    }
}

impl Task {
    #[verifier::type_invariant]
    spec fn inv(self) -> bool {
        self.finished ==> !self.runnable
    }

    pub fn new(id: TaskId, name: Option<String>) -> (t: Task)
        ensures
            t@ == TaskView::fresh(
                id,
                match name {
                    Some(n) => Some(n@),
                    None => None,
                },
            ),
    {
        Task { id, name, instructions: 0, runnable: true, finished: false }
    }

    pub fn id(&self) -> (id: TaskId)
        ensures
            id == self@.id,
    {
        self.id
    }

    pub fn name(&self) -> (name: Option<String>)
        ensures
            match name {
                Some(n) => self@.name == Some(n@),
                None => self@.name is None,
            },
    {
        match &self.name {
            Some(n) => Some(n.clone()),
            None => None,
        }
    }

    pub fn instructions(&self) -> (n: usize)
        ensures
            n == self@.instructions,
    {
        self.instructions
    }

    /// Whether the strategy may select the task now. No finished task is runnable.
    pub fn runnable(&self) -> (r: bool)
        ensures
            r == self@.runnable,
            self@.wf(),
            r ==> !self@.finished,
    {
        proof {
            use_type_invariant(self);
        }
        self.runnable
    }

    pub fn finished(&self) -> (f: bool)
        ensures
            f == self@.finished,
            self@.wf(),
            f ==> !self@.runnable,
    {
        proof {
            use_type_invariant(self);
        }
        self.finished
    }

    /// Marks the task finished, for good, and takes it out of the runnable ones.
    pub fn finish(&mut self)
        ensures
            final(self)@ == (TaskView { finished: true, runnable: false, ..old(self)@ }),
    {
        proof {
            use_type_invariant(&*self);
        }
        self.runnable = false;
        self.finished = true;
    }

    /// Takes the task out of the runnable ones until `unblock`.
    pub fn block(&mut self)
        ensures
            final(self)@ == (TaskView { runnable: false, ..old(self)@ }),
    {
        self.runnable = false;
    }

    /// Makes the task runnable again, unless it is finished.
    pub fn unblock(&mut self)
        ensures
            final(self)@ == (TaskView { runnable: !old(self)@.finished, ..old(self)@ }),
    {
        proof {
            use_type_invariant(&*self);
        }
        if !self.finished {
            self.runnable = true;
        }
    }

    /// Moves on to the next instruction and returns its number.
    pub fn advance(&mut self) -> (n: usize)
        requires
            old(self)@.instructions < usize::MAX,
        ensures
            n == old(self)@.instructions + 1,
            final(self)@ == (TaskView { instructions: n, ..old(self)@ }),
    {
        proof {
            use_type_invariant(&*self);
        }
        self.instructions = self.instructions + 1;
        self.instructions
    }

    /// Steps back to the instruction before and returns its number.
    pub fn retreat(&mut self) -> (n: usize)
        requires
            old(self)@.instructions > 0,
        ensures
            n == old(self)@.instructions - 1,
            final(self)@ == (TaskView { instructions: n, ..old(self)@ }),
    {
        proof {
            use_type_invariant(&*self);
        }
        self.instructions = self.instructions - 1;
        self.instructions
    }
}

} // verus!
