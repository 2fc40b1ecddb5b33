use vstd::prelude::*;
use smallvec::SmallVec;
use crate::task::{Task, TaskId, DEFAULT_INLINE_TASKS};

verus! {

/// The tasks of one execution, in spawn order, kept in a `smallvec::SmallVec`
/// that holds the first few inline.
#[verifier::external_body]
pub struct TaskList {
    inner: SmallVec<[Task; DEFAULT_INLINE_TASKS]>,
}

/// The tasks that a `TaskList` holds, first spawned first.
pub uninterp spec fn task_list(v: TaskList) -> Seq<Task>;

/// The runnable tasks handed to the strategy at one scheduling point, each
/// with its instruction count, kept in a `smallvec::SmallVec`.
#[verifier::external_body]
pub struct RunnableList {
    inner: SmallVec<[(TaskId, usize); DEFAULT_INLINE_TASKS]>,
}

/// The entries that a `RunnableList` holds, in the order in which they were pushed.
pub uninterp spec fn runnable_list(v: RunnableList) -> Seq<(TaskId, usize)>;

/// `SmallVec::new`: a vector that holds nothing.
#[verifier::external_body]
pub(crate) fn tasks_new() -> (v: TaskList)
    ensures
        task_list(v) == Seq::<Task>::empty(),
{
    TaskList { inner: SmallVec::new() }
}

/// `SmallVec::len`: the number of items held.
#[verifier::external_body]
pub(crate) fn tasks_len(v: &TaskList) -> (n: usize)
    ensures
        n == task_list(*v).len(),
{
    v.inner.len()
}

/// `SmallVec::push`: the item is added behind the others, which stay as they
/// are. It panics where the length can no longer be doubled, which the
/// precondition leaves out.
#[verifier::external_body]
pub(crate) fn tasks_push(v: &mut TaskList, task: Task)
    requires
        task_list(*old(v)).len() < isize::MAX,
    ensures
        task_list(*final(v)) == task_list(*old(v)).push(task),
{
    v.inner.push(task)
}

/// `get` on the slice that a `SmallVec` derefs to: the item at the index, if
/// the index is below the length.
#[verifier::external_body]
pub(crate) fn tasks_get(v: &TaskList, i: usize) -> (t: Option<&Task>)
    ensures
        i < task_list(*v).len() ==> t == Some(&task_list(*v)[i as int]),
        i >= task_list(*v).len() ==> t is None,
{
    v.inner.get(i)
}

/// `index_mut` on a `SmallVec`: a borrow of the item at the index; what is
/// written through it takes that item's place, the others stay. It panics on an
/// index that is not below the length, which the precondition leaves out.
#[verifier::external_body]
pub(crate) fn tasks_get_mut(v: &mut TaskList, i: usize) -> (t: &mut Task)
    requires
        i < task_list(*old(v)).len(),
    ensures
        *t == task_list(*old(v))[i as int],
        task_list(*final(v)) == task_list(*old(v)).update(i as int, *final(t)),
{
    &mut v.inner[i]
}

/// `SmallVec::into_vec`: the same items in the same order, as a `Vec`.
#[verifier::external_body]
pub(crate) fn tasks_into_vec(v: TaskList) -> (out: Vec<Task>)
    ensures
        out@ == task_list(v),
{
    v.inner.into_vec()
}

/// `SmallVec::new`: a vector that holds nothing.
#[verifier::external_body]
pub(crate) fn runnable_new() -> (v: RunnableList)
    ensures
        runnable_list(v) == Seq::<(TaskId, usize)>::empty(),
{
    RunnableList { inner: SmallVec::new() }
}

/// `SmallVec::push`: the entry is added behind the others, which stay as they
/// are. It panics where the length can no longer be doubled, which the
/// precondition leaves out.
#[verifier::external_body]
pub(crate) fn runnable_push(v: &mut RunnableList, entry: (TaskId, usize))
    requires
        runnable_list(*old(v)).len() < isize::MAX,
    ensures
        runnable_list(*final(v)) == runnable_list(*old(v)).push(entry),
{
    v.inner.push(entry)
}

/// `SmallVec::is_empty`: whether nothing is held.
#[verifier::external_body]
pub(crate) fn runnable_is_empty(v: &RunnableList) -> (empty: bool)
    ensures
        empty == (runnable_list(*v).len() == 0),
{
    v.inner.is_empty()
}

/// `SmallVec::as_slice`: the entries held, in order, as a slice.
#[verifier::external_body]
pub(crate) fn runnable_as_slice(v: &RunnableList) -> (s: &[(TaskId, usize)])
    ensures
        s@ == runnable_list(*v),
{
    v.inner.as_slice()
}

} // verus!
