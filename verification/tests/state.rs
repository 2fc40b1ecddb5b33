use traceforge::execution::{Execution, ExecutionState, NextStep, ScheduledTask};
use traceforge::failure::{
    blocked_label_string, decimal_string, failure_name_string, panic_payload_string,
};
use traceforge::strategy::{LowestFirst, Strategy};
use traceforge::task::{Event, Task, TaskId, ThreadId};

/// A strategy that gives the answers it was made with, one per question, and
/// keeps the questions.
struct Scripted {
    answers: Vec<Option<TaskId>>,
    asked: Vec<(Vec<(TaskId, usize)>, Option<TaskId>)>,
}

impl Scripted {
    fn new(answers: Vec<Option<TaskId>>) -> Scripted {
        Scripted { answers, asked: Vec::new() }
    }
}

impl Strategy for Scripted {
    fn next_task(&mut self, runnable: &[(TaskId, usize)], last: Option<TaskId>) -> Option<TaskId> {
        let answer = self.answers[self.asked.len()];
        self.asked.push((runnable.to_vec(), last));
        answer
    }

    fn to_thread_id(&self, task: TaskId) -> ThreadId {
        ThreadId(task.0 + 100)
    }
}

fn name(s: &str) -> Option<String> {
    Some(s.to_string())
}

fn failure(step: NextStep) -> String {
    match step {
        NextStep::Failure(msg) => msg,
        other => panic!("expected a failure, got {:?}", other),
    }
}

#[test]
fn scheduled_task_id_is_that_of_the_task() {
    assert_eq!(ScheduledTask::Task(TaskId(7)).id(), Some(TaskId(7)));
    assert_eq!(ScheduledTask::Nothing.id(), None);
    assert_eq!(ScheduledTask::Stopped.id(), None);
    assert_eq!(ScheduledTask::Finished.id(), None);
}

#[test]
fn scheduled_task_take_leaves_nothing() {
    let mut next = ScheduledTask::Task(TaskId(3));
    assert_eq!(next.take(), ScheduledTask::Task(TaskId(3)));
    assert_eq!(next, ScheduledTask::Nothing);
    let mut stopped = ScheduledTask::Stopped;
    assert_eq!(stopped.take(), ScheduledTask::Stopped);
    assert_eq!(stopped, ScheduledTask::Nothing);
}

#[test]
fn event_new_keeps_its_parts() {
    let e = Event::new(ThreadId(4), 9);
    assert_eq!(e.thread, ThreadId(4));
    assert_eq!(e.index, 9);
    assert_eq!(e, Event { thread: ThreadId(4), index: 9 });
}

#[test]
fn new_task_is_runnable_and_unfinished() {
    let t = Task::new(TaskId(5), name("worker"));
    assert_eq!(t.id(), TaskId(5));
    assert_eq!(t.name(), name("worker"));
    assert_eq!(t.instructions(), 0);
    assert!(t.runnable());
    assert!(!t.finished());
    assert_eq!(Task::new(TaskId(0), None).name(), None);
}

#[test]
fn finished_task_is_not_runnable() {
    let mut t = Task::new(TaskId(0), None);
    t.finish();
    assert!(t.finished());
    assert!(!t.runnable());
    t.unblock();
    assert!(t.finished());
    assert!(!t.runnable());
    t.block();
    assert!(!t.runnable());
}

#[test]
fn block_and_unblock_toggle_runnable() {
    let mut t = Task::new(TaskId(0), None);
    t.block();
    assert!(!t.runnable());
    assert!(!t.finished());
    t.unblock();
    assert!(t.runnable());
}

#[test]
fn advance_and_retreat_count_instructions() {
    let mut t = Task::new(TaskId(0), None);
    assert_eq!(t.advance(), 1);
    assert_eq!(t.advance(), 2);
    assert_eq!(t.instructions(), 2);
    assert_eq!(t.retreat(), 1);
    assert_eq!(t.instructions(), 1);
}

#[test]
fn decimal_string_writes_base_ten() {
    assert_eq!(decimal_string(0), "0");
    assert_eq!(decimal_string(7), "7");
    assert_eq!(decimal_string(9), "9");
    assert_eq!(decimal_string(10), "10");
    assert_eq!(decimal_string(99), "99");
    assert_eq!(decimal_string(100), "100");
    assert_eq!(decimal_string(1234567890), "1234567890");
    assert_eq!(decimal_string(usize::MAX), usize::MAX.to_string());
}

#[test]
fn blocked_label_names_task_and_number() {
    assert_eq!(blocked_label_string(&Task::new(TaskId(1), name("child"))), "child (task 1)");
    assert_eq!(blocked_label_string(&Task::new(TaskId(12), None)), "<unknown> (task 12)");
}

#[test]
fn failure_name_defaults_to_task_number() {
    assert_eq!(failure_name_string(&Task::new(TaskId(3), None)), "task-3");
    assert_eq!(failure_name_string(&Task::new(TaskId(3), name("main"))), "main");
}

#[test]
fn panic_payload_joins_report_and_original() {
    assert_eq!(
        panic_payload_string("saved as run 4", "boom"),
        "saved as run 4\noriginal panic: boom"
    );
    assert_eq!(panic_payload_string("", ""), "\noriginal panic: ");
}

#[test]
fn new_state_is_empty_and_idle() {
    let state = ExecutionState::new(LowestFirst);
    assert!(!state.is_running());
    assert!(!state.has_cleaned_up());
    assert!(state.try_current().is_none());
    assert!(state.try_get(TaskId(0)).is_none());
    assert!(state.all_finished());
    assert!(!state.cleanup_allowed());
    assert!(state.failure_info().is_none());
}

#[test]
fn spawned_ids_are_dense() {
    let mut state = ExecutionState::new(LowestFirst);
    for i in 0..40 {
        let id = state.spawn_thread(Some(format!("t{}", i)));
        assert_eq!(id, TaskId(i));
    }
    for i in 0..40 {
        let t = state.get(TaskId(i));
        assert_eq!(t.id(), TaskId(i));
        assert_eq!(t.name(), Some(format!("t{}", i)));
        assert!(t.runnable());
    }
    assert!(state.try_get(TaskId(40)).is_none());
}

#[test]
fn execution_start_spawns_the_root() {
    let state = Execution::new(LowestFirst).start(name("main-thread"));
    assert_eq!(state.get(TaskId(0)).name(), name("main-thread"));
    assert!(state.try_get(TaskId(1)).is_none());
    assert!(!state.is_running());
}

#[test]
fn get_mut_writes_to_the_registry() {
    let mut state = ExecutionState::new(LowestFirst);
    state.spawn_thread(None);
    state.spawn_thread(None);
    state.get_mut(TaskId(1)).block();
    assert!(state.get(TaskId(0)).runnable());
    assert!(!state.get(TaskId(1)).runnable());
    assert_eq!(state.get(TaskId(1)).id(), TaskId(1));
}

#[test]
fn runnable_tasks_are_handed_to_the_strategy() {
    let mut state = ExecutionState::new(Scripted::new(vec![Some(TaskId(2)), Some(TaskId(0))]));
    for _ in 0..4 {
        state.spawn_thread(None);
    }
    state.get_mut(TaskId(1)).block();
    state.get_mut(TaskId(3)).finish();
    state.get_mut(TaskId(2)).advance();
    state.get_mut(TaskId(2)).advance();
    assert!(state.schedule().is_ok());
    assert_eq!(state.strategy().asked.len(), 1);
    assert_eq!(state.strategy().asked[0].0, vec![(TaskId(0), 0), (TaskId(2), 2)]);
    assert_eq!(state.strategy().asked[0].1, None);
    state.advance_to_next_task();
    assert!(state.is_running());
    assert_eq!(state.current().id(), TaskId(2));
    // the task that ran last is told at the next question
    assert!(state.schedule().is_ok());
    assert_eq!(state.strategy().asked[1].1, Some(TaskId(2)));
    assert_eq!(state.strategy().asked[1].0, vec![(TaskId(0), 0), (TaskId(2), 2)]);
}

#[test]
fn schedule_keeps_a_choice_already_made() {
    let mut state = ExecutionState::new(Scripted::new(vec![Some(TaskId(1))]));
    state.spawn_thread(None);
    state.spawn_thread(None);
    assert!(state.schedule().is_ok());
    // a second call asks nothing: the script holds one answer only
    assert!(state.schedule().is_ok());
    assert_eq!(state.strategy().asked.len(), 1);
    state.advance_to_next_task();
    assert_eq!(state.current().id(), TaskId(1));
}

#[test]
fn schedule_without_runnable_tasks_finishes() {
    let mut state = ExecutionState::new(Scripted::new(vec![]));
    state.spawn_thread(None);
    state.get_mut(TaskId(0)).finish();
    assert!(state.schedule().is_ok());
    assert_eq!(state.strategy().asked.len(), 0);
    state.advance_to_next_task();
    assert!(!state.is_running());
    assert!(state.cleanup_allowed());
}

#[test]
fn strategy_may_stop_the_execution() {
    let mut state = ExecutionState::new(Scripted::new(vec![None]));
    state.spawn_thread(name("main"));
    assert!(matches!(state.next_step(), NextStep::Finished));
    assert!(!state.is_running());
    assert!(!state.all_finished());
    // stopped: the tasks need not have finished
    assert!(state.cleanup_allowed());
    let tasks = state.cleanup();
    assert_eq!(tasks.len(), 1);
    assert!(!tasks[0].finished());
    assert!(state.has_cleaned_up());
}

#[test]
fn choice_is_taken_down_as_it_comes() {
    let mut state = ExecutionState::new(LowestFirst);
    state.spawn_thread(None);
    state.spawn_thread(None);
    state.get_mut(TaskId(1)).block();
    // a blocked task
    assert_eq!(state.record_choice(Some(TaskId(1))), Ok(()));
    assert_eq!(state.next_task(), ScheduledTask::Task(TaskId(1)));
    // a task that was never spawned
    assert_eq!(state.record_choice(Some(TaskId(9))), Ok(()));
    assert_eq!(state.next_task(), ScheduledTask::Task(TaskId(9)));
    assert_eq!(state.record_choice(Some(TaskId(0))), Ok(()));
    assert_eq!(state.next_task(), ScheduledTask::Task(TaskId(0)));
    state.advance_to_next_task();
    assert_eq!(state.current().id(), TaskId(0));
}

#[test]
fn schedule_always_succeeds() {
    let mut state = ExecutionState::new(Scripted::new(vec![Some(TaskId(usize::MAX))]));
    state.spawn_thread(None);
    assert_eq!(state.schedule(), Ok(()));
    assert_eq!(state.next_task(), ScheduledTask::Task(TaskId(usize::MAX)));
    assert_eq!(state.current_task(), ScheduledTask::Nothing);
}

#[test]
fn step_fails_on_a_task_that_is_not_in_the_registry() {
    let mut state = ExecutionState::new(Scripted::new(vec![Some(TaskId(5)), Some(TaskId(0))]));
    state.spawn_thread(None);
    assert_eq!(failure(state.next_step()), "the scheduled task is not in the registry");
    assert_eq!(state.current_task(), ScheduledTask::Task(TaskId(5)));
    assert_eq!(state.next_task(), ScheduledTask::Nothing);
    assert!(state.try_current().is_none());
    assert!(state.failure_info().is_none());
    assert!(matches!(state.next_step(), NextStep::Task(TaskId(0))));
    assert!(state.try_current().is_some());
}

#[test]
fn step_names_a_task_of_the_registry_runnable_or_not() {
    let mut state = ExecutionState::new(Scripted::new(vec![Some(TaskId(1)), Some(TaskId(2))]));
    for _ in 0..3 {
        state.spawn_thread(None);
    }
    state.get_mut(TaskId(1)).block();
    state.get_mut(TaskId(2)).finish();
    assert!(matches!(state.next_step(), NextStep::Task(TaskId(1))));
    assert_eq!(state.current().id(), TaskId(1));
    assert!(matches!(state.next_step(), NextStep::Task(TaskId(2))));
    assert_eq!(state.current().id(), TaskId(2));
}

#[test]
fn record_choice_none_stops() {
    let mut state = ExecutionState::new(LowestFirst);
    state.spawn_thread(None);
    assert_eq!(state.record_choice(None), Ok(()));
    state.advance_to_next_task();
    assert!(!state.is_running());
    assert!(state.cleanup_allowed());
}

#[test]
fn maybe_yield_skips_the_switch_to_the_same_task() {
    let mut state = ExecutionState::new(Scripted::new(vec![
        Some(TaskId(0)),
        Some(TaskId(0)),
        Some(TaskId(1)),
    ]));
    state.spawn_thread(None);
    state.spawn_thread(None);
    assert!(matches!(state.next_step(), NextStep::Task(TaskId(0))));
    // the same task again: no yield, and it stays current
    assert!(!state.maybe_yield());
    assert_eq!(state.current().id(), TaskId(0));
    // another task: yield, and the next step runs it without asking again
    assert!(state.maybe_yield());
    assert_eq!(state.current().id(), TaskId(0));
    assert!(matches!(state.next_step(), NextStep::Task(TaskId(1))));
    assert_eq!(state.strategy().asked.len(), 3);
    assert_eq!(state.strategy().asked[1].1, Some(TaskId(0)));
}

#[test]
fn maybe_yield_leaves_the_choice_pending() {
    // the strategy stops the execution
    let mut state = ExecutionState::new(Scripted::new(vec![Some(TaskId(0)), None]));
    state.spawn_thread(None);
    assert!(matches!(state.next_step(), NextStep::Task(TaskId(0))));
    assert!(state.maybe_yield());
    assert_eq!(state.next_task(), ScheduledTask::Stopped);
    assert_eq!(state.current_task(), ScheduledTask::Task(TaskId(0)));
    assert!(matches!(state.next_step(), NextStep::Finished));

    // the strategy names a task that was never spawned
    let mut state = ExecutionState::new(Scripted::new(vec![Some(TaskId(0)), Some(TaskId(4))]));
    state.spawn_thread(None);
    assert!(matches!(state.next_step(), NextStep::Task(TaskId(0))));
    assert!(state.maybe_yield());
    assert_eq!(state.next_task(), ScheduledTask::Task(TaskId(4)));
    assert_eq!(state.current().id(), TaskId(0));
    assert_eq!(failure(state.next_step()), "the scheduled task is not in the registry");
    assert_eq!(state.strategy().asked.len(), 2);

    // the current task blocked itself, and no task is left to run
    let mut state = ExecutionState::new(Scripted::new(vec![Some(TaskId(0))]));
    state.spawn_thread(None);
    assert!(matches!(state.next_step(), NextStep::Task(TaskId(0))));
    state.current_mut().block();
    assert!(state.maybe_yield());
    assert_eq!(state.next_task(), ScheduledTask::Finished);
    assert_eq!(state.current_task(), ScheduledTask::Task(TaskId(0)));
    assert_eq!(state.strategy().asked.len(), 1);
}

#[test]
fn maybe_yield_goes_on_with_the_current_task_even_if_blocked() {
    // the answer is the current task, though it is not among the runnable ones
    let mut state = ExecutionState::new(Scripted::new(vec![Some(TaskId(0)), Some(TaskId(0))]));
    state.spawn_thread(None);
    state.spawn_thread(None);
    assert!(matches!(state.next_step(), NextStep::Task(TaskId(0))));
    state.current_mut().block();
    assert!(!state.maybe_yield());
    assert_eq!(state.current_task(), ScheduledTask::Task(TaskId(0)));
    assert_eq!(state.next_task(), ScheduledTask::Nothing);
    assert_eq!(state.strategy().asked[1].0, vec![(TaskId(1), 0)]);
}

#[test]
fn positions_follow_the_instruction_count() {
    let mut state = ExecutionState::new(Scripted::new(vec![Some(TaskId(1))]));
    state.spawn_thread(None);
    state.spawn_thread(None);
    assert!(matches!(state.next_step(), NextStep::Task(TaskId(1))));
    assert_eq!(state.curr_pos(), Event::new(ThreadId(101), 0));
    assert_eq!(state.next_pos(), Event::new(ThreadId(101), 1));
    assert_eq!(state.next_pos(), Event::new(ThreadId(101), 2));
    assert_eq!(state.curr_pos(), Event::new(ThreadId(101), 2));
    assert_eq!(state.prev_pos(), Event::new(ThreadId(101), 1));
    assert_eq!(state.current().instructions(), 1);
    assert_eq!(state.get(TaskId(0)).instructions(), 0);
}

#[test]
fn lowest_first_names_threads_by_task_number() {
    let s = LowestFirst;
    assert_eq!(s.to_thread_id(TaskId(6)), ThreadId(6));
}

#[test]
fn lowest_first_takes_the_lowest_id() {
    let mut s = LowestFirst;
    assert_eq!(s.next_task(&[(TaskId(4), 0), (TaskId(2), 7), (TaskId(9), 1)], None), Some(TaskId(2)));
    assert_eq!(s.next_task(&[(TaskId(3), 0)], Some(TaskId(3))), Some(TaskId(3)));
    assert_eq!(s.next_task(&[], None), None);
}

#[test]
fn failure_info_names_the_running_task() {
    let mut state = ExecutionState::new(Scripted::new(vec![Some(TaskId(1)), Some(TaskId(0))]));
    state.spawn_thread(name("main"));
    state.spawn_thread(None);
    assert!(state.failure_info().is_none());
    assert!(matches!(state.next_step(), NextStep::Task(TaskId(1))));
    state.next_pos();
    assert_eq!(state.failure_info(), Some(("task-1".to_string(), Event::new(ThreadId(101), 1))));
    assert!(matches!(state.next_step(), NextStep::Task(TaskId(0))));
    assert_eq!(state.failure_info(), Some(("main".to_string(), Event::new(ThreadId(100), 0))));
}

#[test]
fn deadlock_report_lists_unfinished_tasks_in_order() {
    let mut state = ExecutionState::new(LowestFirst);
    state.spawn_thread(name("main"));
    state.spawn_thread(None);
    state.spawn_thread(name("c"));
    state.spawn_thread(name("d"));
    state.get_mut(TaskId(2)).finish();
    assert_eq!(
        state.deadlock_report(),
        "deadlock! blocked tasks: [main (task 0), <unknown> (task 1), d (task 3)]"
    );
    state.get_mut(TaskId(0)).finish();
    state.get_mut(TaskId(1)).finish();
    assert_eq!(state.deadlock_report(), "deadlock! blocked tasks: [d (task 3)]");
    state.get_mut(TaskId(3)).finish();
    assert_eq!(state.deadlock_report(), "deadlock! blocked tasks: []");
    assert!(state.all_finished());
}

#[test]
fn cleanup_hands_out_the_tasks_in_spawn_order() {
    let mut state = ExecutionState::new(LowestFirst);
    state.spawn_thread(name("a"));
    state.spawn_thread(name("b"));
    state.spawn_thread(name("c"));
    for i in 0..3 {
        assert!(matches!(state.next_step(), NextStep::Task(TaskId(t)) if t == i));
        state.finish_current();
    }
    assert!(!state.cleanup_allowed());
    assert!(matches!(state.next_step(), NextStep::Finished));
    assert!(state.cleanup_allowed());
    assert!(!state.has_cleaned_up());
    let tasks = state.cleanup();
    assert!(state.has_cleaned_up());
    assert_eq!(tasks.len(), 3);
    assert_eq!(tasks[0].name(), name("a"));
    assert_eq!(tasks[1].name(), name("b"));
    assert_eq!(tasks[2].name(), name("c"));
    assert_eq!(tasks[2].id(), TaskId(2));
    assert!(tasks.iter().all(|t| t.finished()));
    assert!(state.try_get(TaskId(0)).is_none());
}

#[test]
fn cleanup_is_not_allowed_while_a_task_is_unfinished() {
    let mut state = ExecutionState::new(LowestFirst);
    state.spawn_thread(name("a"));
    state.get_mut(TaskId(0)).block();
    // finished for want of runnable tasks, but the task has not finished
    assert_eq!(failure(state.next_step()), "deadlock! blocked tasks: [a (task 0)]");
    assert!(!state.cleanup_allowed());
}

#[test]
fn finished_execution_stays_finished() {
    let mut state = ExecutionState::new(LowestFirst);
    state.spawn_thread(None);
    assert!(matches!(state.next_step(), NextStep::Task(TaskId(0))));
    state.finish_current();
    for _ in 0..3 {
        assert!(matches!(state.next_step(), NextStep::Finished));
        assert!(!state.is_running());
        assert!(state.cleanup_allowed());
    }
}

#[test]
fn state_may_be_dropped_after_cleanup_only() {
    let mut state = ExecutionState::new(LowestFirst);
    state.spawn_thread(None);
    assert!(!state.may_drop(false));
    assert!(state.may_drop(true));
    assert!(matches!(state.next_step(), NextStep::Task(TaskId(0))));
    state.finish_current();
    assert!(matches!(state.next_step(), NextStep::Finished));
    assert!(!state.may_drop(false));
    state.cleanup();
    assert!(state.may_drop(false));
    assert!(state.may_drop(true));
}

#[test]
fn one_task_is_current_between_advance_and_schedule() {
    let mut state = ExecutionState::new(Scripted::new(vec![Some(TaskId(1)), Some(TaskId(2))]));
    for _ in 0..3 {
        state.spawn_thread(None);
    }
    assert_eq!(state.current_task(), ScheduledTask::Nothing);
    assert_eq!(state.next_task(), ScheduledTask::Nothing);
    assert!(state.schedule().is_ok());
    assert_eq!(state.next_task(), ScheduledTask::Task(TaskId(1)));
    assert_eq!(state.current_task(), ScheduledTask::Nothing);
    state.advance_to_next_task();
    assert_eq!(state.current_task(), ScheduledTask::Task(TaskId(1)));
    assert_eq!(state.next_task(), ScheduledTask::Nothing);
    assert!(state.is_running());
    // spawning and writing to tasks leave the current task as it is
    state.spawn_thread(None);
    state.get_mut(TaskId(0)).block();
    state.next_pos();
    assert_eq!(state.current_task(), ScheduledTask::Task(TaskId(1)));
    assert_eq!(state.task_count(), 4);
    assert!(state.schedule().is_ok());
    assert_eq!(state.current_task(), ScheduledTask::Task(TaskId(1)));
    assert_eq!(state.next_task(), ScheduledTask::Task(TaskId(2)));
}
