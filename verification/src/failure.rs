use vstd::prelude::*;
use vstd::string::*;
use crate::task::{Task, TaskView};

verus! {

/// The character that writes the digit `d`.
pub open spec fn digit_char(d: nat) -> char {
    if d == 0 {
        '0'
    } else if d == 1 {
        '1'
    } else if d == 2 {
        '2'
    } else if d == 3 {
        '3'
    } else if d == 4 {
        '4'
    } else if d == 5 {
        '5'
    } else if d == 6 {
        '6'
    } else if d == 7 {
        '7'
    } else if d == 8 {
        '8'
    } else {
        '9'
    }
}

/// `n` written in base ten, without leading zeros.
pub open spec fn decimal(n: nat) -> Seq<char>
    decreases n,
{
    if n < 10 {
        seq![digit_char(n)]
    } else {
        decimal(n / 10).push(digit_char(n % 10))
    }
}

/// The parts, each two of them with `sep` between.
pub open spec fn join(parts: Seq<Seq<char>>, sep: Seq<char>) -> Seq<char>
    decreases parts.len(),
{
    if parts.len() == 0 {
        Seq::empty()
    } else if parts.len() == 1 {
        parts[0]
    } else {
        join(parts.drop_last(), sep) + sep + parts.last()
    }
}

/// How a task is named in a report of blocked tasks: its name, or
/// `<unknown>`, and its number.
pub open spec fn blocked_label(task: TaskView) -> Seq<char> {
    let name = match task.name {
        Some(n) => n,
        None => "<unknown>"@,
    };
    name + " (task "@ + decimal(task.id.0 as nat) + ")"@
}

/// The tasks that have not finished, in spawn order.
pub open spec fn unfinished(tasks: Seq<TaskView>) -> Seq<TaskView> {
    tasks.filter(|t: TaskView| !t.finished)
}

/// The labels of the tasks that have not finished, in spawn order.
pub open spec fn blocked_labels(tasks: Seq<TaskView>) -> Seq<Seq<char>> {
    unfinished(tasks).map_values(|t: TaskView| blocked_label(t))
}

/// The report of a deadlock: every task that has not finished, in spawn order.
pub open spec fn deadlock_message(tasks: Seq<TaskView>) -> Seq<char> {
    "deadlock! blocked tasks: ["@ + join(blocked_labels(tasks), ", "@) + "]"@
}

/// The report of a step for which no task was chosen.
pub open spec fn no_task_message() -> Seq<char> {
    "no task was scheduled"@
}

/// The report of a step whose task is not in the registry.
pub open spec fn unknown_task_message() -> Seq<char> {
    "the scheduled task is not in the registry"@
}

/// The name under which a task's failure is reported: its own, or `task-`
/// and its number.
pub open spec fn failure_name(task: TaskView) -> Seq<char> {
    match task.name {
        Some(n) => n,
        None => "task-"@ + decimal(task.id.0 as nat),
    }
}

/// What a panic carries out of the execution: the report of the failure,
/// then the message of the panic that a task raised.
pub open spec fn panic_payload(report: Seq<char>, original: Seq<char>) -> Seq<char> {
    report + "\noriginal panic: "@ + original
}

/// Adding one more part to a joined sequence.
pub proof fn lemma_join_push(parts: Seq<Seq<char>>, part: Seq<char>, sep: Seq<char>)
    ensures
        join(parts.push(part), sep) == if parts.len() == 0 {
            part
        } else {
            join(parts, sep) + sep + part
        },
{
    assert(parts.push(part).drop_last() =~= parts);
}

/// The labels of the blocked tasks, with one more task behind the others.
pub proof fn lemma_blocked_labels_push(tasks: Seq<TaskView>, task: TaskView)
    ensures
        blocked_labels(tasks.push(task)) == if task.finished {
            blocked_labels(tasks)
        } else {
            blocked_labels(tasks).push(blocked_label(task))
        },
        blocked_labels(Seq::empty()) == Seq::<Seq<char>>::empty(),
{
    tasks.lemma_filter_push(task, |t: TaskView| !t.finished);
    reveal(Seq::filter);
    assert(blocked_labels(tasks.push(task)) =~= if task.finished {
        blocked_labels(tasks)
    } else {
        blocked_labels(tasks).push(blocked_label(task))
    });
    assert(blocked_labels(Seq::empty()) =~= Seq::<Seq<char>>::empty());
}

fn digit_str(d: usize) -> (s: &'static str)
    requires
        d < 10,
    ensures
        s@ == seq![digit_char(d as nat)],
{
    proof {
        reveal_strlit("0");
        reveal_strlit("1");
        reveal_strlit("2");
        reveal_strlit("3");
        reveal_strlit("4");
        reveal_strlit("5");
        reveal_strlit("6");
        reveal_strlit("7");
        reveal_strlit("8");
        reveal_strlit("9");
    }
    let s = if d == 0 {
        "0"
    } else if d == 1 {
        "1"
    } else if d == 2 {
        "2"
    } else if d == 3 {
        "3"
    } else if d == 4 {
        "4"
    } else if d == 5 {
        "5"
    } else if d == 6 {
        "6"
    } else if d == 7 {
        "7"
    } else if d == 8 {
        "8"
    } else {
        "9"
    };
    assert(s@ =~= seq![digit_char(d as nat)]);
    s
}

/// Writes `n` in base ten.
pub fn decimal_string(n: usize) -> (s: String)
    ensures
        s@ == decimal(n as nat),
    decreases n,
{
    if n < 10 {
        String::from_str(digit_str(n))
    } else {
        let mut s = decimal_string(n / 10);
        s.append(digit_str(n % 10));
        assert(s@ =~= decimal((n / 10) as nat).push(digit_char((n % 10) as nat)));
        s
    }
}

/// The label of a task in a report of blocked tasks.
pub fn blocked_label_string(task: &Task) -> (s: String)
    ensures
        s@ == blocked_label(task@),
{
    let mut s = match task.name() {
        Some(n) => n,
        None => String::from_str("<unknown>"),
    };
    s.append(" (task ");
    let number = decimal_string(task.id().0);
    s.append(number.as_str());
    s.append(")");
    s
}

/// The name under which a task's failure is reported.
pub fn failure_name_string(task: &Task) -> (s: String)
    ensures
        s@ == failure_name(task@),
{
    match task.name() {
        Some(n) => n,
        None => {
            let mut s = String::from_str("task-");
            let number = decimal_string(task.id().0);
            s.append(number.as_str());
            s
        },
    }
}

/// Puts the report of a failure before the message of the panic that a task raised.
pub fn panic_payload_string(report: &str, original: &str) -> (s: String)
    ensures
        s@ == panic_payload(report@, original@),
{
    let mut s = String::from_str(report);
    s.append("\noriginal panic: ");
    s.append(original);
    s
}

} // verus!
