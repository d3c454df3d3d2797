//! The task-level state machine: which events move a task between
//! statuses, and the control messages a running task accepts.
use vstd::prelude::*;

use crate::error::AppError;
use crate::task::engine::{Task, TaskStatus};
use crate::task::step::{StepStatus, TaskStep};

verus! {

/// Control messages sent to a running task.
#[derive(PartialEq, Eq, Structural, Clone, Copy, Debug)]
pub enum TaskControl {
    Pause,
    Resume,
    Cancel,
}

/// Events that drive task-level state transitions.
#[derive(PartialEq, Eq, Structural, Clone, Copy, Debug)]
pub enum TaskEvent {
    Start,
    Pause,
    Resume,
    Complete,
    Fail,
    Cancel,
}

impl TaskEvent {
    /// The event's name.
    pub open spec fn name(self) -> Seq<char> {
        match self {
            TaskEvent::Start => "Start"@,
            TaskEvent::Pause => "Pause"@,
            TaskEvent::Resume => "Resume"@,
            TaskEvent::Complete => "Complete"@,
            TaskEvent::Fail => "Fail"@,
            TaskEvent::Cancel => "Cancel"@,
        }
    }

    /// The event's name.
    pub fn name_str(&self) -> (r: &'static str)
        ensures
            r@ == self.name(),
    {
        match self {
            TaskEvent::Start => "Start",
            TaskEvent::Pause => "Pause",
            TaskEvent::Resume => "Resume",
            TaskEvent::Complete => "Complete",
            TaskEvent::Fail => "Fail",
            TaskEvent::Cancel => "Cancel",
        }
    }
}

/// The status that `event` moves a task in status `from` to, or `None`
/// when the event is not allowed there. `Cancel` is allowed everywhere.
pub open spec fn next_status(from: TaskStatus, event: TaskEvent) -> Option<TaskStatus> {
    match (from, event) {
        (_, TaskEvent::Cancel) => Some(TaskStatus::Cancelled),
        (TaskStatus::Idle, TaskEvent::Start) => Some(TaskStatus::Running),
        (TaskStatus::Running, TaskEvent::Pause) => Some(TaskStatus::Paused),
        (TaskStatus::Paused, TaskEvent::Resume) => Some(TaskStatus::Running),
        (TaskStatus::Running, TaskEvent::Complete) => Some(TaskStatus::Success),
        (TaskStatus::Running, TaskEvent::Fail) => Some(TaskStatus::Failed),
        _ => None,
    }
}

/// A task with another status, and nothing else changed.
pub open spec fn with_status(t: Task, s: TaskStatus) -> Task {
    Task { status: s, ..t }
}

/// A step that was still to finish is cancelled; a finished one stays.
pub open spec fn cancelled_step(s: TaskStep) -> TaskStep {
    if s.status.is_finished() {
        s
    } else {
        TaskStep { status: StepStatus::Cancelled, ..s }
    }
}

/// `Cancel` is accepted in every status and always leads to `Cancelled`.
pub proof fn law_cancel_from_any_status(s: TaskStatus)
    ensures
        next_status(s, TaskEvent::Cancel) == Some(TaskStatus::Cancelled),
{
}

/// A running task that is paused and then resumed is running again.
pub proof fn law_pause_then_resume(s: TaskStatus)
    requires
        s == TaskStatus::Running,
    ensures
        next_status(s, TaskEvent::Pause) == Some(TaskStatus::Paused),
        next_status(TaskStatus::Paused, TaskEvent::Resume) == Some(TaskStatus::Running),
{
}

/// A task that succeeded, failed or was cancelled accepts no event but
/// `Cancel`.
pub proof fn law_finished_task_accepts_only_cancel(s: TaskStatus, e: TaskEvent)
    requires
        s == TaskStatus::Success || s == TaskStatus::Failed || s == TaskStatus::Cancelled,
        e != TaskEvent::Cancel,
    ensures
        next_status(s, e) is None,
{
}

/// After cancelling, every step has finished, and a step that had finished
/// before is unchanged.
pub proof fn law_cancel_finishes_every_step(steps: Seq<TaskStep>)
    ensures
        forall|k: int| 0 <= k < steps.len() ==> (#[trigger] cancel_all(steps)[k]).status.is_finished(),
        forall|k: int|
            0 <= k < steps.len() && steps[k].status.is_finished() ==> #[trigger] cancel_all(steps)[k]
                == steps[k],
{
}

/// The steps after cancelling: each one cancelled unless it had finished.
pub open spec fn cancel_all(steps: Seq<TaskStep>) -> Seq<TaskStep> {
    steps.map_values(|s: TaskStep| cancelled_step(s))
}

/// Applies task events and cancels unfinished steps.
pub struct TaskStateMachine;

impl TaskStateMachine {
    /// The status that `event` moves a task in status `from` to.
    pub fn next(from: TaskStatus, event: TaskEvent) -> (r: Option<TaskStatus>)
        ensures
            r == next_status(from, event),
    {
        match event {
            TaskEvent::Cancel => Some(TaskStatus::Cancelled),
            TaskEvent::Start => match from {
                TaskStatus::Idle => Some(TaskStatus::Running),
                _ => None,
            },
            TaskEvent::Pause => match from {
                TaskStatus::Running => Some(TaskStatus::Paused),
                _ => None,
            },
            TaskEvent::Resume => match from {
                TaskStatus::Paused => Some(TaskStatus::Running),
                _ => None,
            },
            TaskEvent::Complete => match from {
                TaskStatus::Running => Some(TaskStatus::Success),
                _ => None,
            },
            TaskEvent::Fail => match from {
                TaskStatus::Running => Some(TaskStatus::Failed),
                _ => None,
            },
        }
    }

    /// Apply `event` to the task: its status moves as `next_status` says,
    /// or, for an event not allowed in its status, the task is left as it
    /// was and the transition is refused.
    pub fn transition(task: &mut Task, event: TaskEvent) -> (r: Result<(), AppError>)
        ensures
            match next_status(old(task).status, event) {
                Some(s) => r is Ok && *final(task) == with_status(*old(task), s),
                None => *final(task) == *old(task) && (r matches Err(
                    AppError::InvalidStateTransition { from, event: ev },
                ) && from == old(task).status && ev == event),
            },
    {
        match Self::next(task.status, event) {
            Some(s) => {
                task.status = s;
                Ok(())
            },
            None => Err(AppError::InvalidStateTransition { from: task.status, event }),
        }
    }

    /// Mark every step that has not finished as cancelled.
    pub fn cancel_steps(task: &mut Task)
        ensures
            final(task).steps@ == cancel_all(old(task).steps@),
            *final(task) == (Task { steps: final(task).steps, ..*old(task) }),
    {
        let ghost start = task.steps@;
        let mut i: usize = 0;
        while i < task.steps.len()
            invariant
                i <= task.steps@.len(),
                task.steps@.len() == start.len(),
                forall|k: int| 0 <= k < i ==> task.steps@[k] == cancelled_step(start[k]),
                forall|k: int| i <= k < start.len() ==> task.steps@[k] == start[k],
                *task == (Task { steps: task.steps, ..*old(task) }),
            decreases start.len() - i,
        {
            if !task.steps[i].status.finished() {
                task.steps[i].status = StepStatus::Cancelled;
            }
            i = i + 1;
        }
        assert(task.steps@ =~= cancel_all(start));
    }
}

} // verus!
