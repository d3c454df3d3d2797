//! The runtime form of a recipe step: what it runs and where it stands.
use vstd::prelude::*;

use crate::recipe::schema::{BackoffStrategy, OnErrorStrategy};
use crate::task::engine::clone_pairs;
use crate::text::{clone_opt_string, clone_strings};

verus! {

/// A single executable step within a task.
#[derive(Debug)]
pub struct TaskStep {
    pub id: String,
    pub name: String,
    pub description: Option<String>,
    pub action: StepAction,
    pub depends_on: Vec<String>,
    pub status: StepStatus,
    pub started_at: Option<u64>,
    pub finished_at: Option<u64>,
    pub exit_code: Option<i32>,
    /// How many times the step has been run again after failing.
    pub retry_count: u8,
    /// How many times the step may be run again after failing.
    pub max_retries: u8,
    /// Seconds to wait before the first re-run.
    pub retry_delay_secs: u64,
    /// How the wait grows from one re-run to the next.
    pub backoff: BackoffStrategy,
    /// What happens once the step has failed with no re-run left.
    pub on_error: OnErrorStrategy,
}

/// What a step does when executed.
#[derive(Debug)]
pub enum StepAction {
    Shell { command: String, args: Vec<String>, env: Vec<(String, String)> },
    PackageInstall { manager: String, packages: Vec<String> },
    EnvCheck { env_id: String },
    Download { url: String, dest: String },
    Extract { src: String, dest: String },
}

/// Lifecycle status of a single step.
#[derive(Debug)]
pub enum StepStatus {
    Pending,
    Waiting,
    Running,
    Success,
    Failed { error: String },
    Skipped,
    Cancelled,
}

impl StepStatus {
    /// A step in this status will not change any more.
    pub open spec fn is_finished(self) -> bool {
        self matches StepStatus::Success || self matches StepStatus::Failed { .. }
            || self matches StepStatus::Skipped || self matches StepStatus::Cancelled
    }

    /// A step in this status counts as done for the steps that depend on
    /// it: it succeeded, or its failure was skipped.
    pub open spec fn is_done(self) -> bool {
        self matches StepStatus::Success || self matches StepStatus::Skipped
    }

    /// Whether this step counts as done for the steps that depend on it.
    pub fn done(&self) -> (r: bool)
        ensures
            r == self.is_done(),
    {
        match self {
            StepStatus::Success => true,
            StepStatus::Skipped => true,
            _ => false,
        }
    }

    /// Two statuses are the same variant and, for failures, carry the same
    /// error text.
    pub open spec fn same(self, other: StepStatus) -> bool {
        match (self, other) {
            (StepStatus::Pending, StepStatus::Pending) => true,
            (StepStatus::Waiting, StepStatus::Waiting) => true,
            (StepStatus::Running, StepStatus::Running) => true,
            (StepStatus::Success, StepStatus::Success) => true,
            (StepStatus::Failed { error: a }, StepStatus::Failed { error: b }) => a@ == b@,
            (StepStatus::Skipped, StepStatus::Skipped) => true,
            (StepStatus::Cancelled, StepStatus::Cancelled) => true,
            _ => false,
        }
    }

    /// Whether this step has finished (succeeded, failed, been skipped or
    /// been cancelled).
    pub fn finished(&self) -> (r: bool)
        ensures
            r == self.is_finished(),
    {
        match self {
            StepStatus::Success => true,
            StepStatus::Failed { .. } => true,
            StepStatus::Skipped => true,
            StepStatus::Cancelled => true,
            _ => false,
        }
    }
}

impl PartialEq for StepStatus {
    fn eq(&self, other: &Self) -> (r: bool) {
        match self {
            StepStatus::Pending => matches!(other, StepStatus::Pending),
            StepStatus::Waiting => matches!(other, StepStatus::Waiting),
            StepStatus::Running => matches!(other, StepStatus::Running),
            StepStatus::Success => matches!(other, StepStatus::Success),
            StepStatus::Failed { error: a } => match other {
                StepStatus::Failed { error: b } => a.eq(b),
                _ => false,
            },
            StepStatus::Skipped => matches!(other, StepStatus::Skipped),
            StepStatus::Cancelled => matches!(other, StepStatus::Cancelled),
        }
    }
}

impl vstd::std_specs::cmp::PartialEqSpecImpl for StepStatus {
    open spec fn obeys_eq_spec() -> bool {
        true
    }

    open spec fn eq_spec(&self, other: &Self) -> bool {
        self.same(*other)
    }
}

/// Two actions of the same kind with the same contents.
pub open spec fn same_step_action(a: StepAction, b: StepAction) -> bool {
    match (a, b) {
        (
            StepAction::Shell { command: c1, args: a1, env: e1 },
            StepAction::Shell { command: c2, args: a2, env: e2 },
        ) => c1 == c2 && a1@ == a2@ && e1@ == e2@,
        (
            StepAction::PackageInstall { manager: m1, packages: p1 },
            StepAction::PackageInstall { manager: m2, packages: p2 },
        ) => m1 == m2 && p1@ == p2@,
        (StepAction::EnvCheck { env_id: x }, StepAction::EnvCheck { env_id: y }) => x == y,
        (StepAction::Download { url: u1, dest: d1 }, StepAction::Download { url: u2, dest: d2 }) => u1
            == u2 && d1 == d2,
        (StepAction::Extract { src: s1, dest: d1 }, StepAction::Extract { src: s2, dest: d2 }) => s1
            == s2 && d1 == d2,
        _ => false,
    }
}

/// Two steps with the same contents.
pub open spec fn same_task_step(a: TaskStep, b: TaskStep) -> bool {
    &&& a.id == b.id
    &&& a.name == b.name
    &&& a.description == b.description
    &&& same_step_action(a.action, b.action)
    &&& a.depends_on@ == b.depends_on@
    &&& a.status == b.status
    &&& a.started_at == b.started_at
    &&& a.finished_at == b.finished_at
    &&& a.exit_code == b.exit_code
    &&& a.retry_count == b.retry_count
    &&& a.max_retries == b.max_retries
    &&& a.retry_delay_secs == b.retry_delay_secs
    &&& a.backoff == b.backoff
    &&& a.on_error == b.on_error
}

impl Clone for StepStatus {
    fn clone(&self) -> (r: Self)
        ensures
            r == *self,
    {
        match self {
            StepStatus::Pending => StepStatus::Pending,
            StepStatus::Waiting => StepStatus::Waiting,
            StepStatus::Running => StepStatus::Running,
            StepStatus::Success => StepStatus::Success,
            StepStatus::Failed { error } => StepStatus::Failed { error: error.clone() },
            StepStatus::Skipped => StepStatus::Skipped,
            StepStatus::Cancelled => StepStatus::Cancelled,
        }
    }
}

impl Clone for StepAction {
    fn clone(&self) -> (r: Self)
        ensures
            same_step_action(r, *self),
    {
        match self {
            StepAction::Shell { command, args, env } => StepAction::Shell {
                command: command.clone(),
                args: clone_strings(args),
                env: clone_pairs(env),
            },
            StepAction::PackageInstall { manager, packages } => StepAction::PackageInstall {
                manager: manager.clone(),
                packages: clone_strings(packages),
            },
            StepAction::EnvCheck { env_id } => StepAction::EnvCheck { env_id: env_id.clone() },
            StepAction::Download { url, dest } => StepAction::Download {
                url: url.clone(),
                dest: dest.clone(),
            },
            StepAction::Extract { src, dest } => StepAction::Extract {
                src: src.clone(),
                dest: dest.clone(),
            },
        }
    }
}

impl Clone for TaskStep {
    fn clone(&self) -> (r: Self)
        ensures
            same_task_step(r, *self),
    {
        TaskStep {
            id: self.id.clone(),
            name: self.name.clone(),
            description: clone_opt_string(&self.description),
            action: self.action.clone(),
            depends_on: clone_strings(&self.depends_on),
            status: self.status.clone(),
            started_at: self.started_at,
            finished_at: self.finished_at,
            exit_code: self.exit_code,
            retry_count: self.retry_count,
            max_retries: self.max_retries,
            retry_delay_secs: self.retry_delay_secs,
            backoff: self.backoff,
            on_error: self.on_error,
        }
    }
}

impl TaskStep {
    /// A pending step with the given id, name and retry limit, no
    /// description, dependencies, timestamps or exit code, and an empty
    /// shell command as its action. Re-runs wait 3 seconds each, and a
    /// step that has failed for good fails its task.
    pub fn new(id: &str, name: &str, max_retries: u8) -> (r: TaskStep)
        ensures
            r.id@ == id@,
            r.name@ == name@,
            r.description is None,
            r.action matches StepAction::Shell { command, args, env } && command@.len() == 0
                && args@.len() == 0 && env@.len() == 0,
            r.depends_on@.len() == 0,
            r.status is Pending,
            r.started_at is None,
            r.finished_at is None,
            r.exit_code is None,
            r.retry_count == 0,
            r.max_retries == max_retries,
            r.retry_delay_secs == 3,
            r.backoff == BackoffStrategy::Fixed,
            r.on_error == OnErrorStrategy::Fail,
    {
        TaskStep {
            id: id.to_owned(),
            name: name.to_owned(),
            description: None,
            action: StepAction::Shell { command: String::new(), args: Vec::new(), env: Vec::new() },
            depends_on: Vec::new(),
            status: StepStatus::Pending,
            started_at: None,
            finished_at: None,
            exit_code: None,
            retry_count: 0,
            max_retries,
            retry_delay_secs: 3,
            backoff: BackoffStrategy::Fixed,
            on_error: OnErrorStrategy::Fail,
        }
    }
}

} // verus!
