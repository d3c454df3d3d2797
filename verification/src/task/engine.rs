//! A task: the runtime form of a recipe, and the decisions that drive its
//! execution step by step. Running commands, waiting and reporting events
//! happen outside; each decision here takes what happened and says what
//! comes next.
use vstd::prelude::*;

use crate::env::prober::EnvStatus;
use crate::recipe::schema::{BackoffStrategy, OnErrorStrategy};
use crate::error::{error_text, AppError};
use crate::log::pipeline::LogLevel;
use crate::task::state_machine::{
    cancel_all, law_cancel_finishes_every_step, next_status, TaskControl, TaskEvent,
    TaskStateMachine,
};
use crate::task::step::{same_task_step, StepAction, StepStatus, TaskStep};
use crate::text::{clone_opt_string, clone_strings, i64_to_decimal, signed_decimal, str_eq, views};

verus! {

/// Lifecycle status of a task.
#[derive(PartialEq, Eq, Structural, Clone, Copy, Debug)]
pub enum TaskStatus {
    Idle,
    Running,
    Paused,
    Success,
    Failed,
    Cancelled,
}

impl TaskStatus {
    /// The status's name.
    pub open spec fn name(self) -> Seq<char> {
        match self {
            TaskStatus::Idle => "Idle"@,
            TaskStatus::Running => "Running"@,
            TaskStatus::Paused => "Paused"@,
            TaskStatus::Success => "Success"@,
            TaskStatus::Failed => "Failed"@,
            TaskStatus::Cancelled => "Cancelled"@,
        }
    }

    /// The status's name.
    pub fn name_str(&self) -> (r: &'static str)
        ensures
            r@ == self.name(),
    {
        match self {
            TaskStatus::Idle => "Idle",
            TaskStatus::Running => "Running",
            TaskStatus::Paused => "Paused",
            TaskStatus::Success => "Success",
            TaskStatus::Failed => "Failed",
            TaskStatus::Cancelled => "Cancelled",
        }
    }
}

/// Overall progress of a task: `done` out of `of`, that is
/// `done * 100 / of` percent.
#[derive(PartialEq, Eq, Structural, Clone, Copy, Debug)]
pub struct Progress {
    pub done: usize,
    pub of: usize,
}

/// A task: the steps of a recipe, being run.
#[derive(Debug)]
pub struct Task {
    pub id: String,
    pub name: String,
    pub recipe_id: String,
    pub status: TaskStatus,
    pub steps: Vec<TaskStep>,
    pub created_at: u64,
    pub started_at: Option<u64>,
    pub finished_at: Option<u64>,
    /// Overall progress.
    pub progress: Progress,
    pub error_summary: Option<String>,
}

/// Two tasks with the same contents, step by step.
pub open spec fn same_task(a: Task, b: Task) -> bool {
    &&& a.id == b.id
    &&& a.name == b.name
    &&& a.recipe_id == b.recipe_id
    &&& a.status == b.status
    &&& a.steps@.len() == b.steps@.len()
    &&& forall|i: int| 0 <= i < a.steps@.len() ==> same_task_step(#[trigger] a.steps@[i], b.steps@[i])
    &&& a.created_at == b.created_at
    &&& a.started_at == b.started_at
    &&& a.finished_at == b.finished_at
    &&& a.progress == b.progress
    &&& a.error_summary == b.error_summary
}

impl Clone for Task {
    /// A snapshot of the task.
    fn clone(&self) -> (r: Self)
        ensures
            same_task(r, *self),
    {
        let mut steps: Vec<TaskStep> = Vec::new();
        let mut i: usize = 0;
        while i < self.steps.len()
            invariant
                i <= self.steps@.len(),
                steps@.len() == i,
                forall|k: int| 0 <= k < i ==> same_task_step(#[trigger] steps@[k], self.steps@[k]),
            decreases self.steps@.len() - i,
        {
            steps.push(self.steps[i].clone());
            i = i + 1;
        }
        Task {
            id: self.id.clone(),
            name: self.name.clone(),
            recipe_id: self.recipe_id.clone(),
            status: self.status,
            steps,
            created_at: self.created_at,
            started_at: self.started_at,
            finished_at: self.finished_at,
            progress: self.progress,
            error_summary: clone_opt_string(&self.error_summary),
        }
    }
}

/// What the executor should do after a control message.
#[derive(PartialEq, Eq, Structural, Clone, Copy, Debug)]
pub enum ControlOutcome {
    /// Keep going.
    Continue,
    /// The task was cancelled: run no further step.
    Stop,
}

/// What the executor should do before the next step.
#[derive(PartialEq, Eq, Structural, Clone, Copy, Debug)]
pub enum Gate {
    /// Run the next step.
    Proceed,
    /// The task is paused: wait, then ask again.
    Wait,
    /// The task was cancelled: run no further step.
    Stop,
}

/// How to carry out a step.
#[derive(Debug)]
pub enum StepPlan {
    /// Run a program with arguments and extra environment variables; the
    /// step's result is its exit code.
    Run { command: String, args: Vec<String>, env: Vec<(String, String)> },
    /// Probe an environment item and judge it with `env_check_result`.
    CheckEnv { env_id: String },
}

/// What the executor does once a step has finished.
#[derive(PartialEq, Eq, Structural, Clone, Copy, Debug)]
pub enum StepNext {
    /// Go on with the next ready step.
    Continue,
    /// Wait `delay_secs` seconds, then run the same step again.
    Retry { delay_secs: u64 },
    /// The task has failed: run no further step.
    Stop,
}

/// What the executor reports once a step has finished.
#[derive(Debug)]
pub struct StepReport {
    pub level: LogLevel,
    pub message: String,
    pub next: StepNext,
}

/// The wait before re-run number `attempt` (counting from 1) of a step
/// whose first re-run waits `base` seconds: always `base` with a fixed
/// backoff; doubled at each further re-run with an exponential one.
pub open spec fn backoff_delay(base: nat, backoff: BackoffStrategy, attempt: nat) -> nat
    decreases attempt,
{
    if attempt <= 1 || backoff == BackoffStrategy::Fixed {
        base
    } else {
        2 * backoff_delay(base, backoff, (attempt - 1) as nat)
    }
}

/// A number of seconds, capped at the largest `u64`.
pub open spec fn capped(x: nat) -> u64 {
    if x > u64::MAX {
        u64::MAX
    } else {
        x as u64
    }
}

/// With an exponential backoff each re-run waits twice as long as the one
/// before; with a fixed backoff every re-run waits the same.
pub proof fn law_backoff_delays(base: nat, attempt: nat)
    requires
        attempt >= 1,
    ensures
        backoff_delay(base, BackoffStrategy::Exponential, attempt + 1) == 2 * backoff_delay(
            base,
            BackoffStrategy::Exponential,
            attempt,
        ),
        backoff_delay(base, BackoffStrategy::Fixed, attempt) == base,
        backoff_delay(base, BackoffStrategy::Exponential, 1) == base,
{
}

/// The wait, in seconds, before re-run number `attempt` (counting from 1):
/// `base` for a fixed backoff, `base` doubled for each re-run after the
/// first for an exponential one, capped at the largest `u64`.
pub fn retry_delay(base: u64, backoff: BackoffStrategy, attempt: u8) -> (r: u64)
    ensures
        r == capped(backoff_delay(base as nat, backoff, attempt as nat)),
{
    if attempt <= 1 || backoff == BackoffStrategy::Fixed {
        assert(backoff_delay(base as nat, backoff, attempt as nat) == base as nat);
        assert(capped(base as nat) == base);
        return base;
    }
    let mut cur: u64 = base;
    let mut j: u8 = 1;
    assert(backoff_delay(base as nat, backoff, 1) == base as nat);
    assert(capped(base as nat) == base);
    while j < attempt
        invariant
            1 <= j <= attempt,
            backoff == BackoffStrategy::Exponential,
            cur == capped(backoff_delay(base as nat, backoff, j as nat)),
        decreases attempt - j,
    {
        assert(backoff_delay(base as nat, backoff, (j + 1) as nat) == 2 * backoff_delay(
            base as nat,
            backoff,
            j as nat,
        ));
        if cur > u64::MAX / 2 {
            cur = u64::MAX;
        } else {
            cur = cur * 2;
        }
        j = j + 1;
    }
    cur
}

/// What follows a finished step: after a success, the next step; after a
/// failure, a re-run while the step has re-runs left, after the wait of that
/// re-run; once none is left, the next step when the step's failures are
/// skipped, else the end of the run.
pub open spec fn next_after(step: TaskStep, result: Result<i32, AppError>) -> StepNext {
    if succeeded(result) {
        StepNext::Continue
    } else if step.retry_count < step.max_retries {
        StepNext::Retry {
            delay_secs: capped(
                backoff_delay(step.retry_delay_secs as nat, step.backoff, (step.retry_count + 1) as nat),
            ),
        }
    } else if step.on_error == OnErrorStrategy::Skip {
        StepNext::Continue
    } else {
        StepNext::Stop
    }
}

/// The status a step reaches with `result`: `Success`; `Waiting` for a
/// re-run; `Skipped` when its failure is skipped; else `Failed` with the
/// failure's text.
pub open spec fn status_after_result(step: TaskStep, result: Result<i32, AppError>, status: StepStatus) -> bool {
    if succeeded(result) {
        status is Success
    } else if step.retry_count < step.max_retries {
        status is Waiting
    } else if step.on_error == OnErrorStrategy::Skip {
        status is Skipped
    } else {
        status matches StepStatus::Failed { error } && error@ == failure_text(step.id@, result)
    }
}

/// The status reached from `s` by `event`; `s` itself when the event is
/// refused there.
pub open spec fn status_after(s: TaskStatus, event: TaskEvent) -> TaskStatus {
    match next_status(s, event) {
        Some(x) => x,
        None => s,
    }
}

/// What the executor does before the next step of a task in status `s`.
pub open spec fn gate_of(s: TaskStatus) -> Gate {
    if s == TaskStatus::Paused {
        Gate::Wait
    } else if s == TaskStatus::Cancelled {
        Gate::Stop
    } else {
        Gate::Proceed
    }
}

/// Once cancelled, a task runs no further step, whatever its status was;
/// a running task that is paused waits, and runs again once resumed.
pub proof fn law_cancel_stops_pause_waits(s: TaskStatus)
    ensures
        gate_of(status_after(s, TaskEvent::Cancel)) == Gate::Stop,
        s == TaskStatus::Running ==> gate_of(status_after(s, TaskEvent::Pause)) == Gate::Wait,
        s == TaskStatus::Running ==> gate_of(
            status_after(status_after(s, TaskEvent::Pause), TaskEvent::Resume),
        ) == Gate::Proceed,
{
}

/// Progress never goes back: changing the status of a step that had not
/// finished (as starting, finishing, re-running, skipping or cancelling a
/// step does) never lowers the number of finished steps, and after
/// cancelling every step has finished.
pub proof fn law_progress_never_decreases(steps: Seq<TaskStep>, i: int, s: TaskStep)
    requires
        0 <= i < steps.len(),
        !steps[i].status.is_finished(),
    ensures
        finished_count(steps.update(i, s)) >= finished_count(steps),
        finished_count(cancel_all(steps)) == steps.len(),
    decreases steps.len(),
{
    lemma_finished_count_update(steps, i, s);
    lemma_cancel_all_finished(steps);
}

proof fn lemma_finished_count_update(steps: Seq<TaskStep>, i: int, s: TaskStep)
    requires
        0 <= i < steps.len(),
        !steps[i].status.is_finished(),
    ensures
        finished_count(steps.update(i, s)) >= finished_count(steps),
    decreases steps.len(),
{
    let u = steps.update(i, s);
    if i < steps.len() - 1 {
        assert(u.drop_last() =~= steps.drop_last().update(i, s));
        lemma_finished_count_update(steps.drop_last(), i, s);
    } else {
        assert(u.drop_last() =~= steps.drop_last());
    }
}

proof fn lemma_cancel_all_finished(steps: Seq<TaskStep>)
    ensures
        finished_count(cancel_all(steps)) == steps.len(),
    decreases steps.len(),
{
    if steps.len() > 0 {
        assert(cancel_all(steps).drop_last() =~= cancel_all(steps.drop_last()));
        lemma_cancel_all_finished(steps.drop_last());
    }
}

/// At most one step runs at a time: when no step is running and one is
/// started, it is the only running step; and a step whose result is
/// recorded no longer runs.
pub proof fn law_one_step_runs_at_a_time(
    steps: Seq<TaskStep>,
    k: int,
    started: TaskStep,
    result: Result<i32, AppError>,
    status: StepStatus,
)
    requires
        0 <= k < steps.len(),
        forall|j: int| 0 <= j < steps.len() ==> !(#[trigger] steps[j].status is Running),
    ensures
        forall|j: int|
            0 <= j < steps.len() && j != k ==> !(#[trigger] steps.update(k, started)[j].status is Running),
        status_after_result(steps[k], result, status) ==> !(status is Running),
{
}

/// Cancelling stops a run for good: the cancelled task's gate says stop,
/// and none of its steps may start any more, since every step has finished.
pub proof fn law_cancel_stops_the_run(t: Task)
    ensures
        gate_of(status_after(t.status, TaskEvent::Cancel)) == Gate::Stop,
        forall|k: int| 0 <= k < t.steps@.len() ==> !step_ready(cancel_all(t.steps@), k),
{
    law_cancel_finishes_every_step(t.steps@);
    assert forall|k: int| 0 <= k < t.steps@.len() implies !step_ready(cancel_all(t.steps@), k) by {
        assert(cancel_all(t.steps@)[k].status.is_finished());
    }
}

/// Pausing holds the next step until resume: a paused running task waits,
/// its steps are untouched, so once resumed the same step is the next to
/// run; and a cancel while paused stops the run.
pub proof fn law_pause_holds_the_next_step(t: Task)
    requires
        t.status == TaskStatus::Running,
    ensures
        ({
            let paused = Task { status: status_after(t.status, TaskEvent::Pause), ..t };
            let resumed = Task { status: status_after(paused.status, TaskEvent::Resume), ..paused };
            &&& gate_of(paused.status) == Gate::Wait
            &&& gate_of(resumed.status) == Gate::Proceed
            &&& resumed.steps == t.steps
            &&& gate_of(status_after(paused.status, TaskEvent::Cancel)) == Gate::Stop
        }),
{
}

/// A step's result counts as success exactly when it is exit code 0. For
/// every other exit code, negative ones included, and for every error, the
/// step does not end in `Success`, the log line is an error, and a step with
/// no re-run left whose failures are not skipped stops the run; exit code 0
/// ends the step in `Success` and the run goes on.
pub proof fn law_only_exit_code_zero_succeeds(step: TaskStep, code: i32, e: AppError, s: StepStatus)
    ensures
        code == 0 ==> next_after(step, Ok(code)) == StepNext::Continue && (status_after_result(
            step,
            Ok(code),
            s,
        ) ==> s is Success) && step_outcome(step.id@, Ok(code)).0 == LogLevel::Info,
        code != 0 ==> step_outcome(step.id@, Ok(code)).0 == LogLevel::Error && (status_after_result(
            step,
            Ok(code),
            s,
        ) ==> !(s is Success)),
        step_outcome(step.id@, Err(e)).0 == LogLevel::Error,
        status_after_result(step, Err(e), s) ==> !(s is Success),
        code != 0 && step.retry_count >= step.max_retries && step.on_error == OnErrorStrategy::Fail
            ==> next_after(step, Ok(code)) == StepNext::Stop && (status_after_result(
            step,
            Ok(code),
            s,
        ) ==> (s matches StepStatus::Failed { error } && error@ == "Step '"@ + step.id@
            + "' exited with code "@ + signed_decimal(code as int))),
{
}

/// The number of finished steps never exceeds the number of steps.
pub proof fn law_progress_bounded(steps: Seq<TaskStep>)
    ensures
        finished_count(steps) <= steps.len(),
    decreases steps.len(),
{
    if steps.len() > 0 {
        law_progress_bounded(steps.drop_last());
    }
}

/// The index of the first step that has not finished, or -1.
pub open spec fn first_unfinished(steps: Seq<TaskStep>) -> int
    decreases steps.len(),
{
    if steps.len() == 0 {
        -1
    } else if !steps[0].status.is_finished() {
        0
    } else {
        let k = first_unfinished(steps.drop_first());
        if k < 0 {
            -1
        } else {
            k + 1
        }
    }
}

proof fn lemma_first_unfinished(steps: Seq<TaskStep>)
    ensures
        -1 <= first_unfinished(steps) < steps.len(),
        first_unfinished(steps) >= 0 ==> !steps[first_unfinished(steps)].status.is_finished(),
        forall|k: int|
            0 <= k < steps.len() && (first_unfinished(steps) < 0 || k < first_unfinished(steps))
                ==> (#[trigger] steps[k]).status.is_finished(),
    decreases steps.len(),
{
    if steps.len() > 0 && steps[0].status.is_finished() {
        lemma_first_unfinished(steps.drop_first());
        assert forall|k: int|
            0 <= k < steps.len() && (first_unfinished(steps) < 0 || k < first_unfinished(steps))
                implies (#[trigger] steps[k]).status.is_finished() by {
            if k > 0 {
                assert(steps.drop_first()[k - 1] == steps[k]);
            }
        }
    }
}

/// The number of finished steps.
pub open spec fn finished_count(steps: Seq<TaskStep>) -> nat
    decreases steps.len(),
{
    if steps.len() == 0 {
        0
    } else {
        finished_count(steps.drop_last()) + if steps.last().status.is_finished() {
            1nat
        } else {
            0nat
        }
    }
}

/// The arguments of a package installation: `install`, for npm also
/// `-g` (a global install), then the packages.
pub open spec fn install_args(manager: Seq<char>, packages: Seq<Seq<char>>) -> Seq<Seq<char>> {
    if manager == "npm"@ {
        seq!["install"@, "-g"@] + packages
    } else {
        seq!["install"@] + packages
    }
}

/// The plan of a step: what runs, with which arguments.
pub open spec fn plan_matches(plan: StepPlan, action: StepAction) -> bool {
    match action {
        StepAction::Shell { command, args, env } => plan matches StepPlan::Run { command: c, args: a, env: v }
            && c@ == command@ && views(a@) == views(args@) && v@ == env@,
        StepAction::PackageInstall { manager, packages } => plan matches StepPlan::Run {
            command: c,
            args: a,
            env: v,
        } && c@ == manager@ && views(a@) == install_args(manager@, views(packages@)) && v@.len()
            == 0,
        StepAction::EnvCheck { env_id } => plan matches StepPlan::CheckEnv { env_id: e } && e@
            == env_id@,
        StepAction::Download { url, dest } => plan matches StepPlan::Run { command: c, args: a, env: v }
            && c@ == "curl"@ && views(a@) == seq!["-L"@, "-o"@, dest@, url@] && v@.len() == 0,
        StepAction::Extract { src, dest } => plan matches StepPlan::Run { command: c, args: a, env: v }
            && c@ == "tar"@ && views(a@) == seq!["-xzf"@, src@, "-C"@, dest@] && v@.len() == 0,
    }
}

/// A copy of each (name, value) pair.
pub fn clone_pairs(v: &Vec<(String, String)>) -> (r: Vec<(String, String)>)
    ensures
        r@ == v@,
{
    let mut r: Vec<(String, String)> = Vec::new();
    let mut i: usize = 0;
    while i < v.len()
        invariant
            i <= v.len(),
            r@ == v@.subrange(0, i as int),
        decreases v.len() - i,
    {
        let (a, b) = &v[i];
        r.push((a.clone(), b.clone()));
        i = i + 1;
        assert(r@ =~= v@.subrange(0, i as int));
    }
    assert(r@ =~= v@);
    r
}

/// How to carry out a step: shell commands run as given; a package
/// installation runs the package manager with `install` (and
/// `-g` for npm, a global install); a download runs `curl -L -o dest url`; an
/// extraction runs `tar -xzf src -C dest`; an environment check probes.
pub fn plan_step(action: &StepAction) -> (r: StepPlan)
    ensures
        plan_matches(r, *action),
{
    match action {
        StepAction::Shell { command, args, env } => StepPlan::Run {
            command: command.clone(),
            args: clone_strings(args),
            env: clone_pairs(env),
        },
        StepAction::PackageInstall { manager, packages } => {
            let mut a: Vec<String> = Vec::new();
            a.push("install".to_owned());
            if crate::text::str_eq(manager.as_str(), "npm") {
                a.push("-g".to_owned());
            }
            let ghost head = views(a@);
            let mut i: usize = 0;
            while i < packages.len()
                invariant
                    i <= packages.len(),
                    views(a@) == head + views(packages@).subrange(0, i as int),
                decreases packages.len() - i,
            {
                let ghost before = views(a@);
                a.push(packages[i].clone());
                assert(views(a@) =~= before.push(packages@[i as int]@));
                assert(views(packages@).subrange(0, i + 1) =~= views(packages@).subrange(0, i as int).push(packages@[i as int]@));
                i = i + 1;
                assert(views(a@) =~= head + views(packages@).subrange(0, i as int));
            }
            assert(views(packages@).subrange(0, packages@.len() as int) =~= views(packages@));
            assert(views(a@) =~= install_args(manager@, views(packages@)));
            StepPlan::Run { command: manager.clone(), args: a, env: Vec::new() }
        },
        StepAction::EnvCheck { env_id } => StepPlan::CheckEnv { env_id: env_id.clone() },
        StepAction::Download { url, dest } => {
            let mut a: Vec<String> = Vec::new();
            a.push("-L".to_owned());
            a.push("-o".to_owned());
            a.push(dest.clone());
            a.push(url.clone());
            assert(views(a@) =~= seq!["-L"@, "-o"@, dest@, url@]);
            StepPlan::Run { command: "curl".to_owned(), args: a, env: Vec::new() }
        },
        StepAction::Extract { src, dest } => {
            let mut a: Vec<String> = Vec::new();
            a.push("-xzf".to_owned());
            a.push(src.clone());
            a.push("-C".to_owned());
            a.push(dest.clone());
            assert(views(a@) =~= seq!["-xzf"@, src@, "-C"@, dest@]);
            StepPlan::Run { command: "tar".to_owned(), args: a, env: Vec::new() }
        },
    }
}

/// The level and text of the log line of a finished step.
pub open spec fn step_outcome(step_id: Seq<char>, result: Result<i32, AppError>) -> (
    LogLevel,
    Seq<char>,
) {
    match result {
        Ok(code) => if code == 0 {
            (LogLevel::Info, "✔ Step '"@ + step_id + "' succeeded"@)
        } else {
            (LogLevel::Error, "✖ "@ + failure_text(step_id, result))
        },
        Err(e) => (LogLevel::Error, "✖ Step '"@ + step_id + "' failed: "@ + error_text(e)),
    }
}

/// The log line of a step that starts.
pub fn starting_message(step_id: &str) -> (r: String)
    ensures
        r@ == "▶ Starting step: "@ + step_id@,
{
    "▶ Starting step: ".to_owned().concat(step_id)
}

/// The verdict of an environment check step on the probed status of
/// `env_id`: the log line, and exit code 0 for an available tool, else a
/// step error with exit code 1 saying that the tool is not installed or
/// that its check failed.
pub fn env_check_result(step_id: &str, env_id: &str, status: &EnvStatus) -> (r: (
    String,
    Result<i32, AppError>,
))
    ensures
        r.0@ == "Env check '"@ + env_id@ + "': "@ + status.text(),
        match status {
            EnvStatus::Available => r.1 == Ok::<i32, AppError>(0),
            EnvStatus::Missing => r.1 matches Err(
                AppError::StepExecutionError { step_id: s, exit_code, stderr },
            ) && s@ == step_id@ && exit_code == Some(1i32) && stderr@ == "Environment '"@ + env_id@
                + "' is not installed"@,
            _ => r.1 matches Err(AppError::StepExecutionError { step_id: s, exit_code, stderr })
                && s@ == step_id@ && exit_code == Some(1i32) && stderr@ == "Environment '"@ + env_id@
                + "' check failed: "@ + status.text(),
        },
{
    let line = "Env check '".to_owned().concat(env_id).concat("': ").concat(
        status.describe().as_str(),
    );
    let result = match status {
        EnvStatus::Available => Ok(0),
        EnvStatus::Missing => Err(
            AppError::StepExecutionError {
                step_id: step_id.to_owned(),
                exit_code: Some(1),
                stderr: "Environment '".to_owned().concat(env_id).concat("' is not installed"),
            },
        ),
        _ => Err(
            AppError::StepExecutionError {
                step_id: step_id.to_owned(),
                exit_code: Some(1),
                stderr: "Environment '".to_owned().concat(env_id).concat("' check failed: ").concat(
                    status.describe().as_str(),
                ),
            },
        ),
    };
    (line, result)
}

/// The error text stored in a step that failed with `result`.
pub open spec fn failure_text(step_id: Seq<char>, result: Result<i32, AppError>) -> Seq<char> {
    match result {
        Ok(code) => "Step '"@ + step_id + "' exited with code "@ + signed_decimal(code as int),
        Err(e) => error_text(e),
    }
}

/// A step's result counts as success: exit code 0.
pub open spec fn succeeded(result: Result<i32, AppError>) -> bool {
    result matches Ok(code) && code == 0
}

/// A dependency named `d` is done: some step with that id succeeded or had
/// its failure skipped.
pub open spec fn dependency_done(steps: Seq<TaskStep>, d: Seq<char>) -> bool {
    exists|j: int| 0 <= j < steps.len() && (#[trigger] steps[j]).id@ == d && steps[j].status.is_done()
}

/// Step `k` may run now: it is waiting to run (pending, or waiting for a
/// re-run) and every step it depends on is done.
pub open spec fn step_ready(steps: Seq<TaskStep>, k: int) -> bool {
    &&& steps[k].status is Pending || steps[k].status is Waiting
    &&& forall|m: int|
        0 <= m < steps[k].depends_on@.len() ==> dependency_done(steps, (#[trigger] steps[k].depends_on@[m])@)
}

fn dependency_done_in(steps: &Vec<TaskStep>, d: &str) -> (r: bool)
    ensures
        r == dependency_done(steps@, d@),
{
    let mut j: usize = 0;
    while j < steps.len()
        invariant
            j <= steps@.len(),
            forall|jj: int| 0 <= jj < j ==> !((#[trigger] steps@[jj]).id@ == d@ && steps@[jj].status.is_done()),
        decreases steps@.len() - j,
    {
        if str_eq(steps[j].id.as_str(), d) && steps[j].status.done() {
            return true;
        }
        j = j + 1;
    }
    false
}

impl Task {
    /// Whether step `k` may run now.
    pub fn is_ready(&self, k: usize) -> (r: bool)
        requires
            k < self.steps@.len(),
        ensures
            r == step_ready(self.steps@, k as int),
    {
        let step = &self.steps[k];
        match step.status {
            StepStatus::Pending => {},
            StepStatus::Waiting => {},
            _ => {
                return false;
            },
        }
        let mut m: usize = 0;
        while m < step.depends_on.len()
            invariant
                m <= step.depends_on@.len(),
                k < self.steps@.len(),
                *step == self.steps@[k as int],
                forall|mm: int|
                    0 <= mm < m ==> dependency_done(self.steps@, (#[trigger] step.depends_on@[mm])@),
            decreases step.depends_on@.len() - m,
        {
            if !dependency_done_in(&self.steps, step.depends_on[m].as_str()) {
                return false;
            }
            m = m + 1;
        }
        true
    }

    /// The first step that may run now: one waiting to run (pending, or
    /// waiting for a re-run) whose every dependency is done, that is, has
    /// succeeded or had its failure skipped. `None` when there is no such
    /// step.
    pub fn next_ready(&self) -> (r: Option<usize>)
        ensures
            match r {
                Some(k) => k < self.steps@.len() && step_ready(self.steps@, k as int) && forall|j: int|
                    0 <= j < k ==> !step_ready(self.steps@, j),
                None => forall|j: int| 0 <= j < self.steps@.len() ==> !step_ready(self.steps@, j),
            },
    {
        let mut k: usize = 0;
        while k < self.steps.len()
            invariant
                k <= self.steps@.len(),
                forall|j: int| 0 <= j < k ==> !step_ready(self.steps@, j),
            decreases self.steps@.len() - k,
        {
            if self.is_ready(k) {
                return Some(k);
            }
            k = k + 1;
        }
        None
    }

    /// Start the task: it leaves `Idle` for `Running` (the event is ignored
    /// in any other status) and records the start time.
    pub fn begin(&mut self, now: u64)
        ensures
            *final(self) == (Task {
                status: status_after(old(self).status, TaskEvent::Start),
                started_at: Some(now),
                ..*old(self)
            }),
    {
        let _ = TaskStateMachine::transition(self, TaskEvent::Start);
        self.started_at = Some(now);
    }

    /// React to a control message. `Cancel` cancels the task and every
    /// unfinished step, records the finish time and stops the run; `Pause`
    /// and `Resume` move the status as the state machine allows.
    pub fn apply_control(&mut self, control: TaskControl, now: u64) -> (r: ControlOutcome)
        ensures
            match control {
                TaskControl::Cancel => r == ControlOutcome::Stop && final(self).status
                    == TaskStatus::Cancelled && final(self).finished_at == Some(now) && final(self).steps@ == cancel_all(old(self).steps@)
                    && *final(self) == (Task {
                    status: TaskStatus::Cancelled,
                    steps: final(self).steps,
                    finished_at: Some(now),
                    ..*old(self)
                }),
                TaskControl::Pause => r == ControlOutcome::Continue && *final(self) == (Task {
                    status: status_after(old(self).status, TaskEvent::Pause),
                    ..*old(self)
                }),
                TaskControl::Resume => r == ControlOutcome::Continue && *final(self) == (Task {
                    status: status_after(old(self).status, TaskEvent::Resume),
                    ..*old(self)
                }),
            },
    {
        match control {
            TaskControl::Cancel => {
                let _ = TaskStateMachine::transition(self, TaskEvent::Cancel);
                TaskStateMachine::cancel_steps(self);
                self.finished_at = Some(now);
                ControlOutcome::Stop
            },
            TaskControl::Pause => {
                let _ = TaskStateMachine::transition(self, TaskEvent::Pause);
                ControlOutcome::Continue
            },
            TaskControl::Resume => {
                let _ = TaskStateMachine::transition(self, TaskEvent::Resume);
                ControlOutcome::Continue
            },
        }
    }

    /// Whether the next step may run: a paused task waits, a cancelled one
    /// stops, any other goes on.
    pub fn gate(&self) -> (r: Gate)
        ensures
            r == gate_of(self.status),
    {
        match self.status {
            TaskStatus::Paused => Gate::Wait,
            TaskStatus::Cancelled => Gate::Stop,
            _ => Gate::Proceed,
        }
    }

    /// Mark step `i` as running from `now` and say how to carry it out.
    pub fn start_step(&mut self, i: usize, now: u64) -> (r: StepPlan)
        requires
            i < old(self).steps@.len(),
        ensures
            plan_matches(r, old(self).steps@[i as int].action),
            final(self).steps@ == old(self).steps@.update(
                i as int,
                (TaskStep {
                    status: StepStatus::Running,
                    started_at: Some(now),
                    ..old(self).steps@[i as int]
                }),
            ),
            *final(self) == (Task { steps: final(self).steps, ..*old(self) }),
    {
        let plan = plan_step(&self.steps[i].action);
        self.steps[i].status = StepStatus::Running;
        self.steps[i].started_at = Some(now);
        plan
    }

    /// Start the first step that may run now (see `next_ready`): mark it as
    /// running from `now`, and give its index and how to carry it out. When
    /// no step may run, the task is left as it is.
    pub fn start_next(&mut self, now: u64) -> (r: Option<(usize, StepPlan)>)
        ensures
            match r {
                Some((k, plan)) => {
                    &&& k < old(self).steps@.len()
                    &&& step_ready(old(self).steps@, k as int)
                    &&& forall|j: int| 0 <= j < k ==> !step_ready(old(self).steps@, j)
                    &&& plan_matches(plan, old(self).steps@[k as int].action)
                    &&& final(self).steps@ == old(self).steps@.update(
                        k as int,
                        (TaskStep {
                            status: StepStatus::Running,
                            started_at: Some(now),
                            ..old(self).steps@[k as int]
                        }),
                    )
                    &&& *final(self) == (Task { steps: final(self).steps, ..*old(self) })
                },
                None => {
                    &&& forall|j: int| 0 <= j < old(self).steps@.len() ==> !step_ready(old(self).steps@, j)
                    &&& *final(self) == *old(self)
                },
            },
    {
        match self.next_ready() {
            Some(k) => {
                let plan = self.start_step(k, now);
                Some((k, plan))
            },
            None => None,
        }
    }

    /// Record the result of step `i`, finished at `now`: exit code 0 is
    /// success; another exit code, or an error, is a failure. A failed step
    /// with re-runs left waits to run again, counting the re-run; without
    /// any left it is skipped when its failures are skipped, and otherwise
    /// it fails, and with it the task, with a summary naming the step, and
    /// the run stops. Progress becomes the share of finished steps.
    pub fn finish_step(&mut self, i: usize, result: Result<i32, AppError>, now: u64) -> (r:
        StepReport)
        requires
            i < old(self).steps@.len(),
        ensures
            final(self).steps@.len() == old(self).steps@.len(),
            forall|k: int|
                0 <= k < old(self).steps@.len() && k != i ==> final(self).steps@[k] == old(self).steps@[k],
            ({
                let old_step = old(self).steps@[i as int];
                let step = final(self).steps@[i as int];
                &&& step.id == old_step.id
                &&& step.name == old_step.name
                &&& step.finished_at == Some(now)
                &&& step.exit_code == match result {
                    Ok(code) => Some(code),
                    Err(_) => old_step.exit_code,
                }
                &&& status_after_result(old_step, result, step.status)
                &&& step.retry_count == if next_after(old_step, result) is Retry {
                    (old_step.retry_count + 1) as u8
                } else {
                    old_step.retry_count
                }
                &&& step == (TaskStep {
                    status: step.status,
                    finished_at: step.finished_at,
                    exit_code: step.exit_code,
                    retry_count: step.retry_count,
                    ..old_step
                })
            }),
            final(self).progress == (Progress {
                done: finished_count(final(self).steps@) as usize,
                of: final(self).steps@.len() as usize,
            }),
            r.next == next_after(old(self).steps@[i as int], result),
            r.level == step_outcome(old(self).steps@[i as int].id@, result).0,
            r.message@ == step_outcome(old(self).steps@[i as int].id@, result).1,
            if r.next != StepNext::Stop {
                *final(self) == (Task {
                    steps: final(self).steps,
                    progress: final(self).progress,
                    ..*old(self)
                })
            } else {
                &&& final(self).error_summary matches Some(s) && s@ == "Step '"@ + old(self).steps@[i as int].id@ + "' failed"@
                &&& final(self).status == status_after(old(self).status, TaskEvent::Fail)
                &&& final(self).finished_at == Some(now)
                &&& *final(self) == (Task {
                    steps: final(self).steps,
                    progress: final(self).progress,
                    error_summary: final(self).error_summary,
                    status: final(self).status,
                    finished_at: final(self).finished_at,
                    ..*old(self)
                })
            },
    {
        let step_id = self.steps[i].id.clone();
        self.steps[i].finished_at = Some(now);
        let report = match result {
            Ok(code) => {
                self.steps[i].exit_code = Some(code);
                if code == 0 {
                    self.steps[i].status = StepStatus::Success;
                    StepReport {
                        level: LogLevel::Info,
                        message: "✔ Step '".to_owned().concat(step_id.as_str()).concat(
                            "' succeeded",
                        ),
                        next: StepNext::Continue,
                    }
                } else {
                    let msg = "Step '".to_owned().concat(step_id.as_str()).concat(
                        "' exited with code ",
                    ).concat(i64_to_decimal(code as i64).as_str());
                    let line = "✖ ".to_owned().concat(msg.as_str());
                    self.steps[i].status = StepStatus::Failed { error: msg };
                    StepReport { level: LogLevel::Error, message: line, next: StepNext::Stop }
                }
            },
            Err(e) => {
                let msg = e.to_string();
                let line = "✖ Step '".to_owned().concat(step_id.as_str()).concat("' failed: ").concat(
                    msg.as_str(),
                );
                self.steps[i].status = StepStatus::Failed { error: msg };
                StepReport { level: LogLevel::Error, message: line, next: StepNext::Stop }
            },
        };
        let mut report = report;
        if report.next == StepNext::Stop {
            let retry_count = self.steps[i].retry_count;
            if retry_count < self.steps[i].max_retries {
                let delay_secs = retry_delay(
                    self.steps[i].retry_delay_secs,
                    self.steps[i].backoff,
                    retry_count + 1,
                );
                self.steps[i].status = StepStatus::Waiting;
                self.steps[i].retry_count = retry_count + 1;
                report.next = StepNext::Retry { delay_secs };
            } else if self.steps[i].on_error == OnErrorStrategy::Skip {
                self.steps[i].status = StepStatus::Skipped;
                report.next = StepNext::Continue;
            }
        }
        let done = self.count_finished();
        self.progress = Progress { done, of: self.steps.len() };
        if report.next == StepNext::Stop {
            self.error_summary = Some(
                "Step '".to_owned().concat(step_id.as_str()).concat("' failed"),
            );
            let _ = TaskStateMachine::transition(self, TaskEvent::Fail);
            self.finished_at = Some(now);
        }
        report
    }

    /// The number of finished steps.
    pub fn count_finished(&self) -> (r: usize)
        ensures
            r == finished_count(self.steps@),
    {
        let mut n: usize = 0;
        let mut i: usize = 0;
        while i < self.steps.len()
            invariant
                i <= self.steps@.len(),
                n == finished_count(self.steps@.subrange(0, i as int)),
                n <= i,
            decreases self.steps@.len() - i,
        {
            assert(self.steps@.subrange(0, i + 1).drop_last() =~= self.steps@.subrange(0, i as int));
            if self.steps[i].status.finished() {
                n = n + 1;
            }
            i = i + 1;
        }
        assert(self.steps@.subrange(0, self.steps@.len() as int) =~= self.steps@);
        n
    }

    /// Finish a run that found no further step to start. A task still
    /// running succeeds, with full progress and the finish time, when every
    /// step has finished; when some step never could run (a step it depends
    /// on never got done), the task fails instead, with a summary naming the
    /// first such step, and the finish time. Any other task is left as it
    /// is. Returns whether the task changed.
    pub fn complete(&mut self, now: u64) -> (r: bool)
        ensures
            r == (old(self).status == TaskStatus::Running),
            r && first_unfinished(old(self).steps@) < 0 ==> *final(self) == (Task {
                status: TaskStatus::Success,
                progress: Progress { done: 1, of: 1 },
                finished_at: Some(now),
                ..*old(self)
            }),
            r && first_unfinished(old(self).steps@) >= 0 ==> {
                let k = first_unfinished(old(self).steps@);
                &&& final(self).error_summary matches Some(s) && s@ == "Step '"@
                    + old(self).steps@[k].id@ + "' could not run"@
                &&& *final(self) == (Task {
                    status: TaskStatus::Failed,
                    finished_at: Some(now),
                    error_summary: final(self).error_summary,
                    ..*old(self)
                })
            },
            !r ==> *final(self) == *old(self),
    {
        if self.status == TaskStatus::Running {
            match self.first_unfinished_step() {
                None => {
                    let _ = TaskStateMachine::transition(self, TaskEvent::Complete);
                    self.progress = Progress { done: 1, of: 1 };
                },
                Some(k) => {
                    self.error_summary = Some(
                        "Step '".to_owned().concat(self.steps[k].id.as_str()).concat("' could not run"),
                    );
                    let _ = TaskStateMachine::transition(self, TaskEvent::Fail);
                },
            }
            self.finished_at = Some(now);
            true
        } else {
            false
        }
    }

    /// The index of the first step that has not finished.
    pub fn first_unfinished_step(&self) -> (r: Option<usize>)
        ensures
            match r {
                Some(k) => k < self.steps@.len() && k as int == first_unfinished(self.steps@),
                None => first_unfinished(self.steps@) < 0,
            },
    {
        let mut k: usize = 0;
        while k < self.steps.len()
            invariant
                k <= self.steps@.len(),
                forall|j: int| 0 <= j < k ==> (#[trigger] self.steps@[j]).status.is_finished(),
            decreases self.steps@.len() - k,
        {
            if !self.steps[k].status.finished() {
                proof {
                    lemma_first_unfinished(self.steps@);
                }
                return Some(k);
            }
            k = k + 1;
        }
        proof {
            lemma_first_unfinished(self.steps@);
        }
        None
    }
}

} // verus!
