use openclaw::env::prober::EnvStatus;
use openclaw::error::AppError;
use openclaw::log::pipeline::LogLevel;
use openclaw::recipe::schema::{
    BackoffStrategy, OnErrorStrategy, Recipe, RecipeMetadata, RecipeStep, RecipeStepAction,
    RetryConfig,
};
use openclaw::task::engine::{
    env_check_result, plan_step, retry_delay, starting_message, ControlOutcome, Gate, Progress,
    StepNext, StepPlan, Task, TaskStatus,
};
use openclaw::task::state_machine::{TaskControl, TaskEvent, TaskStateMachine};
use openclaw::task::step::{StepAction, StepStatus, TaskStep};

fn shell(command: &str, args: &[&str]) -> StepAction {
    StepAction::Shell {
        command: command.to_string(),
        args: args.iter().map(|a| a.to_string()).collect(),
        env: Vec::new(),
    }
}

fn task_with(ids: &[&str]) -> Task {
    Task {
        id: "t1".to_string(),
        name: "Demo".to_string(),
        recipe_id: "demo".to_string(),
        status: TaskStatus::Idle,
        steps: ids
            .iter()
            .map(|id| {
                let mut s = TaskStep::new(id, id, 0);
                s.action = shell("echo", &[id]);
                s
            })
            .collect(),
        created_at: 1,
        started_at: None,
        finished_at: None,
        progress: Progress { done: 0, of: ids.len() },
        error_summary: None,
    }
}

#[test]
fn state_machine_follows_the_transition_table() {
    assert_eq!(TaskStateMachine::next(TaskStatus::Idle, TaskEvent::Start), Some(TaskStatus::Running));
    assert_eq!(TaskStateMachine::next(TaskStatus::Running, TaskEvent::Pause), Some(TaskStatus::Paused));
    assert_eq!(TaskStateMachine::next(TaskStatus::Paused, TaskEvent::Resume), Some(TaskStatus::Running));
    assert_eq!(TaskStateMachine::next(TaskStatus::Running, TaskEvent::Complete), Some(TaskStatus::Success));
    assert_eq!(TaskStateMachine::next(TaskStatus::Running, TaskEvent::Fail), Some(TaskStatus::Failed));
    for s in [TaskStatus::Idle, TaskStatus::Running, TaskStatus::Paused, TaskStatus::Success, TaskStatus::Failed, TaskStatus::Cancelled] {
        assert_eq!(TaskStateMachine::next(s, TaskEvent::Cancel), Some(TaskStatus::Cancelled));
    }
    assert_eq!(TaskStateMachine::next(TaskStatus::Idle, TaskEvent::Pause), None);
    assert_eq!(TaskStateMachine::next(TaskStatus::Paused, TaskEvent::Pause), None);
    assert_eq!(TaskStateMachine::next(TaskStatus::Success, TaskEvent::Start), None);
    assert_eq!(TaskStateMachine::next(TaskStatus::Failed, TaskEvent::Resume), None);
}

#[test]
fn refused_transition_leaves_task_and_names_it() {
    let mut t = task_with(&["a"]);
    let r = TaskStateMachine::transition(&mut t, TaskEvent::Resume);
    match r {
        Err(e @ AppError::InvalidStateTransition { .. }) => {
            assert_eq!(e.to_string(), "Invalid state transition: Idle + Resume")
        }
        _ => panic!("expected a refused transition"),
    }
    assert_eq!(t.status, TaskStatus::Idle);
    assert!(TaskStateMachine::transition(&mut t, TaskEvent::Start).is_ok());
    assert_eq!(t.status, TaskStatus::Running);
}

#[test]
fn pause_then_resume_runs_again() {
    let mut t = task_with(&["a"]);
    t.begin(10);
    assert_eq!(t.status, TaskStatus::Running);
    assert_eq!(t.started_at, Some(10));
    assert_eq!(t.apply_control(TaskControl::Pause, 11), ControlOutcome::Continue);
    assert_eq!(t.gate(), Gate::Wait);
    assert_eq!(t.apply_control(TaskControl::Resume, 12), ControlOutcome::Continue);
    assert_eq!(t.gate(), Gate::Proceed);
    assert_eq!(t.status, TaskStatus::Running);
}

#[test]
fn cancel_stops_and_cancels_unfinished_steps() {
    let mut t = task_with(&["a", "b", "c"]);
    t.begin(1);
    let plan = t.start_step(0, 2);
    assert!(matches!(plan, StepPlan::Run { .. }));
    t.finish_step(0, Ok(0), 3);
    t.start_step(1, 4);
    assert_eq!(t.apply_control(TaskControl::Cancel, 5), ControlOutcome::Stop);
    assert_eq!(t.status, TaskStatus::Cancelled);
    assert_eq!(t.finished_at, Some(5));
    assert_eq!(t.gate(), Gate::Stop);
    assert_eq!(t.steps[0].status, StepStatus::Success);
    assert_eq!(t.steps[1].status, StepStatus::Cancelled);
    assert_eq!(t.steps[2].status, StepStatus::Cancelled);
}

#[test]
fn a_full_run_succeeds_with_full_progress() {
    let mut t = task_with(&["a", "b"]);
    t.begin(1);
    for i in 0..2 {
        assert_eq!(t.gate(), Gate::Proceed);
        t.start_step(i, 2);
        assert_eq!(t.steps[i].status, StepStatus::Running);
        assert_eq!(t.steps[i].started_at, Some(2));
        let report = t.finish_step(i, Ok(0), 3);
        assert_eq!(report.next, StepNext::Continue);
        assert_eq!(report.level, LogLevel::Info);
        assert_eq!(report.message, format!("✔ Step '{}' succeeded", t.steps[i].id));
        assert_eq!(t.progress, Progress { done: i + 1, of: 2 });
    }
    assert!(t.complete(9));
    assert_eq!(t.status, TaskStatus::Success);
    assert_eq!(t.progress, Progress { done: 1, of: 1 });
    assert_eq!(t.finished_at, Some(9));
}

#[test]
fn nonzero_exit_code_fails_step_and_task() {
    let mut t = task_with(&["a", "b"]);
    t.begin(1);
    t.start_step(0, 2);
    let report = t.finish_step(0, Ok(2), 3);
    assert_eq!(report.next, StepNext::Stop);
    assert_eq!(report.level, LogLevel::Error);
    assert_eq!(report.message, "✖ Step 'a' exited with code 2");
    assert_eq!(t.steps[0].exit_code, Some(2));
    assert_eq!(
        t.steps[0].status,
        StepStatus::Failed { error: "Step 'a' exited with code 2".to_string() }
    );
    assert_eq!(t.status, TaskStatus::Failed);
    assert_eq!(t.error_summary, Some("Step 'a' failed".to_string()));
    assert_eq!(t.finished_at, Some(3));
    assert_eq!(t.progress, Progress { done: 1, of: 2 });
    // a failed task is not completed afterwards
    assert!(!t.complete(4));
    assert_eq!(t.status, TaskStatus::Failed);
}

#[test]
fn step_error_fails_with_its_text() {
    let mut t = task_with(&["a"]);
    t.begin(1);
    t.start_step(0, 2);
    let err = AppError::StepExecutionError {
        step_id: "a".to_string(),
        exit_code: None,
        stderr: "spawn failed".to_string(),
    };
    let report = t.finish_step(0, Err(err), 3);
    let text = "Step execution failed: a (exit code None) - spawn failed";
    assert_eq!(report.message, format!("✖ Step 'a' failed: {text}"));
    assert_eq!(t.steps[0].status, StepStatus::Failed { error: text.to_string() });
    assert_eq!(t.steps[0].exit_code, None);
}

#[test]
fn plans_follow_the_action() {
    let install = StepAction::PackageInstall {
        manager: "npm".to_string(),
        packages: vec!["express".to_string(), "cors".to_string()],
    };
    match plan_step(&install) {
        StepPlan::Run { command, args, env } => {
            assert_eq!(command, "npm");
            assert_eq!(args, vec!["install", "-g", "express", "cors"]);
            assert!(env.is_empty());
        }
        _ => panic!("expected a command"),
    }
    let pip = StepAction::PackageInstall { manager: "pip".to_string(), packages: vec!["x".to_string()] };
    match plan_step(&pip) {
        StepPlan::Run { args, .. } => assert_eq!(args, vec!["install", "x"]),
        _ => panic!("expected a command"),
    }
    let dl = StepAction::Download { url: "https://e/x".to_string(), dest: "/tmp/x".to_string() };
    match plan_step(&dl) {
        StepPlan::Run { command, args, .. } => {
            assert_eq!(command, "curl");
            assert_eq!(args, vec!["-L", "-o", "/tmp/x", "https://e/x"]);
        }
        _ => panic!("expected a command"),
    }
    let ex = StepAction::Extract { src: "a.tgz".to_string(), dest: "/opt".to_string() };
    match plan_step(&ex) {
        StepPlan::Run { command, args, .. } => {
            assert_eq!(command, "tar");
            assert_eq!(args, vec!["-xzf", "a.tgz", "-C", "/opt"]);
        }
        _ => panic!("expected a command"),
    }
    match plan_step(&StepAction::EnvCheck { env_id: "git".to_string() }) {
        StepPlan::CheckEnv { env_id } => assert_eq!(env_id, "git"),
        _ => panic!("expected a check"),
    }
}

#[test]
fn env_check_verdicts() {
    let (line, r) = env_check_result("s", "node", &EnvStatus::Available);
    assert_eq!(line, "Env check 'node': Ok");
    assert_eq!(r.ok(), Some(0));
    let (_, r) = env_check_result("s", "node", &EnvStatus::Missing);
    match r {
        Err(AppError::StepExecutionError { step_id, exit_code, stderr }) => {
            assert_eq!(step_id, "s");
            assert_eq!(exit_code, Some(1));
            assert_eq!(stderr, "Environment 'node' is not installed");
        }
        _ => panic!("expected an error"),
    }
    let (_, r) = env_check_result("s", "git", &EnvStatus::Checking);
    match r {
        Err(e) => assert_eq!(
            e.to_string(),
            "Step execution failed: s (exit code Some(1)) - Environment 'git' check failed: Checking"
        ),
        _ => panic!("expected an error"),
    }
    assert_eq!(starting_message("clone"), "▶ Starting step: clone");
}

fn recipe_step(id: &str, action: RecipeStepAction, deps: &[&str]) -> RecipeStep {
    RecipeStep {
        id: id.to_string(),
        name: format!("Step {id}"),
        description: Some("d".to_string()),
        action,
        depends_on: deps.iter().map(|d| d.to_string()).collect(),
        condition: None,
        retry: None,
        timeout_secs: None,
        on_error: OnErrorStrategy::Fail,
    }
}

fn demo_recipe(steps: Vec<RecipeStep>) -> Recipe {
    Recipe {
        version: "1".to_string(),
        id: "demo".to_string(),
        name: "Demo".to_string(),
        description: None,
        author: None,
        tags: Vec::new(),
        platforms: Vec::new(),
        env_requirements: Vec::new(),
        steps,
        vars: vec![
            ("repo".to_string(), "https://x/r.git".to_string()),
            ("dir".to_string(), "/opt/r".to_string()),
        ],
        metadata: RecipeMetadata::default(),
    }
}

#[test]
fn into_task_replaces_variables_and_given_vars_win() {
    let mut clone = recipe_step(
        "clone",
        RecipeStepAction::Shell {
            command: "git".to_string(),
            args: vec!["clone".to_string(), "${repo}".to_string(), "${dir}".to_string(), "${nope}".to_string()],
            env: vec![("TARGET".to_string(), "at ${dir}!".to_string())],
        },
        &[],
    );
    clone.retry = Some(RetryConfig { max_attempts: 3, delay_secs: 1, backoff: BackoffStrategy::Exponential });
    clone.on_error = OnErrorStrategy::Skip;
    let check = recipe_step("check", RecipeStepAction::EnvCheck { env_id: "node".to_string() }, &["clone"]);
    let r = demo_recipe(vec![clone, check]);
    let task = r
        .into_task(&vec![("dir".to_string(), "/srv".to_string())], "task-9".to_string(), 77)
        .expect("the recipe has a valid graph");
    assert_eq!(task.id, "task-9");
    assert_eq!(task.name, "Demo");
    assert_eq!(task.recipe_id, "demo");
    assert_eq!(task.status, TaskStatus::Idle);
    assert_eq!(task.created_at, 77);
    assert_eq!(task.progress, Progress { done: 0, of: 2 });
    assert_eq!(task.steps.len(), 2);
    let s = &task.steps[0];
    assert_eq!(s.max_retries, 3);
    assert_eq!(s.retry_delay_secs, 1);
    assert_eq!(s.backoff, BackoffStrategy::Exponential);
    assert_eq!(s.on_error, OnErrorStrategy::Skip);
    assert_eq!(s.status, StepStatus::Pending);
    assert_eq!(s.description, Some("d".to_string()));
    match &s.action {
        StepAction::Shell { command, args, env } => {
            assert_eq!(command, "git");
            assert_eq!(args, &vec!["clone", "https://x/r.git", "/srv", "${nope}"]);
            assert_eq!(env, &vec![("TARGET".to_string(), "at /srv!".to_string())]);
        }
        _ => panic!("expected a shell action"),
    }
    assert_eq!(task.steps[1].depends_on, vec!["clone"]);
    assert_eq!(task.steps[1].max_retries, 0);
    assert_eq!(task.steps[1].retry_delay_secs, 3);
    assert_eq!(task.steps[1].on_error, OnErrorStrategy::Fail);
}

#[test]
fn into_task_refuses_a_cycle() {
    let a = recipe_step("a", RecipeStepAction::EnvCheck { env_id: "git".to_string() }, &["b"]);
    let b = recipe_step("b", RecipeStepAction::EnvCheck { env_id: "git".to_string() }, &["a"]);
    let r = demo_recipe(vec![a, b]);
    match r.into_task(&Vec::new(), "t".to_string(), 0) {
        Err(e) => assert_eq!(
            e.to_string(),
            "Recipe parse error:  - circular dependency detected in step graph"
        ),
        Ok(_) => panic!("expected a cycle"),
    }
}

#[test]
fn exponential_delays_double_and_fixed_ones_stay() {
    assert_eq!(retry_delay(5, BackoffStrategy::Exponential, 1), 5);
    assert_eq!(retry_delay(5, BackoffStrategy::Exponential, 2), 10);
    assert_eq!(retry_delay(5, BackoffStrategy::Exponential, 3), 20);
    assert_eq!(retry_delay(5, BackoffStrategy::Fixed, 3), 5);
    assert_eq!(retry_delay(u64::MAX / 2 + 1, BackoffStrategy::Exponential, 2), u64::MAX);
    assert_eq!(retry_delay(3, BackoffStrategy::Exponential, 200), u64::MAX);
}

#[test]
fn failing_step_is_retried_then_succeeds() {
    let mut t = task_with(&["a", "b"]);
    t.steps[0].max_retries = 2;
    t.steps[0].retry_delay_secs = 5;
    t.steps[0].backoff = BackoffStrategy::Exponential;
    t.begin(1);
    let (i, _) = t.start_next(2).unwrap();
    assert_eq!(i, 0);
    let report = t.finish_step(0, Ok(1), 3);
    assert_eq!(report.next, StepNext::Retry { delay_secs: 5 });
    assert_eq!(t.steps[0].status, StepStatus::Waiting);
    assert_eq!(t.steps[0].retry_count, 1);
    assert_eq!(t.status, TaskStatus::Running);
    assert_eq!(t.progress, Progress { done: 0, of: 2 });
    let (i, _) = t.start_next(4).unwrap();
    assert_eq!(i, 0);
    let report = t.finish_step(0, Ok(1), 5);
    assert_eq!(report.next, StepNext::Retry { delay_secs: 10 });
    assert_eq!(t.steps[0].retry_count, 2);
    t.start_next(6);
    let report = t.finish_step(0, Ok(0), 7);
    assert_eq!(report.next, StepNext::Continue);
    assert_eq!(t.steps[0].status, StepStatus::Success);
    assert_eq!(t.steps[0].retry_count, 2);
    let (i, _) = t.start_next(8).unwrap();
    assert_eq!(i, 1);
}

#[test]
fn retries_run_out_then_the_task_fails() {
    let mut t = task_with(&["a"]);
    t.steps[0].max_retries = 1;
    t.begin(1);
    t.start_next(2);
    assert!(matches!(t.finish_step(0, Ok(3), 3).next, StepNext::Retry { delay_secs: 3 }));
    t.start_next(4);
    assert_eq!(t.finish_step(0, Ok(3), 5).next, StepNext::Stop);
    assert_eq!(t.status, TaskStatus::Failed);
    assert_eq!(t.steps[0].retry_count, 1);
}

#[test]
fn skipped_failure_lets_the_run_go_on() {
    let mut t = task_with(&["a", "b"]);
    t.steps[0].on_error = OnErrorStrategy::Skip;
    t.steps[1].depends_on = vec!["a".to_string()];
    t.begin(1);
    t.start_next(2);
    let report = t.finish_step(0, Ok(1), 3);
    assert_eq!(report.next, StepNext::Continue);
    assert_eq!(t.steps[0].status, StepStatus::Skipped);
    assert_eq!(t.status, TaskStatus::Running);
    assert_eq!(t.progress, Progress { done: 1, of: 2 });
    let (i, _) = t.start_next(4).unwrap();
    assert_eq!(i, 1);
}

#[test]
fn steps_wait_for_their_dependencies_in_any_listing_order() {
    let mut t = task_with(&["b", "a"]);
    t.steps[0].depends_on = vec!["a".to_string()];
    t.begin(1);
    assert_eq!(t.next_ready(), Some(1));
    assert!(!t.is_ready(0));
    let (i, _) = t.start_next(2).unwrap();
    assert_eq!(i, 1);
    // a is running: b still waits, and no other step may start
    assert_eq!(t.next_ready(), None);
    assert!(t.start_next(3).is_none());
    t.finish_step(1, Ok(0), 4);
    assert_eq!(t.next_ready(), Some(0));
    t.start_next(5);
    t.finish_step(0, Ok(0), 6);
    assert_eq!(t.next_ready(), None);
    assert!(t.complete(7));
}

#[test]
fn a_step_that_can_never_run_fails_the_task() {
    let mut t = task_with(&["a", "b"]);
    t.steps[1].depends_on = vec!["ghost".to_string()];
    t.begin(1);
    t.start_next(2);
    t.finish_step(0, Ok(0), 3);
    assert!(t.start_next(4).is_none());
    assert_eq!(t.first_unfinished_step(), Some(1));
    assert!(t.complete(5));
    assert_eq!(t.status, TaskStatus::Failed);
    assert_eq!(t.error_summary, Some("Step 'b' could not run".to_string()));
    assert_eq!(t.finished_at, Some(5));
}

#[test]
fn cancel_while_paused_starts_nothing() {
    let mut t = task_with(&["a", "b"]);
    t.begin(1);
    t.apply_control(TaskControl::Pause, 2);
    assert_eq!(t.gate(), Gate::Wait);
    assert_eq!(t.apply_control(TaskControl::Cancel, 3), ControlOutcome::Stop);
    assert_eq!(t.gate(), Gate::Stop);
    assert_eq!(t.next_ready(), None);
    assert!(t.steps.iter().all(|s| s.status == StepStatus::Cancelled));
}
