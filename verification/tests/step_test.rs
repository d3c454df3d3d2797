use openclaw::recipe::schema::{BackoffStrategy, OnErrorStrategy};
use openclaw::task::step::{StepAction, StepStatus, TaskStep};

#[test]
fn new_step_is_pending() {
    let step = TaskStep::new("s1", "Step 1", 3);
    assert!(matches!(step.status, StepStatus::Pending));
    assert_eq!(step.retry_count, 0);
    assert_eq!(step.max_retries, 3);
    assert_eq!(step.retry_delay_secs, 3);
    assert_eq!(step.backoff, BackoffStrategy::Fixed);
    assert_eq!(step.on_error, OnErrorStrategy::Fail);
}

#[test]
fn step_fields_set_correctly() {
    let step = TaskStep::new("install", "Install deps", 2);
    assert_eq!(step.id, "install");
    assert_eq!(step.name, "Install deps");
    assert_eq!(step.max_retries, 2);
    assert!(step.started_at.is_none());
    assert!(step.finished_at.is_none());
    assert!(step.exit_code.is_none());
    assert!(step.description.is_none());
}

#[test]
fn step_pending_eq() {
    assert_eq!(StepStatus::Pending, StepStatus::Pending);
    assert_ne!(StepStatus::Pending, StepStatus::Running);
}

#[test]
fn failed_statuses_compare_by_error_text() {
    let a = StepStatus::Failed { error: "x".to_string() };
    assert_eq!(a, StepStatus::Failed { error: "x".to_string() });
    assert_ne!(a, StepStatus::Failed { error: "y".to_string() });
    assert!(a.finished());
    assert!(StepStatus::Skipped.finished());
    assert!(StepStatus::Cancelled.finished());
    assert!(!StepStatus::Waiting.finished());
    assert!(!StepStatus::Running.finished());
}

#[test]
fn new_step_runs_an_empty_command() {
    let step = TaskStep::new("s", "S", 0);
    match step.action {
        StepAction::Shell { command, args, env } => {
            assert!(command.is_empty());
            assert!(args.is_empty());
            assert!(env.is_empty());
        }
        _ => panic!("expected a shell action"),
    }
    assert!(step.depends_on.is_empty());
}
