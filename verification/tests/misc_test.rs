use openclaw::error::AppError;
use openclaw::log::pipeline::{LogLevel, LogPipeline, LogSource};
use openclaw::recipe::vars::{lookup_var, substitute};

#[test]
fn error_texts() {
    let e = AppError::EnvProbeError { env_id: "node".to_string(), message: "boom".to_string() };
    assert_eq!(e.to_string(), "Environment probe failed: node - boom");
    let e = AppError::StepExecutionError {
        step_id: "s".to_string(),
        exit_code: Some(-3),
        stderr: "bad".to_string(),
    };
    assert_eq!(e.to_string(), "Step execution failed: s (exit code Some(-3)) - bad");
    assert_eq!(AppError::TaskNotFound { task_id: "t".to_string() }.to_string(), "Task not found: t");
    assert_eq!(
        AppError::InvalidTaskControl { message: "m".to_string() }.to_string(),
        "Invalid task control: m"
    );
    assert_eq!(AppError::IoError("disk".to_string()).to_string(), "IO error: disk");
    assert_eq!(AppError::System("x".to_string()).to_string(), "System error: x");
    assert_eq!(
        AppError::RecipeParseError { path: "p".to_string(), message: "m".to_string() }.to_string(),
        "Recipe parse error: p - m"
    );
}

#[test]
fn log_entries_carry_their_fields() {
    let e = LogPipeline::system_entry(7, LogLevel::Warn, "low disk".to_string(), 99);
    assert_eq!(e.id, 7);
    assert_eq!(e.task_id, "system");
    assert!(e.step_id.is_none());
    assert_eq!(e.level, LogLevel::Warn);
    assert_eq!(e.message, "low disk");
    assert_eq!(e.timestamp, 99);
    assert!(matches!(e.source, LogSource::System));
    let e = LogPipeline::step_entry(
        8,
        LogLevel::Info,
        "t".to_string(),
        Some("s".to_string()),
        LogSource::Stdout,
        "hello".to_string(),
        100,
    );
    assert_eq!(e.step_id, Some("s".to_string()));
    assert!(matches!(e.source, LogSource::Stdout));
}

#[test]
fn substitution_of_variables() {
    let vars = vec![
        ("a".to_string(), "1".to_string()),
        ("b".to_string(), "${a}".to_string()),
        ("a".to_string(), "2".to_string()),
    ];
    assert_eq!(lookup_var(&vars, "a"), Some(&"2".to_string()));
    assert_eq!(lookup_var(&vars, "c"), None);
    assert_eq!(substitute("x${a}y", &vars), "x2y");
    // values are not expanded again
    assert_eq!(substitute("${b}", &vars), "${a}");
    assert_eq!(substitute("${c} and ${a", &vars), "${c} and ${a");
    assert_eq!(substitute("$${a}", &vars), "$2");
    assert_eq!(substitute("plain text", &vars), "plain text");
    assert_eq!(substitute("", &vars), "");
}
