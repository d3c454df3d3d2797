use openclaw::error::engine::ErrorDiagnosticEngine;
use openclaw::error::{ErrorCategory, ErrorRule, FixAction, FixSuggestion};

#[test]
fn diagnose_returns_report_with_fallback() {
    let engine = ErrorDiagnosticEngine::with_builtins();
    let report = engine.diagnose("t1", "s1", "some random error that matches nothing");
    assert_eq!(report.task_id, "t1");
    assert_eq!(report.step_id, "s1");
    assert!(!report.suggestions.is_empty(), "should have fallback suggestion");
}

#[test]
fn diagnose_matches_npm_eacces() {
    let engine = ErrorDiagnosticEngine::with_builtins();
    let report = engine.diagnose(
        "task-1",
        "install",
        "npm ERR! Error: EACCES: permission denied, mkdir '/usr/local/lib'",
    );
    assert!(report.matched_rule.is_some(), "should match npm_eacces rule");
    let rule = report.matched_rule.unwrap();
    assert_eq!(rule.id, "npm_eacces");
}

#[test]
fn diagnose_matches_network_timeout() {
    let engine = ErrorDiagnosticEngine::with_builtins();
    let report = engine.diagnose(
        "task-1",
        "download",
        "error: ETIMEDOUT connecting to registry.npmjs.org",
    );
    assert!(report.matched_rule.is_some());
    let rule = report.matched_rule.unwrap();
    assert_eq!(rule.id, "network_timeout");
}

#[test]
fn diagnose_matches_node_missing() {
    let engine = ErrorDiagnosticEngine::with_builtins();
    let report = engine.diagnose("task-1", "build", "sh: node: command not found");
    assert!(report.matched_rule.is_some());
    let rule = report.matched_rule.unwrap();
    assert_eq!(rule.id, "node_missing");
}

#[test]
fn diagnose_auto_fixable_flag() {
    let engine = ErrorDiagnosticEngine::with_builtins();
    let report = engine.diagnose("t1", "s1", "EACCES: permission denied");
    assert!(report.auto_fixable);
}

#[test]
fn diagnose_unmatched_has_retry_suggestion() {
    let engine = ErrorDiagnosticEngine::with_builtins();
    let report = engine.diagnose("t1", "s1", "completely unknown error xyz");
    assert_eq!(report.suggestions.len(), 1);
    assert!(report.suggestions[0].title.contains("重试"));
}

fn rule(id: &str, pattern: &str, suggestions: Vec<FixSuggestion>) -> ErrorRule {
    ErrorRule {
        id: id.to_string(),
        pattern: pattern.to_string(),
        description: String::new(),
        category: ErrorCategory::Unknown,
        suggestions,
    }
}

#[test]
fn diagnose_uses_first_matching_rule_and_skips_bad_patterns() {
    let engine = ErrorDiagnosticEngine::new(vec![
        rule("broken", "(unclosed", Vec::new()),
        rule("disk", "No space left", Vec::new()),
        rule("any", ".*", Vec::new()),
    ]);
    assert_eq!(engine.find_rule("(unclosed"), Some(2));
    assert_eq!(engine.find_rule("write failed: No space left on device"), Some(1));
    let report = engine.diagnose("t", "s", "No space left");
    assert_eq!(report.matched_rule.unwrap().id, "disk");
    // the matched rule has no suggestions: the retry suggestion stands in
    assert_eq!(report.suggestions.len(), 1);
    match &report.suggestions[0].action {
        Some(FixAction::RetryStep { step_id }) => assert_eq!(step_id, "s"),
        _ => panic!("expected a retry action"),
    }
    assert!(report.auto_fixable);
}

#[test]
fn diagnose_without_rules_matches_nothing() {
    let engine = ErrorDiagnosticEngine::new(Vec::new());
    assert_eq!(engine.find_rule("anything"), None);
    let report = engine.diagnose("t", "s", "anything");
    assert!(report.matched_rule.is_none());
    assert_eq!(report.raw_error, "anything");
}

#[test]
fn report_without_actions_is_not_auto_fixable() {
    let advice = FixSuggestion {
        title: "Free some disk space".to_string(),
        description: String::new(),
        action: None,
    };
    let r = rule("disk", "space", vec![advice]);
    let report = ErrorDiagnosticEngine::report("t", "s", "no space", Some(&r));
    assert_eq!(report.suggestions.len(), 1);
    assert_eq!(report.suggestions[0].title, "Free some disk space");
    assert!(!report.auto_fixable);
}

#[test]
fn builtin_rules_offer_the_documented_fixes() {
    let engine = ErrorDiagnosticEngine::with_builtins();
    let report = engine.diagnose("t", "s", "EACCES: permission denied");
    assert_eq!(report.suggestions.len(), 2);
    match &report.suggestions[0].action {
        Some(FixAction::RunCommand { command, args }) => {
            assert_eq!(command, "sudo");
            assert_eq!(args, &vec!["npm".to_string(), "install".to_string()]);
        }
        _ => panic!("expected a command"),
    }
    let report = engine.diagnose("t", "s", "getaddrinfo ENOTFOUND registry.npmjs.org");
    assert_eq!(report.matched_rule.unwrap().id, "network_timeout");
}
