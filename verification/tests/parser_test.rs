use openclaw::error::AppError;
use openclaw::recipe::parser::validate_parsed_recipe;
use openclaw::task::graph::TaskGraph;
use openclaw::recipe::schema::{
    OnErrorStrategy, Recipe, RecipeMetadata, RecipeStep, RecipeStepAction, RetryConfig,
    BackoffStrategy, ValidationSeverity,
};

fn step(id: &str, action: RecipeStepAction, deps: Vec<&str>) -> RecipeStep {
    RecipeStep {
        id: id.to_string(),
        name: id.to_string(),
        description: None,
        action,
        depends_on: deps.into_iter().map(String::from).collect(),
        condition: None,
        retry: None,
        timeout_secs: None,
        on_error: OnErrorStrategy::default(),
    }
}

fn recipe(version: &str, id: &str, name: &str, steps: Vec<RecipeStep>) -> Recipe {
    Recipe {
        version: version.to_string(),
        id: id.to_string(),
        name: name.to_string(),
        description: None,
        author: None,
        tags: Vec::new(),
        platforms: Vec::new(),
        env_requirements: Vec::new(),
        steps,
        vars: Vec::new(),
        metadata: RecipeMetadata::default(),
    }
}

fn echo() -> RecipeStepAction {
    RecipeStepAction::Shell { command: "echo".to_string(), args: Vec::new(), env: Vec::new() }
}

#[test]
fn parse_toml_rejects_invalid_recipe_after_deserialization() {
    // the recipe that the TOML text of this check describes
    let parsed = recipe(
        "1",
        "demo",
        "Demo",
        vec![RecipeStep {
            name: "Download".to_string(),
            ..step(
                "download",
                RecipeStepAction::Download {
                    url: "https://example.com/file.zip".to_string(),
                    dest: "/tmp/file.zip".to_string(),
                },
                vec![],
            )
        }],
    );
    let result = validate_parsed_recipe(parsed, "<inline>");
    match result {
        Err(AppError::RecipeParseError { message, .. }) => {
            assert!(message.contains("download steps are not supported yet"));
        }
        other => panic!("expected validation parse error, got {other:?}"),
    }
}

#[test]
fn valid_recipe_is_accepted_unchanged() {
    let r = recipe("1", "ok", "Fine", vec![step("a", echo(), vec![]), step("b", echo(), vec!["a"])]);
    match validate_parsed_recipe(r, "ok.toml") {
        Ok(back) => {
            assert_eq!(back.id, "ok");
            assert_eq!(back.steps.len(), 2);
        }
        Err(e) => panic!("unexpected error {e:?}"),
    }
}

#[test]
fn every_error_is_listed_one_per_line() {
    let r = recipe(
        "2",
        "",
        "x",
        vec![step("a", echo(), vec!["nope"]), step("a", echo(), vec![])],
    );
    let issues = r.validate();
    assert!(issues.iter().all(|i| i.severity == ValidationSeverity::Error));
    match validate_parsed_recipe(r, "bad.toml") {
        Err(AppError::RecipeParseError { path, message }) => {
            assert_eq!(path, "bad.toml");
            assert_eq!(message.lines().count(), issues.len());
            for i in &issues {
                assert!(message.contains(&format!("{}: {}", i.field, i.message)));
            }
        }
        other => panic!("expected an error, got {other:?}"),
    }
}

#[test]
fn retry_needs_at_least_one_attempt() {
    let mut s = step("a", echo(), vec![]);
    s.retry = Some(RetryConfig { max_attempts: 0, delay_secs: 3, backoff: BackoffStrategy::default() });
    let r = recipe("1", "r", "R", vec![s]);
    let issues = r.validate();
    assert_eq!(issues.len(), 1);
    assert_eq!(issues[0].severity, ValidationSeverity::Error);
    assert!(validate_parsed_recipe(r, "r.toml").is_err());
}

#[test]
fn recipe_without_steps_only_draws_a_warning() {
    let r = recipe("1", "r", "R", Vec::new());
    let issues = r.validate();
    assert_eq!(issues.len(), 1);
    assert_eq!(issues[0].field, "steps");
    assert_eq!(issues[0].severity, ValidationSeverity::Warning);
    assert!(validate_parsed_recipe(r, "r.toml").is_ok());
}

#[test]
fn validation_and_graph_agree_on_unknown_dependencies() {
    let bad = recipe("1", "r", "R", vec![step("a", echo(), vec!["ghost"])]);
    assert!(bad.validate().iter().any(|i| i.message.contains("unknown step 'ghost'")));
    assert!(TaskGraph::build(&bad.steps).is_err());
    let good = recipe("1", "r", "R", vec![step("a", echo(), vec![]), step("b", echo(), vec!["a"])]);
    assert!(good.validate().is_empty());
    assert!(TaskGraph::build(&good.steps).is_ok());
}
