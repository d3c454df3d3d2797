//! Error values of the library and the types of the error diagnostics.
use vstd::prelude::*;

use crate::task::engine::TaskStatus;
use crate::task::state_machine::TaskEvent;
use crate::text::{clone_strings, i64_to_decimal, signed_decimal};

pub mod engine;

verus! {

/// Every error that the library reports.
#[derive(Debug)]
pub enum AppError {
    EnvProbeError { env_id: String, message: String },
    RecipeParseError { path: String, message: String },
    RecipeNotFound { recipe_id: String },
    StepExecutionError { step_id: String, exit_code: Option<i32>, stderr: String },
    TaskNotFound { task_id: String },
    InvalidTaskControl { message: String },
    InvalidStateTransition { from: TaskStatus, event: TaskEvent },
    PluginError { plugin_id: String, message: String },
    IoError(String),
    System(String),
}

/// The text of an optional exit code, as `Some(3)` or `None`.
pub open spec fn exit_code_text(code: Option<i32>) -> Seq<char> {
    match code {
        Some(c) => "Some("@ + signed_decimal(c as int) + ")"@,
        None => "None"@,
    }
}

/// The human-readable text of an error.
pub open spec fn error_text(e: AppError) -> Seq<char> {
    match e {
        AppError::EnvProbeError { env_id, message } => "Environment probe failed: "@ + env_id@
            + " - "@ + message@,
        AppError::RecipeParseError { path, message } => "Recipe parse error: "@ + path@ + " - "@
            + message@,
        AppError::RecipeNotFound { recipe_id } => "Recipe not found: "@ + recipe_id@,
        AppError::StepExecutionError { step_id, exit_code, stderr } => "Step execution failed: "@
            + step_id@ + " (exit code "@ + exit_code_text(exit_code) + ") - "@ + stderr@,
        AppError::TaskNotFound { task_id } => "Task not found: "@ + task_id@,
        AppError::InvalidTaskControl { message } => "Invalid task control: "@ + message@,
        AppError::InvalidStateTransition { from, event } => "Invalid state transition: "@
            + from.name() + " + "@ + event.name(),
        AppError::PluginError { plugin_id, message } => "Plugin error: "@ + plugin_id@ + " - "@
            + message@,
        AppError::IoError(m) => "IO error: "@ + m@,
        AppError::System(m) => "System error: "@ + m@,
    }
}

fn exit_code_string(code: Option<i32>) -> (r: String)
    ensures
        r@ == exit_code_text(code),
{
    match code {
        Some(c) => "Some(".to_owned().concat(i64_to_decimal(c as i64).as_str()).concat(")"),
        None => "None".to_owned(),
    }
}

impl AppError {
    /// The human-readable text of this error.
    pub fn to_string(&self) -> (r: String)
        ensures
            r@ == error_text(*self),
    {
        match self {
            AppError::EnvProbeError { env_id, message } => "Environment probe failed: ".to_owned().concat(
                env_id.as_str(),
            ).concat(" - ").concat(message.as_str()),
            AppError::RecipeParseError { path, message } => "Recipe parse error: ".to_owned().concat(
                path.as_str(),
            ).concat(" - ").concat(message.as_str()),
            AppError::RecipeNotFound { recipe_id } => "Recipe not found: ".to_owned().concat(
                recipe_id.as_str(),
            ),
            AppError::StepExecutionError { step_id, exit_code, stderr } => "Step execution failed: ".to_owned().concat(
                step_id.as_str(),
            ).concat(" (exit code ").concat(exit_code_string(*exit_code).as_str()).concat(
                ") - ",
            ).concat(stderr.as_str()),
            AppError::TaskNotFound { task_id } => "Task not found: ".to_owned().concat(
                task_id.as_str(),
            ),
            AppError::InvalidTaskControl { message } => "Invalid task control: ".to_owned().concat(
                message.as_str(),
            ),
            AppError::InvalidStateTransition { from, event } => "Invalid state transition: ".to_owned().concat(
                from.name_str(),
            ).concat(" + ").concat(event.name_str()),
            AppError::PluginError { plugin_id, message } => "Plugin error: ".to_owned().concat(
                plugin_id.as_str(),
            ).concat(" - ").concat(message.as_str()),
            AppError::IoError(m) => "IO error: ".to_owned().concat(m.as_str()),
            AppError::System(m) => "System error: ".to_owned().concat(m.as_str()),
        }
    }
}


// ---------------------------------------------------------------------------
// Error diagnostic types
// ---------------------------------------------------------------------------

/// Category of a matched error.
#[derive(PartialEq, Eq, Structural, Clone, Copy, Debug)]
pub enum ErrorCategory {
    NetworkError,
    PermissionDenied,
    MissingDependency,
    VersionConflict,
    DiskSpace,
    Timeout,
    Unknown,
}

/// An auto-fix action that can be executed.
#[derive(Debug)]
pub enum FixAction {
    RunCommand { command: String, args: Vec<String> },
    RetryStep { step_id: String },
    InstallEnv { env_id: String },
    OpenUrl { url: String },
}

/// A human-readable suggestion with an optional auto-fix action.
#[derive(Debug)]
pub struct FixSuggestion {
    pub title: String,
    pub description: String,
    pub action: Option<FixAction>,
}

/// A rule that matches a raw error string and provides suggestions.
#[derive(Debug)]
pub struct ErrorRule {
    pub id: String,
    /// Regex pattern matched against the raw error text.
    pub pattern: String,
    pub description: String,
    pub category: ErrorCategory,
    pub suggestions: Vec<FixSuggestion>,
}

/// Full diagnostic report produced for a failed step.
#[derive(Debug)]
pub struct DiagnosticReport {
    pub task_id: String,
    pub step_id: String,
    pub raw_error: String,
    pub matched_rule: Option<ErrorRule>,
    pub suggestions: Vec<FixSuggestion>,
    pub auto_fixable: bool,
}

/// Two fix actions of the same kind with the same contents.
pub open spec fn same_fix(a: FixAction, b: FixAction) -> bool {
    match (a, b) {
        (FixAction::RunCommand { command: c1, args: a1 }, FixAction::RunCommand { command: c2, args: a2 }) => c1
            == c2 && a1@ == a2@,
        (FixAction::RetryStep { step_id: x }, FixAction::RetryStep { step_id: y }) => x == y,
        (FixAction::InstallEnv { env_id: x }, FixAction::InstallEnv { env_id: y }) => x == y,
        (FixAction::OpenUrl { url: x }, FixAction::OpenUrl { url: y }) => x == y,
        _ => false,
    }
}

/// Two suggestions with the same contents.
pub open spec fn same_suggestion(a: FixSuggestion, b: FixSuggestion) -> bool {
    &&& a.title == b.title
    &&& a.description == b.description
    &&& match (a.action, b.action) {
        (Some(x), Some(y)) => same_fix(x, y),
        (None, None) => true,
        _ => false,
    }
}

/// Two lists of suggestions with the same contents, in the same order.
pub open spec fn same_suggestions(a: Seq<FixSuggestion>, b: Seq<FixSuggestion>) -> bool {
    &&& a.len() == b.len()
    &&& forall|i: int| 0 <= i < a.len() ==> same_suggestion(#[trigger] a[i], b[i])
}

/// Two rules with the same contents.
pub open spec fn same_rule(a: ErrorRule, b: ErrorRule) -> bool {
    &&& a.id == b.id
    &&& a.pattern == b.pattern
    &&& a.description == b.description
    &&& a.category == b.category
    &&& same_suggestions(a.suggestions@, b.suggestions@)
}

impl Clone for FixAction {
    fn clone(&self) -> (r: Self)
        ensures
            same_fix(r, *self),
    {
        match self {
            FixAction::RunCommand { command, args } => FixAction::RunCommand {
                command: command.clone(),
                args: clone_strings(args),
            },
            FixAction::RetryStep { step_id } => FixAction::RetryStep { step_id: step_id.clone() },
            FixAction::InstallEnv { env_id } => FixAction::InstallEnv { env_id: env_id.clone() },
            FixAction::OpenUrl { url } => FixAction::OpenUrl { url: url.clone() },
        }
    }
}

impl Clone for FixSuggestion {
    fn clone(&self) -> (r: Self)
        ensures
            same_suggestion(r, *self),
    {
        FixSuggestion {
            title: self.title.clone(),
            description: self.description.clone(),
            action: match &self.action {
                Some(a) => Some(a.clone()),
                None => None,
            },
        }
    }
}

/// A copy of each suggestion.
pub fn clone_suggestions(v: &Vec<FixSuggestion>) -> (r: Vec<FixSuggestion>)
    ensures
        same_suggestions(r@, v@),
{
    let mut r: Vec<FixSuggestion> = Vec::new();
    let mut i: usize = 0;
    while i < v.len()
        invariant
            i <= v.len(),
            r@.len() == i,
            forall|k: int| 0 <= k < i ==> same_suggestion(#[trigger] r@[k], v@[k]),
        decreases v.len() - i,
    {
        r.push(v[i].clone());
        i = i + 1;
    }
    r
}

impl Clone for ErrorRule {
    fn clone(&self) -> (r: Self)
        ensures
            same_rule(r, *self),
    {
        ErrorRule {
            id: self.id.clone(),
            pattern: self.pattern.clone(),
            description: self.description.clone(),
            category: self.category,
            suggestions: clone_suggestions(&self.suggestions),
        }
    }
}

} // verus!
