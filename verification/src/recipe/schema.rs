//! The recipe document: metadata, environment requirements, variables and
//! the steps of a deployment, with the checks a recipe must pass.
use vstd::prelude::*;

use crate::text::{clone_opt_string, clone_strings, str_eq, views};
use crate::task::engine::clone_pairs;

verus! {

/// Top-level recipe document.
#[derive(Debug)]
pub struct Recipe {
    /// Format version, currently "1".
    pub version: String,
    pub id: String,
    pub name: String,
    pub description: Option<String>,
    pub author: Option<String>,
    pub tags: Vec<String>,
    /// Target platforms: ["macos", "windows", "linux"] or ["*"].
    pub platforms: Vec<String>,
    /// Environment prerequisites.
    pub env_requirements: Vec<EnvRequirement>,
    /// Step definitions.
    pub steps: Vec<RecipeStep>,
    /// Recipe-level variables, as (name, value) pairs.
    pub vars: Vec<(String, String)>,
    pub metadata: RecipeMetadata,
}

/// An environment prerequisite of a recipe.
#[derive(Debug)]
pub struct EnvRequirement {
    pub env_id: String,
    /// Semver constraint, e.g. ">=18.0.0".
    pub version: Option<String>,
    pub optional: bool,
}

/// One step of a recipe.
#[derive(Debug)]
pub struct RecipeStep {
    pub id: String,
    pub name: String,
    pub description: Option<String>,
    pub action: RecipeStepAction,
    pub depends_on: Vec<String>,
    /// Simple variable-expansion condition string (not evaluated).
    pub condition: Option<String>,
    pub retry: Option<RetryConfig>,
    pub timeout_secs: Option<u64>,
    pub on_error: OnErrorStrategy,
}

/// The action a step performs.
#[derive(Debug)]
pub enum RecipeStepAction {
    Shell { command: String, args: Vec<String>, env: Vec<(String, String)> },
    PackageInstall { manager: String, packages: Vec<String> },
    EnvCheck { env_id: String },
    Download { url: String, dest: String },
    Extract { src: String, dest: String },
}

/// What happens when a step fails.
#[derive(PartialEq, Eq, Structural, Clone, Copy, Debug)]
pub enum OnErrorStrategy {
    Fail,
    Skip,
    Retry,
}

impl Default for OnErrorStrategy {
    fn default() -> (r: Self)
        ensures
            r == OnErrorStrategy::Fail,
    {
        OnErrorStrategy::Fail
    }
}

/// Retry settings of a step.
#[derive(Clone, Copy, Debug)]
pub struct RetryConfig {
    pub max_attempts: u8,
    pub delay_secs: u64,
    pub backoff: BackoffStrategy,
}

/// How the delay between retries grows.
#[derive(PartialEq, Eq, Structural, Clone, Copy, Debug)]
pub enum BackoffStrategy {
    Fixed,
    Exponential,
}

impl Default for BackoffStrategy {
    fn default() -> (r: Self)
        ensures
            r == BackoffStrategy::Fixed,
    {
        BackoffStrategy::Fixed
    }
}

/// Provenance data of a recipe.
#[derive(Debug)]
pub struct RecipeMetadata {
    pub created_at: Option<String>,
    pub source_url: Option<String>,
    pub checksum: Option<String>,
}

impl Default for RecipeMetadata {
    fn default() -> (r: Self)
        ensures
            r.created_at.is_none(),
            r.source_url.is_none(),
            r.checksum.is_none(),
    {
        RecipeMetadata { created_at: None, source_url: None, checksum: None }
    }
}

/// A single validation issue found during recipe validation.
#[derive(Debug)]
pub struct ValidationIssue {
    pub field: String,
    pub message: String,
    pub severity: ValidationSeverity,
}

/// How serious a validation issue is.
#[derive(PartialEq, Eq, Structural, Clone, Copy, Debug)]
pub enum ValidationSeverity {
    Error,
    Warning,
}


/// A validation issue as plain values: (field, message, severity).
pub open spec fn issue_view(i: ValidationIssue) -> (Seq<char>, Seq<char>, ValidationSeverity) {
    (i.field@, i.message@, i.severity)
}

/// The ids of a list of steps, in order.
pub open spec fn ids_of(steps: Seq<RecipeStep>) -> Seq<Seq<char>> {
    steps.map_values(|s: RecipeStep| s.id@)
}

/// Issues about the recipe's own fields: the version must be "1", the id
/// and name must not be empty, and a recipe without steps draws a warning.
pub open spec fn header_issues(r: Recipe) -> Seq<(Seq<char>, Seq<char>, ValidationSeverity)> {
    (if r.version@ != "1"@ {
        seq![
            (
                "version"@,
                "Unsupported recipe version '"@ + r.version@ + "'; expected '1'"@,
                ValidationSeverity::Error,
            ),
        ]
    } else {
        Seq::empty()
    }) + (if r.id@.len() == 0 {
        seq![("id"@, "Recipe id must not be empty"@, ValidationSeverity::Error)]
    } else {
        Seq::empty()
    }) + (if r.name@.len() == 0 {
        seq![("name"@, "Recipe name must not be empty"@, ValidationSeverity::Error)]
    } else {
        Seq::empty()
    }) + (if r.steps@.len() == 0 {
        seq![("steps"@, "Recipe must contain at least one step"@, ValidationSeverity::Warning)]
    } else {
        Seq::empty()
    })
}

/// One issue for each step whose id an earlier step already has.
pub open spec fn duplicate_issues(steps: Seq<RecipeStep>) -> Seq<
    (Seq<char>, Seq<char>, ValidationSeverity),
>
    decreases steps.len(),
{
    if steps.len() == 0 {
        Seq::empty()
    } else {
        let s = steps.last();
        duplicate_issues(steps.drop_last()) + if ids_of(steps.drop_last()).contains(s.id@) {
            seq![
                (
                    "steps["@ + s.id@ + "].id"@,
                    "Duplicate step id '"@ + s.id@ + "'"@,
                    ValidationSeverity::Error,
                ),
            ]
        } else {
            Seq::empty()
        }
    }
}

/// One issue for each dependency of `step` that names no step in `ids`.
pub open spec fn unknown_dependency_issues(step: RecipeStep, deps: Seq<Seq<char>>, ids: Seq<Seq<char>>) -> Seq<
    (Seq<char>, Seq<char>, ValidationSeverity),
>
    decreases deps.len(),
{
    if deps.len() == 0 {
        Seq::empty()
    } else {
        let d = deps.last();
        unknown_dependency_issues(step, deps.drop_last(), ids) + if ids.contains(d) {
            Seq::empty()
        } else {
            seq![
                (
                    "steps["@ + step.id@ + "].dependsOn"@,
                    "Step '"@ + step.id@ + "' depends on unknown step '"@ + d + "'"@,
                    ValidationSeverity::Error,
                ),
            ]
        }
    }
}

/// The unknown-dependency issues of every step, step by step.
pub open spec fn dependency_issues(steps: Seq<RecipeStep>, ids: Seq<Seq<char>>) -> Seq<
    (Seq<char>, Seq<char>, ValidationSeverity),
>
    decreases steps.len(),
{
    if steps.len() == 0 {
        Seq::empty()
    } else {
        let s = steps.last();
        dependency_issues(steps.drop_last(), ids) + unknown_dependency_issues(
            s,
            views(s.depends_on@),
            ids,
        )
    }
}

/// The issues of one step's settings: download and extract actions are not
/// supported yet, and a retry must allow at least one attempt.
pub open spec fn step_setting_issues(s: RecipeStep) -> Seq<(Seq<char>, Seq<char>, ValidationSeverity)> {
    (match s.action {
        RecipeStepAction::Download { .. } => seq![
            (
                "steps["@ + s.id@ + "].action"@,
                "download steps are not supported yet"@,
                ValidationSeverity::Error,
            ),
        ],
        RecipeStepAction::Extract { .. } => seq![
            (
                "steps["@ + s.id@ + "].action"@,
                "extract steps are not supported yet"@,
                ValidationSeverity::Error,
            ),
        ],
        _ => Seq::empty(),
    }) + (match s.retry {
        Some(rc) => if rc.max_attempts == 0 {
            seq![
                (
                    "steps["@ + s.id@ + "].retry.maxAttempts"@,
                    "retry.max_attempts must be >= 1"@,
                    ValidationSeverity::Error,
                ),
            ]
        } else {
            Seq::empty()
        },
        None => Seq::empty(),
    })
}

/// The setting issues of every step, step by step.
pub open spec fn setting_issues(steps: Seq<RecipeStep>) -> Seq<
    (Seq<char>, Seq<char>, ValidationSeverity),
>
    decreases steps.len(),
{
    if steps.len() == 0 {
        Seq::empty()
    } else {
        setting_issues(steps.drop_last()) + step_setting_issues(steps.last())
    }
}

/// Every issue of a recipe, in the order validation reports them.
pub open spec fn recipe_issues(r: Recipe) -> Seq<(Seq<char>, Seq<char>, ValidationSeverity)> {
    header_issues(r) + duplicate_issues(r.steps@) + dependency_issues(r.steps@, ids_of(r.steps@))
        + setting_issues(r.steps@)
}

fn issue(field: String, message: String, severity: ValidationSeverity) -> (r: ValidationIssue)
    ensures
        issue_view(r) == (field@, message@, severity),
{
    ValidationIssue { field, message, severity }
}

/// Whether one of the first `n` steps has the id `id`.
fn id_among(steps: &Vec<RecipeStep>, n: usize, id: &str) -> (r: bool)
    requires
        n <= steps@.len(),
    ensures
        r == ids_of(steps@.subrange(0, n as int)).contains(id@),
{
    let mut k: usize = 0;
    while k < n
        invariant
            k <= n,
            n <= steps@.len(),
            forall|m: int| 0 <= m < k ==> steps@[m].id@ != id@,
        decreases n - k,
    {
        if str_eq(steps[k].id.as_str(), id) {
            assert(ids_of(steps@.subrange(0, n as int))[k as int] == id@);
            return true;
        }
        k = k + 1;
    }
    proof {
        if ids_of(steps@.subrange(0, n as int)).contains(id@) {
            let m = choose|m: int|
                0 <= m < ids_of(steps@.subrange(0, n as int)).len() && ids_of(
                    steps@.subrange(0, n as int),
                )[m] == id@;
            assert(steps@[m].id@ == id@);
        }
    }
    false
}

proof fn steps_prefix_lemma(steps: Seq<RecipeStep>, i: int)
    requires
        0 <= i < steps.len(),
    ensures
        steps.subrange(0, i + 1).drop_last() == steps.subrange(0, i),
        steps.subrange(0, i + 1).last() == steps[i],
{
    assert(steps.subrange(0, i + 1).drop_last() =~= steps.subrange(0, i));
}

impl Recipe {
    /// Validate the recipe and return every issue found: first those of the
    /// recipe's own fields, then duplicate step ids, then dependencies on
    /// unknown steps, then unsupported actions and retry settings.
    pub fn validate(&self) -> (r: Vec<ValidationIssue>)
        ensures
            r@.map_values(|i: ValidationIssue| issue_view(i)) == recipe_issues(*self),
    {
        let mut issues: Vec<ValidationIssue> = Vec::new();
        if !str_eq(self.version.as_str(), "1") {
            issues.push(
                issue(
                    "version".to_owned(),
                    "Unsupported recipe version '".to_owned().concat(self.version.as_str()).concat(
                        "'; expected '1'",
                    ),
                    ValidationSeverity::Error,
                ),
            );
        }
        if self.id.as_str().is_empty() {
            issues.push(
                issue(
                    "id".to_owned(),
                    "Recipe id must not be empty".to_owned(),
                    ValidationSeverity::Error,
                ),
            );
        }
        if self.name.as_str().is_empty() {
            issues.push(
                issue(
                    "name".to_owned(),
                    "Recipe name must not be empty".to_owned(),
                    ValidationSeverity::Error,
                ),
            );
        }
        if self.steps.len() == 0 {
            issues.push(
                issue(
                    "steps".to_owned(),
                    "Recipe must contain at least one step".to_owned(),
                    ValidationSeverity::Warning,
                ),
            );
        }
        assert(issues@.map_values(|i: ValidationIssue| issue_view(i)) =~= header_issues(*self));
        let ghost base = header_issues(*self);
        // Duplicate step ids.
        let mut i: usize = 0;
        while i < self.steps.len()
            invariant
                i <= self.steps@.len(),
                base == header_issues(*self),
                issues@.map_values(|i: ValidationIssue| issue_view(i)) == base + duplicate_issues(
                    self.steps@.subrange(0, i as int),
                ),
            decreases self.steps@.len() - i,
        {
            let step = &self.steps[i];
            let ghost before = issues@.map_values(|i: ValidationIssue| issue_view(i));
            proof { steps_prefix_lemma(self.steps@, i as int); }
            if id_among(&self.steps, i, step.id.as_str()) {
                issues.push(
                    issue(
                        "steps[".to_owned().concat(step.id.as_str()).concat("].id"),
                        "Duplicate step id '".to_owned().concat(step.id.as_str()).concat("'"),
                        ValidationSeverity::Error,
                    ),
                );
                assert(issues@.map_values(|i: ValidationIssue| issue_view(i)) =~= before.push(
                    issue_view(issues@.last()),
                ));
            }
            i = i + 1;
            assert(issues@.map_values(|i: ValidationIssue| issue_view(i)) =~= base
                + duplicate_issues(self.steps@.subrange(0, i as int)));
        }
        assert(self.steps@.subrange(0, self.steps@.len() as int) =~= self.steps@);
        let ghost base2 = base + duplicate_issues(self.steps@);
        let ghost ids = ids_of(self.steps@);
        // Dependencies on unknown steps.
        let mut i: usize = 0;
        while i < self.steps.len()
            invariant
                i <= self.steps@.len(),
                ids == ids_of(self.steps@),
                issues@.map_values(|i: ValidationIssue| issue_view(i)) == base2 + dependency_issues(
                    self.steps@.subrange(0, i as int),
                    ids,
                ),
            decreases self.steps@.len() - i,
        {
            let step = &self.steps[i];
            let ghost deps = views(step.depends_on@);
            let ghost start = issues@.map_values(|i: ValidationIssue| issue_view(i));
            let mut j: usize = 0;
            while j < step.depends_on.len()
                invariant
                    j <= step.depends_on@.len(),
                    deps == views(step.depends_on@),
                    ids == ids_of(self.steps@),
                    i < self.steps@.len(),
                    *step == self.steps@[i as int],
                    issues@.map_values(|i: ValidationIssue| issue_view(i)) == start
                        + unknown_dependency_issues(*step, deps.subrange(0, j as int), ids),
                decreases step.depends_on@.len() - j,
            {
                let dep = &step.depends_on[j];
                let ghost before = issues@.map_values(|i: ValidationIssue| issue_view(i));
                assert(deps.subrange(0, j + 1).drop_last() =~= deps.subrange(0, j as int));
                assert(deps.subrange(0, j + 1).last() == dep@);
                if !id_among(&self.steps, self.steps.len(), dep.as_str()) {
                    issues.push(
                        issue(
                            "steps[".to_owned().concat(step.id.as_str()).concat("].dependsOn"),
                            "Step '".to_owned().concat(step.id.as_str()).concat(
                                "' depends on unknown step '",
                            ).concat(dep.as_str()).concat("'"),
                            ValidationSeverity::Error,
                        ),
                    );
                    assert(issues@.map_values(|i: ValidationIssue| issue_view(i)) =~= before.push(
                        issue_view(issues@.last()),
                    ));
                }
                assert(self.steps@.subrange(0, self.steps@.len() as int) =~= self.steps@);
                j = j + 1;
                assert(issues@.map_values(|i: ValidationIssue| issue_view(i)) =~= start
                    + unknown_dependency_issues(*step, deps.subrange(0, j as int), ids));
            }
            assert(deps.subrange(0, deps.len() as int) =~= deps);
            proof { steps_prefix_lemma(self.steps@, i as int); }
            i = i + 1;
            assert(issues@.map_values(|i: ValidationIssue| issue_view(i)) =~= base2
                + dependency_issues(self.steps@.subrange(0, i as int), ids));
        }
        let ghost base3 = base2 + dependency_issues(self.steps@, ids);
        // Unsupported actions and retry settings.
        let mut i: usize = 0;
        while i < self.steps.len()
            invariant
                i <= self.steps@.len(),
                issues@.map_values(|i: ValidationIssue| issue_view(i)) == base3 + setting_issues(
                    self.steps@.subrange(0, i as int),
                ),
            decreases self.steps@.len() - i,
        {
            let step = &self.steps[i];
            let ghost before = issues@.map_values(|i: ValidationIssue| issue_view(i));
            match &step.action {
                RecipeStepAction::Download { .. } => {
                    issues.push(
                        issue(
                            "steps[".to_owned().concat(step.id.as_str()).concat("].action"),
                            "download steps are not supported yet".to_owned(),
                            ValidationSeverity::Error,
                        ),
                    );
                },
                RecipeStepAction::Extract { .. } => {
                    issues.push(
                        issue(
                            "steps[".to_owned().concat(step.id.as_str()).concat("].action"),
                            "extract steps are not supported yet".to_owned(),
                            ValidationSeverity::Error,
                        ),
                    );
                },
                _ => {},
            }
            let ghost mid = issues@.map_values(|i: ValidationIssue| issue_view(i));
            match &step.retry {
                Some(rc) => {
                    if rc.max_attempts == 0 {
                        issues.push(
                            issue(
                                "steps[".to_owned().concat(step.id.as_str()).concat(
                                    "].retry.maxAttempts",
                                ),
                                "retry.max_attempts must be >= 1".to_owned(),
                                ValidationSeverity::Error,
                            ),
                        );
                    }
                },
                None => {},
            }
            assert(mid =~= before + match step.action {
                RecipeStepAction::Download { .. } => seq![
                    (
                        "steps["@ + step.id@ + "].action"@,
                        "download steps are not supported yet"@,
                        ValidationSeverity::Error,
                    ),
                ],
                RecipeStepAction::Extract { .. } => seq![
                    (
                        "steps["@ + step.id@ + "].action"@,
                        "extract steps are not supported yet"@,
                        ValidationSeverity::Error,
                    ),
                ],
                _ => Seq::empty(),
            });
            assert(issues@.map_values(|i: ValidationIssue| issue_view(i)) =~= before
                + step_setting_issues(*step));
            proof { steps_prefix_lemma(self.steps@, i as int); }
            i = i + 1;
            assert(issues@.map_values(|i: ValidationIssue| issue_view(i)) =~= base3
                + setting_issues(self.steps@.subrange(0, i as int)));
        }
        issues
    }
}


/// Two actions of the same kind with the same contents.
pub open spec fn same_action(a: RecipeStepAction, b: RecipeStepAction) -> bool {
    match (a, b) {
        (
            RecipeStepAction::Shell { command: c1, args: a1, env: e1 },
            RecipeStepAction::Shell { command: c2, args: a2, env: e2 },
        ) => c1 == c2 && a1@ == a2@ && e1@ == e2@,
        (
            RecipeStepAction::PackageInstall { manager: m1, packages: p1 },
            RecipeStepAction::PackageInstall { manager: m2, packages: p2 },
        ) => m1 == m2 && p1@ == p2@,
        (RecipeStepAction::EnvCheck { env_id: x }, RecipeStepAction::EnvCheck { env_id: y }) => x
            == y,
        (
            RecipeStepAction::Download { url: u1, dest: d1 },
            RecipeStepAction::Download { url: u2, dest: d2 },
        ) => u1 == u2 && d1 == d2,
        (
            RecipeStepAction::Extract { src: s1, dest: d1 },
            RecipeStepAction::Extract { src: s2, dest: d2 },
        ) => s1 == s2 && d1 == d2,
        _ => false,
    }
}

/// Two steps with the same contents.
pub open spec fn same_step(a: RecipeStep, b: RecipeStep) -> bool {
    &&& a.id == b.id
    &&& a.name == b.name
    &&& a.description == b.description
    &&& same_action(a.action, b.action)
    &&& a.depends_on@ == b.depends_on@
    &&& a.condition == b.condition
    &&& a.retry == b.retry
    &&& a.timeout_secs == b.timeout_secs
    &&& a.on_error == b.on_error
}

/// Two recipes with the same contents.
pub open spec fn same_recipe(a: Recipe, b: Recipe) -> bool {
    &&& a.version == b.version
    &&& a.id == b.id
    &&& a.name == b.name
    &&& a.description == b.description
    &&& a.author == b.author
    &&& a.tags@ == b.tags@
    &&& a.platforms@ == b.platforms@
    &&& a.env_requirements@ == b.env_requirements@
    &&& a.steps@.len() == b.steps@.len()
    &&& forall|i: int| 0 <= i < a.steps@.len() ==> same_step(#[trigger] a.steps@[i], b.steps@[i])
    &&& a.vars@ == b.vars@
    &&& a.metadata == b.metadata
}

impl Clone for EnvRequirement {
    fn clone(&self) -> (r: Self)
        ensures
            r == *self,
    {
        EnvRequirement {
            env_id: self.env_id.clone(),
            version: clone_opt_string(&self.version),
            optional: self.optional,
        }
    }
}

impl Clone for RecipeMetadata {
    fn clone(&self) -> (r: Self)
        ensures
            r == *self,
    {
        RecipeMetadata {
            created_at: clone_opt_string(&self.created_at),
            source_url: clone_opt_string(&self.source_url),
            checksum: clone_opt_string(&self.checksum),
        }
    }
}

impl Clone for RecipeStepAction {
    fn clone(&self) -> (r: Self)
        ensures
            same_action(r, *self),
    {
        match self {
            RecipeStepAction::Shell { command, args, env } => RecipeStepAction::Shell {
                command: command.clone(),
                args: clone_strings(args),
                env: clone_pairs(env),
            },
            RecipeStepAction::PackageInstall { manager, packages } => RecipeStepAction::PackageInstall {
                manager: manager.clone(),
                packages: clone_strings(packages),
            },
            RecipeStepAction::EnvCheck { env_id } => RecipeStepAction::EnvCheck {
                env_id: env_id.clone(),
            },
            RecipeStepAction::Download { url, dest } => RecipeStepAction::Download {
                url: url.clone(),
                dest: dest.clone(),
            },
            RecipeStepAction::Extract { src, dest } => RecipeStepAction::Extract {
                src: src.clone(),
                dest: dest.clone(),
            },
        }
    }
}

impl Clone for RecipeStep {
    fn clone(&self) -> (r: Self)
        ensures
            same_step(r, *self),
    {
        RecipeStep {
            id: self.id.clone(),
            name: self.name.clone(),
            description: clone_opt_string(&self.description),
            action: self.action.clone(),
            depends_on: clone_strings(&self.depends_on),
            condition: clone_opt_string(&self.condition),
            retry: self.retry,
            timeout_secs: self.timeout_secs,
            on_error: self.on_error,
        }
    }
}

fn clone_requirements(v: &Vec<EnvRequirement>) -> (r: Vec<EnvRequirement>)
    ensures
        r@ == v@,
{
    let mut r: Vec<EnvRequirement> = Vec::new();
    let mut i: usize = 0;
    while i < v.len()
        invariant
            i <= v.len(),
            r@ == v@.subrange(0, i as int),
        decreases v.len() - i,
    {
        r.push(v[i].clone());
        i = i + 1;
        assert(r@ =~= v@.subrange(0, i as int));
    }
    assert(r@ =~= v@);
    r
}

fn clone_steps(v: &Vec<RecipeStep>) -> (r: Vec<RecipeStep>)
    ensures
        r@.len() == v@.len(),
        forall|i: int| 0 <= i < v@.len() ==> same_step(#[trigger] r@[i], v@[i]),
{
    let mut r: Vec<RecipeStep> = Vec::new();
    let mut i: usize = 0;
    while i < v.len()
        invariant
            i <= v.len(),
            r@.len() == i,
            forall|k: int| 0 <= k < i ==> same_step(#[trigger] r@[k], v@[k]),
        decreases v.len() - i,
    {
        r.push(v[i].clone());
        i = i + 1;
    }
    r
}

impl Clone for Recipe {
    fn clone(&self) -> (r: Self)
        ensures
            same_recipe(r, *self),
    {
        Recipe {
            version: self.version.clone(),
            id: self.id.clone(),
            name: self.name.clone(),
            description: clone_opt_string(&self.description),
            author: clone_opt_string(&self.author),
            tags: clone_strings(&self.tags),
            platforms: clone_strings(&self.platforms),
            env_requirements: clone_requirements(&self.env_requirements),
            steps: clone_steps(&self.steps),
            vars: clone_pairs(&self.vars),
            metadata: self.metadata.clone(),
        }
    }
}

} // verus!
