//! Acceptance of a parsed recipe: a recipe with validation errors is
//! refused, with every error in the message.
use vstd::prelude::*;

use crate::error::AppError;
use crate::recipe::schema::{
    dependency_issues, duplicate_issues, header_issues, ids_of, issue_view, recipe_issues,
    setting_issues, unknown_dependency_issues, BackoffStrategy,
    Recipe,
    RecipeStep, RecipeStepAction, ValidationIssue, ValidationSeverity,
};
use crate::recipe::vars::{substitute, substituted};
use crate::task::engine::{clone_pairs, Progress, Task, TaskStatus};
use crate::task::graph::{
    cycle_message, dependency_edges, first_missing, first_unknown_dependency, is_acyclic, is_graph_error,
    step_ids, unknown_dependency_message, TaskGraph,
};
use crate::task::step::{StepAction, StepStatus, TaskStep};
use crate::text::{clone_opt_string, clone_strings, views};

verus! {

/// The lines `field: message` of the error-severity issues, in order.
pub open spec fn error_lines(issues: Seq<(Seq<char>, Seq<char>, ValidationSeverity)>) -> Seq<Seq<char>>
    decreases issues.len(),
{
    if issues.len() == 0 {
        Seq::empty()
    } else {
        let last = issues.last();
        error_lines(issues.drop_last()) + if last.2 == ValidationSeverity::Error {
            seq![last.0 + ": "@ + last.1]
        } else {
            Seq::empty()
        }
    }
}

/// Lines joined with a newline between each two.
pub open spec fn join_lines(lines: Seq<Seq<char>>) -> Seq<char>
    decreases lines.len(),
{
    if lines.len() == 0 {
        Seq::empty()
    } else if lines.len() == 1 {
        lines[0]
    } else {
        join_lines(lines.drop_last()) + "\n"@ + lines.last()
    }
}

/// Accept a parsed recipe unless validation finds errors (warnings do not
/// count); then refuse it with a `RecipeParseError` for `path` whose message
/// lists each error as `field: message`, one per line.
pub fn validate_parsed_recipe(recipe: Recipe, path: &str) -> (r: Result<Recipe, AppError>)
    ensures
        ({
            let lines = error_lines(recipe_issues(recipe));
            if lines.len() == 0 {
                r == Ok::<Recipe, AppError>(recipe)
            } else {
                r matches Err(AppError::RecipeParseError { path: p, message }) && p@ == path@
                    && message@ == join_lines(lines)
            }
        }),
{
    let issues = recipe.validate();
    let ghost all = issues@.map_values(|i: ValidationIssue| issue_view(i));
    let mut message = String::new();
    let mut count: usize = 0;
    let mut i: usize = 0;
    while i < issues.len()
        invariant
            i <= issues@.len(),
            all == issues@.map_values(|i: ValidationIssue| issue_view(i)),
            count == error_lines(all.subrange(0, i as int)).len(),
            message@ == join_lines(error_lines(all.subrange(0, i as int))),
            count <= i,
        decreases issues@.len() - i,
    {
        let it = &issues[i];
        let ghost pre = all.subrange(0, i as int);
        assert(all.subrange(0, i + 1).drop_last() =~= pre);
        assert(all.subrange(0, i + 1).last() == issue_view(*it));
        if it.severity == ValidationSeverity::Error {
            let line = it.field.clone().concat(": ").concat(it.message.as_str());
            if count == 0 {
                message = line;
            } else {
                message = message.concat("\n").concat(line.as_str());
            }
            count = count + 1;
            assert(error_lines(all.subrange(0, i + 1)) == error_lines(pre).push(line@));
            assert(error_lines(pre).push(line@).drop_last() =~= error_lines(pre));
            assert(error_lines(pre).push(line@).last() == line@);
        }
        i = i + 1;
    }
    assert(all.subrange(0, issues@.len() as int) =~= all);
    if count == 0 {
        Ok(recipe)
    } else {
        Err(AppError::RecipeParseError { path: path.to_owned(), message })
    }
}

proof fn lemma_missing_dependency(step: RecipeStep, deps: Seq<Seq<char>>, ids: Seq<Seq<char>>)
    ensures
        (unknown_dependency_issues(step, deps, ids).len() == 0) == (first_missing(deps, ids) is None),
    decreases deps.len(),
{
    if deps.len() > 0 {
        lemma_missing_dependency(step, deps.drop_last(), ids);
    }
}

proof fn lemma_unknown_dependency(steps: Seq<RecipeStep>, ids: Seq<Seq<char>>)
    ensures
        (dependency_issues(steps, ids).len() == 0) == (first_unknown_dependency(steps, ids) is None),
    decreases steps.len(),
{
    if steps.len() > 0 {
        lemma_unknown_dependency(steps.drop_last(), ids);
        lemma_missing_dependency(steps.last(), views(steps.last().depends_on@), ids);
    }
}

/// Validation foresees the dependency errors of the graph: a recipe draws
/// no unknown-dependency issue exactly when building its step graph finds
/// no dependency that names no step.
pub proof fn law_validation_foresees_unknown_dependencies(r: Recipe)
    ensures
        (dependency_issues(r.steps@, ids_of(r.steps@)).len() == 0) == (first_unknown_dependency(
            r.steps@,
            step_ids(r.steps@),
        ) is None),
{
    assert(ids_of(r.steps@) =~= step_ids(r.steps@));
    lemma_unknown_dependency(r.steps@, step_ids(r.steps@));
}

proof fn lemma_ids_push(steps: Seq<RecipeStep>)
    requires
        steps.len() > 0,
    ensures
        ids_of(steps) == ids_of(steps.drop_last()).push(steps.last().id@),
{
    assert(ids_of(steps) =~= ids_of(steps.drop_last()).push(steps.last().id@));
}

proof fn lemma_duplicates(steps: Seq<RecipeStep>)
    ensures
        (duplicate_issues(steps).len() == 0) == ids_of(steps).no_duplicates(),
        forall|k: int|
            0 <= k < duplicate_issues(steps).len() ==> (#[trigger] duplicate_issues(steps)[k]).2
                == ValidationSeverity::Error,
    decreases steps.len(),
{
    if steps.len() > 0 {
        let pre = steps.drop_last();
        let last = steps.last();
        lemma_duplicates(pre);
        lemma_ids_push(steps);
        let ids = ids_of(steps);
        let p = ids_of(pre);
        if ids.no_duplicates() {
            if p.contains(last.id@) {
                let j = choose|j: int| 0 <= j < p.len() && p[j] == last.id@;
                assert(ids[j] == ids[ids.len() - 1]);
            }
            assert forall|a: int, b: int| 0 <= a < p.len() && 0 <= b < p.len() && a != b implies p[a] != p[b] by {
                assert(ids[a] == p[a] && ids[b] == p[b]);
            }
        } else {
            if p.no_duplicates() && !p.contains(last.id@) {
                assert forall|a: int, b: int| 0 <= a < ids.len() && 0 <= b < ids.len() && a != b implies ids[a] != ids[b] by {
                    if a < p.len() && b < p.len() {
                        assert(ids[a] == p[a] && ids[b] == p[b]);
                    } else if a == p.len() {
                        assert(ids[b] == p[b]);
                    } else {
                        assert(ids[a] == p[a]);
                    }
                }
            }
        }
        let d = duplicate_issues(steps);
        assert forall|k: int| 0 <= k < d.len() implies (#[trigger] d[k]).2 == ValidationSeverity::Error by {
            if k < duplicate_issues(pre).len() {
                assert(d[k] == duplicate_issues(pre)[k]);
            }
        }
    }
}

proof fn lemma_error_lines_concat(a: Seq<(Seq<char>, Seq<char>, ValidationSeverity)>, b: Seq<(Seq<char>, Seq<char>, ValidationSeverity)>)
    ensures
        error_lines(a + b) == error_lines(a) + error_lines(b),
    decreases b.len(),
{
    if b.len() == 0 {
        assert(a + b =~= a);
        assert(error_lines(a) + error_lines(b) =~= error_lines(a));
    } else {
        assert((a + b).drop_last() =~= a + b.drop_last());
        assert((a + b).last() == b.last());
        lemma_error_lines_concat(a, b.drop_last());
        assert(error_lines(a + b) =~= error_lines(a) + error_lines(b));
    }
}

proof fn lemma_error_lines_nonempty(a: Seq<(Seq<char>, Seq<char>, ValidationSeverity)>, k: int)
    requires
        0 <= k < a.len(),
        a[k].2 == ValidationSeverity::Error,
    ensures
        error_lines(a).len() > 0,
    decreases a.len(),
{
    if k < a.len() - 1 {
        assert(a.drop_last()[k] == a[k]);
        lemma_error_lines_nonempty(a.drop_last(), k);
    }
}

/// Validation catches duplicate step ids: it reports a duplicate id, as an
/// error, exactly when two steps share an id, so a parsed recipe with such
/// steps is refused; and every step whose id an earlier step has draws the
/// issue `steps[<id>].id`, "Duplicate step id '<id>'".
pub proof fn law_duplicate_ids_are_refused(r: Recipe, j: int)
    ensures
        (duplicate_issues(r.steps@).len() == 0) == ids_of(r.steps@).no_duplicates(),
        !ids_of(r.steps@).no_duplicates() ==> error_lines(recipe_issues(r)).len() > 0,
        0 <= j < r.steps@.len() && ids_of(r.steps@.subrange(0, j)).contains(r.steps@[j].id@) ==> duplicate_issues(
            r.steps@,
        ).contains(
            (
                "steps["@ + r.steps@[j].id@ + "].id"@,
                "Duplicate step id '"@ + r.steps@[j].id@ + "'"@,
                ValidationSeverity::Error,
            ),
        ),
{
    let steps = r.steps@;
    lemma_duplicates(steps);
    if !ids_of(steps).no_duplicates() {
        let d = duplicate_issues(steps);
        assert(d.len() > 0);
        assert(d[0].2 == ValidationSeverity::Error);
        let h = header_issues(r);
        let rest = dependency_issues(steps, ids_of(steps)) + setting_issues(steps);
        assert(recipe_issues(r) =~= h + d + rest);
        lemma_error_lines_nonempty(d, 0);
        lemma_error_lines_concat(h + d, rest);
        lemma_error_lines_concat(h, d);
    }
    if 0 <= j < steps.len() && ids_of(steps.subrange(0, j)).contains(steps[j].id@) {
        lemma_duplicate_issue_at(steps, j);
    }
}

proof fn lemma_duplicate_issue_at(steps: Seq<RecipeStep>, j: int)
    requires
        0 <= j < steps.len(),
        ids_of(steps.subrange(0, j)).contains(steps[j].id@),
    ensures
        duplicate_issues(steps).contains(
            (
                "steps["@ + steps[j].id@ + "].id"@,
                "Duplicate step id '"@ + steps[j].id@ + "'"@,
                ValidationSeverity::Error,
            ),
        ),
    decreases steps.len(),
{
    let x = ("steps["@ + steps[j].id@ + "].id"@, "Duplicate step id '"@ + steps[j].id@ + "'"@, ValidationSeverity::Error);
    let pre = steps.drop_last();
    let d = duplicate_issues(steps);
    let dp = duplicate_issues(pre);
    if j == steps.len() - 1 {
        assert(steps.subrange(0, j) =~= pre);
        assert(d == dp + seq![x]);
        assert(d[d.len() - 1] == x);
    } else {
        assert(pre.subrange(0, j) =~= steps.subrange(0, j));
        assert(pre[j] == steps[j]);
        lemma_duplicate_issue_at(pre, j);
        let k = choose|k: int| 0 <= k < dp.len() && dp[k] == x;
        assert(d[k] == dp[k]);
    }
}

/// Each text of `texts` with its variables replaced.
pub open spec fn substituted_all(texts: Seq<String>, vars: Seq<(String, String)>) -> Seq<Seq<char>> {
    texts.map_values(|t: String| substituted(t@, vars))
}

/// Each (name, value) pair with the variables of its value replaced.
pub open spec fn substituted_env(env: Seq<(String, String)>, vars: Seq<(String, String)>) -> Seq<
    (Seq<char>, Seq<char>),
> {
    env.map_values(|p: (String, String)| (p.0@, substituted(p.1@, vars)))
}

/// The runtime action of a recipe action: a shell command gets its
/// variables replaced in the command, the arguments and the values of the
/// environment; any other action is copied.
pub open spec fn action_of(a: StepAction, r: RecipeStepAction, vars: Seq<(String, String)>) -> bool {
    match r {
        RecipeStepAction::Shell { command, args, env } => a matches StepAction::Shell {
            command: c,
            args: x,
            env: e,
        } && c@ == substituted(command@, vars) && views(x@) == substituted_all(args@, vars)
            && e@.map_values(|p: (String, String)| (p.0@, p.1@)) == substituted_env(env@, vars),
        RecipeStepAction::PackageInstall { manager, packages } => a matches StepAction::PackageInstall {
            manager: m,
            packages: p,
        } && m@ == manager@ && views(p@) == views(packages@),
        RecipeStepAction::EnvCheck { env_id } => a matches StepAction::EnvCheck { env_id: e } && e@
            == env_id@,
        RecipeStepAction::Download { url, dest } => a matches StepAction::Download { url: u, dest: d }
            && u@ == url@ && d@ == dest@,
        RecipeStepAction::Extract { src, dest } => a matches StepAction::Extract { src: x, dest: d }
            && x@ == src@ && d@ == dest@,
    }
}

/// The pending task step of a recipe step: same id, name, description and
/// dependencies, its action with variables replaced, as many retries as its
/// retry settings allow attempts (none without settings), their delay and
/// backoff (3 seconds, fixed, without settings), and its error strategy.
pub open spec fn task_step_of(t: TaskStep, s: RecipeStep, vars: Seq<(String, String)>) -> bool {
    &&& t.id@ == s.id@
    &&& t.name@ == s.name@
    &&& t.description == s.description
    &&& action_of(t.action, s.action, vars)
    &&& views(t.depends_on@) == views(s.depends_on@)
    &&& t.status is Pending
    &&& t.started_at is None
    &&& t.finished_at is None
    &&& t.exit_code is None
    &&& t.retry_count == 0
    &&& t.max_retries == match s.retry {
        Some(c) => c.max_attempts,
        None => 0u8,
    }
    &&& t.retry_delay_secs == match s.retry {
        Some(c) => c.delay_secs,
        None => 3u64,
    }
    &&& t.backoff == match s.retry {
        Some(c) => c.backoff,
        None => BackoffStrategy::Fixed,
    }
    &&& t.on_error == s.on_error
}

fn substitute_all(texts: &Vec<String>, vars: &Vec<(String, String)>) -> (r: Vec<String>)
    ensures
        views(r@) == substituted_all(texts@, vars@),
{
    let mut r: Vec<String> = Vec::new();
    let mut i: usize = 0;
    while i < texts.len()
        invariant
            i <= texts@.len(),
            views(r@) == substituted_all(texts@.subrange(0, i as int), vars@),
        decreases texts@.len() - i,
    {
        let ghost before = views(r@);
        let x = substitute(texts[i].as_str(), vars);
        r.push(x);
        assert(views(r@) =~= before.push(x@));
        assert(texts@.subrange(0, i + 1) =~= texts@.subrange(0, i as int).push(texts@[i as int]));
        i = i + 1;
        assert(views(r@) =~= substituted_all(texts@.subrange(0, i as int), vars@));
    }
    assert(texts@.subrange(0, texts@.len() as int) =~= texts@);
    r
}

fn substitute_env(env: &Vec<(String, String)>, vars: &Vec<(String, String)>) -> (r: Vec<(String, String)>)
    ensures
        r@.map_values(|p: (String, String)| (p.0@, p.1@)) == substituted_env(env@, vars@),
{
    let mut r: Vec<(String, String)> = Vec::new();
    let mut i: usize = 0;
    while i < env.len()
        invariant
            i <= env@.len(),
            r@.map_values(|p: (String, String)| (p.0@, p.1@)) == substituted_env(
                env@.subrange(0, i as int),
                vars@,
            ),
        decreases env@.len() - i,
    {
        let ghost before = r@.map_values(|p: (String, String)| (p.0@, p.1@));
        let (name, value) = &env[i];
        let x = substitute(value.as_str(), vars);
        r.push((name.clone(), x));
        assert(r@.map_values(|p: (String, String)| (p.0@, p.1@)) =~= before.push((name@, x@)));
        assert(env@.subrange(0, i + 1) =~= env@.subrange(0, i as int).push(env@[i as int]));
        i = i + 1;
        assert(r@.map_values(|p: (String, String)| (p.0@, p.1@)) =~= substituted_env(
            env@.subrange(0, i as int),
            vars@,
        ));
    }
    assert(env@.subrange(0, env@.len() as int) =~= env@);
    r
}

fn task_action(a: &RecipeStepAction, vars: &Vec<(String, String)>) -> (r: StepAction)
    ensures
        action_of(r, *a, vars@),
{
    match a {
        RecipeStepAction::Shell { command, args, env } => StepAction::Shell {
            command: substitute(command.as_str(), vars),
            args: substitute_all(args, vars),
            env: substitute_env(env, vars),
        },
        RecipeStepAction::PackageInstall { manager, packages } => StepAction::PackageInstall {
            manager: manager.clone(),
            packages: clone_strings(packages),
        },
        RecipeStepAction::EnvCheck { env_id } => StepAction::EnvCheck { env_id: env_id.clone() },
        RecipeStepAction::Download { url, dest } => StepAction::Download {
            url: url.clone(),
            dest: dest.clone(),
        },
        RecipeStepAction::Extract { src, dest } => StepAction::Extract {
            src: src.clone(),
            dest: dest.clone(),
        },
    }
}

fn task_step(s: &RecipeStep, vars: &Vec<(String, String)>) -> (r: TaskStep)
    ensures
        task_step_of(r, *s, vars@),
{
    TaskStep {
        id: s.id.clone(),
        name: s.name.clone(),
        description: clone_opt_string(&s.description),
        action: task_action(&s.action, vars),
        depends_on: clone_strings(&s.depends_on),
        status: StepStatus::Pending,
        started_at: None,
        finished_at: None,
        exit_code: None,
        retry_count: 0,
        max_retries: match s.retry {
            Some(c) => c.max_attempts,
            None => 0,
        },
        retry_delay_secs: match s.retry {
            Some(c) => c.delay_secs,
            None => 3,
        },
        backoff: match s.retry {
            Some(c) => c.backoff,
            None => BackoffStrategy::Fixed,
        },
        on_error: s.on_error,
    }
}

impl Recipe {
    /// The task that runs this recipe, with id `task_id`, created at `now`.
    /// The variables are the recipe's own, overridden by `vars`; each step
    /// becomes a pending task step with its variables replaced. It fails as
    /// building the dependency graph fails: on a dependency that names no
    /// step, or on a cycle.
    pub fn into_task(&self, vars: &Vec<(String, String)>, task_id: String, now: u64) -> (r: Result<
        Task,
        AppError,
    >)
        requires
            self.steps@.len() < u32::MAX,
            dependency_edges(self.steps@, step_ids(self.steps@)).len() < u32::MAX,
        ensures
            match first_unknown_dependency(self.steps@, step_ids(self.steps@)) {
                Some(p) => r matches Err(e) && is_graph_error(e, unknown_dependency_message(p.0, p.1)),
                None => if is_acyclic(self.steps@.len(), dependency_edges(self.steps@, step_ids(self.steps@))) {
                    r matches Ok(t) && {
                        &&& t.id == task_id
                        &&& t.name@ == self.name@
                        &&& t.recipe_id@ == self.id@
                        &&& t.status == TaskStatus::Idle
                        &&& t.created_at == now
                        &&& t.started_at is None
                        &&& t.finished_at is None
                        &&& t.progress == (Progress { done: 0, of: self.steps@.len() as usize })
                        &&& t.error_summary is None
                        &&& t.steps@.len() == self.steps@.len()
                        &&& forall|k: int|
                            0 <= k < self.steps@.len() ==> task_step_of(
                                #[trigger] t.steps@[k],
                                self.steps@[k],
                                self.vars@ + vars@,
                            )
                    }
                } else {
                    r matches Err(e) && is_graph_error(e, cycle_message())
                },
            },
    {
        match TaskGraph::build(&self.steps) {
            Err(e) => return Err(e),
            Ok(_) => {},
        }
        let mut all = clone_pairs(&self.vars);
        let mut i: usize = 0;
        while i < vars.len()
            invariant
                i <= vars@.len(),
                all@ == self.vars@ + vars@.subrange(0, i as int),
            decreases vars@.len() - i,
        {
            let (a, b) = &vars[i];
            all.push((a.clone(), b.clone()));
            i = i + 1;
            assert(all@ =~= self.vars@ + vars@.subrange(0, i as int));
        }
        assert(vars@.subrange(0, vars@.len() as int) =~= vars@);
        let mut steps: Vec<TaskStep> = Vec::new();
        let mut k: usize = 0;
        while k < self.steps.len()
            invariant
                k <= self.steps@.len(),
                all@ == self.vars@ + vars@,
                steps@.len() == k,
                forall|j: int| 0 <= j < k ==> task_step_of(#[trigger] steps@[j], self.steps@[j], all@),
            decreases self.steps@.len() - k,
        {
            steps.push(task_step(&self.steps[k], &all));
            k = k + 1;
        }
        let n = steps.len();
        Ok(
            Task {
                id: task_id,
                name: self.name.clone(),
                recipe_id: self.id.clone(),
                status: TaskStatus::Idle,
                steps,
                created_at: now,
                started_at: None,
                finished_at: None,
                progress: Progress { done: 0, of: n },
                error_summary: None,
            },
        )
    }
}

} // verus!
