//! Diagnosis of a failed step: the raw error text is matched against a
//! list of rules, each a regular expression with fix suggestions.
use vstd::prelude::*;

use crate::text::views;
use crate::error::{
    clone_suggestions, same_rule, same_suggestions, ErrorCategory, ErrorRule, FixAction,
    FixSuggestion, DiagnosticReport,
};

verus! {

/// Whether `regex::Regex::new` accepts the pattern.
pub uninterp spec fn regex_compiles(pattern: Seq<char>) -> bool;

/// Whether the expression that `regex::Regex::new` compiles from `pattern`
/// matches somewhere in the haystack (`Regex::is_match`).
pub uninterp spec fn regex_finds(pattern: Seq<char>, haystack: Seq<char>) -> bool;

/// `regex::Regex::new(pattern)`, then `Regex::is_match(text)` on what it
/// compiled: `None` when the pattern is not a valid expression (or is too
/// large to compile), else whether it matches somewhere in `text`. Both
/// results are named, not stated: the syntax and the matching are the
/// crate's. The expression is compiled with `Regex::new`'s default settings
/// only, so the match depends on the pattern and the text alone.
#[verifier::external_body]
fn regex_new_is_match(pattern: &str, text: &str) -> (r: Option<bool>)
    ensures
        r is Some <==> regex_compiles(pattern@),
        r matches Some(b) ==> b == regex_finds(pattern@, text@),
{
    match regex::Regex::new(pattern) {
        Ok(re) => Some(re.is_match(text)),
        Err(_) => None,
    }
}

/// A rule applies to the text: its pattern compiles and matches.
pub open spec fn rule_applies(rule: ErrorRule, text: Seq<char>) -> bool {
    regex_compiles(rule.pattern@) && regex_finds(rule.pattern@, text)
}

/// The index of the first rule that applies, or -1.
pub open spec fn first_applying(rules: Seq<ErrorRule>, text: Seq<char>) -> int
    decreases rules.len(),
{
    if rules.len() == 0 {
        -1
    } else if rule_applies(rules[0], text) {
        0
    } else {
        let k = first_applying(rules.drop_first(), text);
        if k < 0 {
            -1
        } else {
            k + 1
        }
    }
}

proof fn lemma_first_applying(rules: Seq<ErrorRule>, text: Seq<char>)
    ensures
        -1 <= first_applying(rules, text) < rules.len(),
        first_applying(rules, text) >= 0 ==> rule_applies(rules[first_applying(rules, text)], text),
        forall|k: int|
            0 <= k < rules.len() && (first_applying(rules, text) < 0 || k < first_applying(rules, text))
                ==> !rule_applies(#[trigger] rules[k], text),
    decreases rules.len(),
{
    if rules.len() > 0 && !rule_applies(rules[0], text) {
        lemma_first_applying(rules.drop_first(), text);
        assert forall|k: int|
            0 <= k < rules.len() && (first_applying(rules, text) < 0 || k < first_applying(rules, text))
                implies !rule_applies(#[trigger] rules[k], text) by {
            if k > 0 {
                assert(rules.drop_first()[k - 1] == rules[k]);
            }
        }
    }
}

/// Some suggestion carries an action.
pub open spec fn any_action(s: Seq<FixSuggestion>) -> bool {
    exists|i: int| 0 <= i < s.len() && (#[trigger] s[i]).action is Some
}

/// The suggestion offered when no rule gave any: retry the step.
pub open spec fn is_retry_suggestion(s: FixSuggestion, step_id: Seq<char>) -> bool {
    &&& s.title@ == "重试该步骤"@
    &&& s.description@ == "有时临时性错误在重试后即可解决。"@
    &&& s.action matches Some(FixAction::RetryStep { step_id: id }) && id@ == step_id
}

/// The rule has the given id, pattern, description and category.
pub open spec fn rule_is(
    rule: ErrorRule,
    id: Seq<char>,
    pattern: Seq<char>,
    description: Seq<char>,
    category: ErrorCategory,
) -> bool {
    &&& rule.id@ == id
    &&& rule.pattern@ == pattern
    &&& rule.description@ == description
    &&& rule.category == category
}

/// The suggestion has the given title and description.
pub open spec fn suggestion_is(s: FixSuggestion, title: Seq<char>, description: Seq<char>) -> bool {
    s.title@ == title && s.description@ == description
}

/// Matches error text against a library of rules.
pub struct ErrorDiagnosticEngine {
    rules: Vec<ErrorRule>,
}

fn suggestion(title: &str, description: &str, action: Option<FixAction>) -> (r: FixSuggestion)
    ensures
        r.title@ == title@,
        r.description@ == description@,
        r.action == action,
{
    FixSuggestion { title: title.to_owned(), description: description.to_owned(), action }
}

fn strings(items: &[&str]) -> (r: Vec<String>)
    ensures
        r@.len() == items@.len(),
        forall|k: int| 0 <= k < items@.len() ==> (#[trigger] r@[k])@ == items@[k]@,
{
    let mut r: Vec<String> = Vec::new();
    let mut i: usize = 0;
    while i < items.len()
        invariant
            i <= items@.len(),
            r@.len() == i,
            forall|k: int| 0 <= k < i ==> (#[trigger] r@[k])@ == items@[k]@,
        decreases items@.len() - i,
    {
        r.push(items[i].to_owned());
        i = i + 1;
    }
    r
}

impl ErrorDiagnosticEngine {
    /// The rules, in the order they are tried.
    pub closed spec fn rules(self) -> Seq<ErrorRule> {
        self.rules@
    }

    /// An engine with the given rules.
    pub fn new(rules: Vec<ErrorRule>) -> (r: ErrorDiagnosticEngine)
        ensures
            r.rules() == rules@,
    {
        ErrorDiagnosticEngine { rules }
    }

    /// An engine with the built-in rules, tried in this order: npm
    /// permission errors, network timeouts and a missing Node.js, each with
    /// its suggestions.
    pub fn with_builtins() -> (r: ErrorDiagnosticEngine)
        ensures
            r.rules().len() == 3,
            rule_is(
                r.rules()[0],
                "npm_eacces"@,
                "EACCES: permission denied"@,
                "npm 安装权限不足"@,
                ErrorCategory::PermissionDenied,
            ),
            r.rules()[0].suggestions@.len() == 2,
            suggestion_is(r.rules()[0].suggestions@[0], "使用 sudo 重试"@, "以管理员权限重新运行安装命令。"@),
            r.rules()[0].suggestions@[0].action matches Some(FixAction::RunCommand { command, args })
                && command@ == "sudo"@ && views(args@) == seq!["npm"@, "install"@],
            suggestion_is(
                r.rules()[0].suggestions@[1],
                "修复 npm 全局目录权限"@,
                "按照 npm 官方文档调整全局安装目录的权限。"@,
            ),
            r.rules()[0].suggestions@[1].action matches Some(FixAction::OpenUrl { url }) && url@
                == "https://docs.npmjs.com/resolving-eacces-permissions-errors-when-installing-packages-globally"@,
            rule_is(
                r.rules()[1],
                "network_timeout"@,
                "(ETIMEDOUT|ENOTFOUND|getaddrinfo)"@,
                "网络连接超时或 DNS 解析失败"@,
                ErrorCategory::NetworkError,
            ),
            r.rules()[1].suggestions@.len() == 2,
            suggestion_is(r.rules()[1].suggestions@[0], "检查网络连接并重试"@, "确认网络可用后重新执行该步骤。"@),
            r.rules()[1].suggestions@[0].action matches Some(FixAction::RetryStep { step_id })
                && step_id@ == "__current__"@,
            suggestion_is(r.rules()[1].suggestions@[1], "配置代理"@, "为 npm 设置本地代理后重试。"@),
            r.rules()[1].suggestions@[1].action matches Some(FixAction::RunCommand { command, args })
                && command@ == "npm"@ && views(args@) == seq![
                "config"@,
                "set"@,
                "proxy"@,
                "http://127.0.0.1:7890"@,
            ],
            rule_is(
                r.rules()[2],
                "node_missing"@,
                "node: command not found|'node' is not recognized"@,
                "未找到 Node.js"@,
                ErrorCategory::MissingDependency,
            ),
            r.rules()[2].suggestions@.len() == 1,
            suggestion_is(r.rules()[2].suggestions@[0], "安装 Node.js"@, "安装 Node.js 后重试该步骤。"@),
            r.rules()[2].suggestions@[0].action matches Some(FixAction::InstallEnv { env_id })
                && env_id@ == "node"@,
    {
        let mut npm: Vec<FixSuggestion> = Vec::new();
        npm.push(
            suggestion(
                "使用 sudo 重试",
                "以管理员权限重新运行安装命令。",
                Some(FixAction::RunCommand { command: "sudo".to_owned(), args: strings(&["npm", "install"]) }),
            ),
        );
        npm.push(
            suggestion(
                "修复 npm 全局目录权限",
                "按照 npm 官方文档调整全局安装目录的权限。",
                Some(
                    FixAction::OpenUrl {
                        url: "https://docs.npmjs.com/resolving-eacces-permissions-errors-when-installing-packages-globally".to_owned(),
                    },
                ),
            ),
        );
        let mut net: Vec<FixSuggestion> = Vec::new();
        net.push(
            suggestion(
                "检查网络连接并重试",
                "确认网络可用后重新执行该步骤。",
                Some(FixAction::RetryStep { step_id: "__current__".to_owned() }),
            ),
        );
        net.push(
            suggestion(
                "配置代理",
                "为 npm 设置本地代理后重试。",
                Some(
                    FixAction::RunCommand {
                        command: "npm".to_owned(),
                        args: strings(&["config", "set", "proxy", "http://127.0.0.1:7890"]),
                    },
                ),
            ),
        );
        let mut node: Vec<FixSuggestion> = Vec::new();
        node.push(
            suggestion(
                "安装 Node.js",
                "安装 Node.js 后重试该步骤。",
                Some(FixAction::InstallEnv { env_id: "node".to_owned() }),
            ),
        );
        let mut rules: Vec<ErrorRule> = Vec::new();
        rules.push(
            ErrorRule {
                id: "npm_eacces".to_owned(),
                pattern: "EACCES: permission denied".to_owned(),
                description: "npm 安装权限不足".to_owned(),
                category: ErrorCategory::PermissionDenied,
                suggestions: npm,
            },
        );
        rules.push(
            ErrorRule {
                id: "network_timeout".to_owned(),
                pattern: "(ETIMEDOUT|ENOTFOUND|getaddrinfo)".to_owned(),
                description: "网络连接超时或 DNS 解析失败".to_owned(),
                category: ErrorCategory::NetworkError,
                suggestions: net,
            },
        );
        rules.push(
            ErrorRule {
                id: "node_missing".to_owned(),
                pattern: "node: command not found|'node' is not recognized".to_owned(),
                description: "未找到 Node.js".to_owned(),
                category: ErrorCategory::MissingDependency,
                suggestions: node,
            },
        );
        let r = ErrorDiagnosticEngine { rules };
        proof {
            let a0 = r.rules()[0].suggestions@[0].action->0->RunCommand_args;
            assert(views(a0@) =~= seq!["npm"@, "install"@]);
            let a1 = r.rules()[1].suggestions@[1].action->0->RunCommand_args;
            assert(views(a1@) =~= seq!["config"@, "set"@, "proxy"@, "http://127.0.0.1:7890"@]);
        }
        r
    }

    /// The index of the first rule whose pattern compiles and matches the
    /// raw error; a pattern that does not compile matches nothing.
    pub fn find_rule(&self, raw_error: &str) -> (r: Option<usize>)
        ensures
            match r {
                Some(k) => k as int == first_applying(self.rules(), raw_error@),
                None => first_applying(self.rules(), raw_error@) == -1,
            },
    {
        proof {
            lemma_first_applying(self.rules@, raw_error@);
        }
        let mut i: usize = 0;
        while i < self.rules.len()
            invariant
                i <= self.rules@.len(),
                forall|k: int| 0 <= k < i ==> !rule_applies(#[trigger] self.rules@[k], raw_error@),
            decreases self.rules@.len() - i,
        {
            let hit = match regex_new_is_match(self.rules[i].pattern.as_str(), raw_error) {
                Some(b) => b,
                None => false,
            };
            if hit {
                proof {
                    lemma_first_applying(self.rules@, raw_error@);
                }
                return Some(i);
            }
            i = i + 1;
        }
        proof {
            lemma_first_applying(self.rules@, raw_error@);
        }
        None
    }

    /// The report for a failed step, given the rule that matched (if any):
    /// the rule's suggestions, or, when there are none, a single suggestion
    /// to retry the step. The report is auto-fixable when some suggestion
    /// carries an action.
    pub fn report(task_id: &str, step_id: &str, raw_error: &str, matched: Option<&ErrorRule>) -> (r:
        DiagnosticReport)
        ensures
            r.task_id@ == task_id@,
            r.step_id@ == step_id@,
            r.raw_error@ == raw_error@,
            match matched {
                Some(rule) => r.matched_rule matches Some(m) && same_rule(m, *rule),
                None => r.matched_rule is None,
            },
            match matched {
                Some(rule) if rule.suggestions@.len() > 0 => same_suggestions(
                    r.suggestions@,
                    rule.suggestions@,
                ),
                _ => r.suggestions@.len() == 1 && is_retry_suggestion(r.suggestions@[0], step_id@),
            },
            r.auto_fixable == any_action(r.suggestions@),
    {
        let mut suggestions = match matched {
            Some(rule) => clone_suggestions(&rule.suggestions),
            None => Vec::new(),
        };
        if suggestions.len() == 0 {
            suggestions.push(
                suggestion(
                    "重试该步骤",
                    "有时临时性错误在重试后即可解决。",
                    Some(FixAction::RetryStep { step_id: step_id.to_owned() }),
                ),
            );
        }
        let mut auto_fixable = false;
        let mut i: usize = 0;
        while i < suggestions.len()
            invariant
                i <= suggestions@.len(),
                auto_fixable == exists|k: int| 0 <= k < i && (#[trigger] suggestions@[k]).action is Some,
            decreases suggestions@.len() - i,
        {
            if suggestions[i].action.is_some() {
                auto_fixable = true;
            }
            i = i + 1;
        }
        DiagnosticReport {
            task_id: task_id.to_owned(),
            step_id: step_id.to_owned(),
            raw_error: raw_error.to_owned(),
            matched_rule: match matched {
                Some(rule) => Some(rule.clone()),
                None => None,
            },
            suggestions,
            auto_fixable,
        }
    }

    /// Diagnose a raw error string for a task's step: the first rule that
    /// matches decides the suggestions.
    pub fn diagnose(&self, task_id: &str, step_id: &str, raw_error: &str) -> (r: DiagnosticReport)
        ensures
            r.task_id@ == task_id@,
            r.step_id@ == step_id@,
            r.raw_error@ == raw_error@,
            ({
                let k = first_applying(self.rules(), raw_error@);
                if k >= 0 {
                    let rule = self.rules()[k];
                    &&& r.matched_rule matches Some(m) && same_rule(m, rule)
                    &&& if rule.suggestions@.len() > 0 {
                        same_suggestions(r.suggestions@, rule.suggestions@)
                    } else {
                        r.suggestions@.len() == 1 && is_retry_suggestion(r.suggestions@[0], step_id@)
                    }
                } else {
                    &&& r.matched_rule is None
                    &&& r.suggestions@.len() == 1
                    &&& is_retry_suggestion(r.suggestions@[0], step_id@)
                }
            }),
            r.auto_fixable == any_action(r.suggestions@),
    {
        proof {
            lemma_first_applying(self.rules@, raw_error@);
        }
        match self.find_rule(raw_error) {
            Some(k) => Self::report(task_id, step_id, raw_error, Some(&self.rules[k])),
            None => Self::report(task_id, step_id, raw_error, None),
        }
    }
}

} // verus!
