//! SARIF structure of the rule-based reports (lint, clean and check): which
//! rules and results a run lists, with their ids, levels, locations, fixes
//! and properties. Writing the structure out as JSON is left to the caller.
use vstd::prelude::*;

use crate::check::{check_violation_view, check_violation_views};
use crate::clean::{clean_views, CleanViolationView};
use crate::config::string_views;
use crate::lint::{lint_view, lint_views, LintViolationView};
use crate::model::{opt_view, CheckResult, CleanResult, CleanViolation, LintResult};
use crate::relate::{dedup, dedup_strings};
use crate::text::{chars_of, decimal, push_decimal, push_str, str_to_string, string_from_chars};

verus! {

/// A rule of a SARIF run.
pub struct SarifRule {
    pub id: String,
    pub description: String,
}

/// A result of a SARIF run: the rule it reports, its level and message, the
/// place it points at, a suggested fix and string properties.
pub struct SarifResult {
    pub rule_id: String,
    pub level: String,
    pub message: String,
    pub location: Option<(String, usize)>,
    pub fix: Option<String>,
    pub properties: Vec<(String, String)>,
}

/// The rules and results of one SARIF run.
pub struct SarifRun {
    pub rules: Vec<SarifRule>,
    pub results: Vec<SarifResult>,
}

/// Model of a [`SarifRule`].
pub struct SarifRuleView {
    pub id: Seq<char>,
    pub description: Seq<char>,
}

/// Model of a [`SarifResult`].
pub struct SarifResultView {
    pub rule_id: Seq<char>,
    pub level: Seq<char>,
    pub message: Seq<char>,
    pub location: Option<(Seq<char>, usize)>,
    pub fix: Option<Seq<char>>,
    pub properties: Seq<(Seq<char>, Seq<char>)>,
}

impl View for SarifRule {
    type V = SarifRuleView;

    open spec fn view(&self) -> SarifRuleView {
        SarifRuleView { id: self.id@, description: self.description@ }
    }
}

impl View for SarifResult {
    type V = SarifResultView;

    open spec fn view(&self) -> SarifResultView {
        SarifResultView {
            rule_id: self.rule_id@,
            level: self.level@,
            message: self.message@,
            location: match self.location {
                Some(l) => Some((l.0@, l.1)),
                None => None,
            },
            fix: opt_view(self.fix),
            properties: self.properties@.map_values(|p: (String, String)| (p.0@, p.1@)),
        }
    }
}

pub open spec fn rule_views(v: Seq<SarifRule>) -> Seq<SarifRuleView> {
    v.map_values(|r: SarifRule| r@)
}

pub open spec fn result_views(v: Seq<SarifResult>) -> Seq<SarifResultView> {
    v.map_values(|r: SarifResult| r@)
}

/// Model of a [`SarifRun`]: its rules and its results.
pub open spec fn run_view(r: SarifRun) -> (Seq<SarifRuleView>, Seq<SarifResultView>) {
    (rule_views(r.rules@), result_views(r.results@))
}

// ───────────────────────── the structure of a run ─────────────────────────

/// `todox/KIND/RULE`.
pub open spec fn rule_id(kind: Seq<char>, rule: Seq<char>) -> Seq<char> {
    "todox/"@ + kind + seq!['/'] + rule
}

/// One rule per name: id `todox/KIND/NAME`, description `NAME WHAT`.
pub open spec fn named_rules(kind: Seq<char>, what: Seq<char>, names: Seq<Seq<char>>) -> Seq<SarifRuleView> {
    names.map_values(|r: Seq<char>| SarifRuleView { id: rule_id(kind, r), description: r + seq![' '] + what })
}

/// A lint violation as an error result at its place, its suggestion as the fix.
pub open spec fn lint_result(v: LintViolationView) -> SarifResultView {
    SarifResultView {
        rule_id: rule_id("lint"@, v.rule),
        level: "error"@,
        message: v.message,
        location: Some((v.file, v.line)),
        fix: v.suggestion,
        properties: seq![],
    }
}

/// A property `name` when the value is present.
pub open spec fn opt_property(name: Seq<char>, o: Option<Seq<char>>) -> Seq<(Seq<char>, Seq<char>)> {
    match o {
        Some(x) => seq![(name, x)],
        None => seq![],
    }
}

/// A clean violation as an error result at its place, with its issue
/// reference and the item it duplicates as properties.
pub open spec fn clean_result(v: CleanViolationView) -> SarifResultView {
    SarifResultView {
        rule_id: rule_id("clean"@, v.rule),
        level: "error"@,
        message: v.message,
        location: Some((v.file, v.line)),
        fix: None,
        properties: opt_property("issueRef"@, v.issue_ref) + opt_property("duplicateOf"@, v.duplicate_of),
    }
}

/// A check violation as a result without a place: a note when the check
/// passed, else an error.
pub open spec fn check_result(v: (Seq<char>, Seq<char>), passed: bool) -> SarifResultView {
    SarifResultView {
        rule_id: rule_id("check"@, v.0),
        level: if passed {
            "note"@
        } else {
            "error"@
        },
        message: v.1,
        location: None,
        fix: None,
        properties: seq![],
    }
}

/// The run of a passing report without results: one `summary` note.
pub open spec fn summary_run(kind: Seq<char>, summary: Seq<char>) -> (Seq<SarifRuleView>, Seq<SarifResultView>) {
    (
        seq![SarifRuleView { id: rule_id(kind, "summary"@), description: "todox "@ + kind + " summary"@ }],
        seq![
            SarifResultView {
                rule_id: rule_id(kind, "summary"@),
                level: "note"@,
                message: summary,
                location: None,
                fix: None,
                properties: seq![],
            },
        ],
    )
}

/// A report's run: its rules and results, or the summary note when it passed
/// with no result.
pub open spec fn report_run(
    kind: Seq<char>,
    passed: bool,
    rules: Seq<SarifRuleView>,
    results: Seq<SarifResultView>,
    summary: Seq<char>,
) -> (Seq<SarifRuleView>, Seq<SarifResultView>) {
    if passed && results.len() == 0 {
        summary_run(kind, summary)
    } else {
        (rules, results)
    }
}

/// The run of a lint report: one rule per distinct rule name (first
/// occurrence first), one result per violation.
pub open spec fn lint_run(r: LintResult) -> (Seq<SarifRuleView>, Seq<SarifResultView>) {
    let vs = lint_views(r.violations@);
    report_run(
        "lint"@,
        r.passed,
        named_rules("lint"@, "lint rule"@, dedup(vs.map_values(|v: LintViolationView| v.rule))),
        vs.map_values(|v: LintViolationView| lint_result(v)),
        "All lint checks passed ("@ + decimal(r.total_items as nat) + " items)"@,
    )
}

/// The run of a clean report: one rule per distinct rule name (first
/// occurrence first), one result per violation.
pub open spec fn clean_run(r: CleanResult) -> (Seq<SarifRuleView>, Seq<SarifResultView>) {
    let vs = clean_views(r.violations@);
    report_run(
        "clean"@,
        r.passed,
        named_rules("clean"@, "clean rule"@, dedup(vs.map_values(|v: CleanViolationView| v.rule))),
        vs.map_values(|v: CleanViolationView| clean_result(v)),
        "All clean checks passed ("@ + decimal(r.total_items as nat) + " items)"@,
    )
}

/// The run of a check report: one rule and one result per violation.
pub open spec fn check_run(r: CheckResult) -> (Seq<SarifRuleView>, Seq<SarifResultView>) {
    let vs = check_violation_views(r.violations@);
    report_run(
        "check"@,
        r.passed,
        named_rules("check"@, "check"@, vs.map_values(|v: (Seq<char>, Seq<char>)| v.0)),
        vs.map_values(|v: (Seq<char>, Seq<char>)| check_result(v, r.passed)),
        "All checks passed ("@ + decimal(r.total as nat) + " items total)"@,
    )
}

// ───────────────────────── building a run ─────────────────────────

fn rule_id_exec(kind: &str, rule: &str) -> (res: String)
    ensures
        res@ == rule_id(kind@, rule@),
{
    let mut out = chars_of("todox/");
    push_str(&mut out, kind);
    out.push('/');
    push_str(&mut out, rule);
    string_from_chars(&out)
}

fn named_rules_exec(kind: &str, what: &str, names: &Vec<String>) -> (res: Vec<SarifRule>)
    ensures
        rule_views(res@) == named_rules(kind@, what@, string_views(names@)),
{
    let ghost nv = string_views(names@);
    let mut res: Vec<SarifRule> = Vec::new();
    let mut i: usize = 0;
    while i < names.len()
        invariant
            nv == string_views(names@),
            i <= names@.len(),
            rule_views(res@) == named_rules(kind@, what@, nv.take(i as int)),
        decreases names@.len() - i,
    {
        let id = rule_id_exec(kind, names[i].as_str());
        let mut d = chars_of(names[i].as_str());
        d.push(' ');
        push_str(&mut d, what);
        assert(d@ =~= names@[i as int]@ + seq![' '] + what@);
        let r = SarifRule { id, description: string_from_chars(&d) };
        let ghost before = rule_views(res@);
        res.push(r);
        proof {
            assert(nv[i as int] == names@[i as int]@);
            assert(rule_views(res@) =~= before.push(r@));
            assert(nv.take(i + 1) =~= nv.take(i as int).push(nv[i as int]));
            assert(r@ == SarifRuleView {
                id: rule_id(kind@, nv[i as int]),
                description: nv[i as int] + seq![' '] + what@,
            });
            assert(named_rules(kind@, what@, nv.take(i + 1)) =~= named_rules(
                kind@,
                what@,
                nv.take(i as int),
            ).push(r@));
        }
        i += 1;
    }
    assert(nv.take(names@.len() as int) =~= nv);
    res
}

fn summary_run_exec(kind: &str, summary: Vec<char>) -> (res: SarifRun)
    ensures
        run_view(res) == summary_run(kind@, summary@),
{
    let mut d = chars_of("todox ");
    push_str(&mut d, kind);
    push_str(&mut d, " summary");
    let rule = SarifRule { id: rule_id_exec(kind, "summary"), description: string_from_chars(&d) };
    let result = SarifResult {
        rule_id: rule_id_exec(kind, "summary"),
        level: str_to_string("note"),
        message: string_from_chars(&summary),
        location: None,
        fix: None,
        properties: Vec::new(),
    };
    assert(result@.properties =~= Seq::<(Seq<char>, Seq<char>)>::empty());
    assert(result@ == summary_run(kind@, summary@).1[0]);
    let res = SarifRun { rules: vec![rule], results: vec![result] };
    assert(rule_views(res.rules@) =~= summary_run(kind@, summary@).0);
    assert(result_views(res.results@) =~= summary_run(kind@, summary@).1);
    res
}

/// The SARIF run of a lint report.
pub fn lint_sarif(r: &LintResult) -> (res: SarifRun)
    ensures
        run_view(res) == lint_run(*r),
{
    let ghost vs = lint_views(r.violations@);
    let mut names: Vec<String> = Vec::new();
    let mut results: Vec<SarifResult> = Vec::new();
    let mut i: usize = 0;
    while i < r.violations.len()
        invariant
            vs == lint_views(r.violations@),
            i <= r.violations@.len(),
            string_views(names@) == vs.take(i as int).map_values(|v: LintViolationView| v.rule),
            result_views(results@) == vs.take(i as int).map_values(|v: LintViolationView| lint_result(v)),
        decreases r.violations@.len() - i,
    {
        let v = &r.violations[i];
        let ghost before_n = string_views(names@);
        let ghost before_r = result_views(results@);
        names.push(v.rule.clone());
        let fix = match &v.suggestion {
            Some(s) => Some(s.clone()),
            None => None,
        };
        let res = SarifResult {
            rule_id: rule_id_exec("lint", v.rule.as_str()),
            level: str_to_string("error"),
            message: v.message.clone(),
            location: Some((v.file.clone(), v.line)),
            fix,
            properties: Vec::new(),
        };
        results.push(res);
        proof {
            assert(vs[i as int] == lint_view(*v));
            assert(res@.properties =~= Seq::<(Seq<char>, Seq<char>)>::empty());
            assert(res@ == lint_result(vs[i as int]));
            assert(vs.take(i + 1) =~= vs.take(i as int).push(vs[i as int]));
            assert(string_views(names@) =~= before_n.push(v.rule@));
            assert(result_views(results@) =~= before_r.push(res@));
            assert(vs.take(i + 1).map_values(|v: LintViolationView| v.rule) =~= vs.take(i as int).map_values(
                |v: LintViolationView| v.rule,
            ).push(vs[i as int].rule));
            assert(vs.take(i + 1).map_values(|v: LintViolationView| lint_result(v)) =~= vs.take(
                i as int,
            ).map_values(|v: LintViolationView| lint_result(v)).push(lint_result(vs[i as int])));
        }
        i += 1;
    }
    assert(vs.take(r.violations@.len() as int) =~= vs);
    let mut summary = chars_of("All lint checks passed (");
    push_decimal(&mut summary, r.total_items as u64);
    push_str(&mut summary, " items)");
    if r.passed && results.len() == 0 {
        summary_run_exec("lint", summary)
    } else {
        let distinct = dedup_strings(names);
        let rules = named_rules_exec("lint", "lint rule", &distinct);
        SarifRun { rules, results }
    }
}

fn clean_properties(v: &CleanViolation) -> (res: Vec<(String, String)>)
    ensures
        res@.map_values(|p: (String, String)| (p.0@, p.1@)) == opt_property("issueRef"@, v@.issue_ref)
            + opt_property("duplicateOf"@, v@.duplicate_of),
{
    let mut res: Vec<(String, String)> = Vec::new();
    if let Some(i) = &v.issue_ref {
        res.push((str_to_string("issueRef"), i.clone()));
    }
    if let Some(d) = &v.duplicate_of {
        res.push((str_to_string("duplicateOf"), d.clone()));
    }
    assert(res@.map_values(|p: (String, String)| (p.0@, p.1@)) =~= opt_property("issueRef"@, v@.issue_ref)
        + opt_property("duplicateOf"@, v@.duplicate_of));
    res
}

/// The SARIF run of a clean report.
pub fn clean_sarif(r: &CleanResult) -> (res: SarifRun)
    ensures
        run_view(res) == clean_run(*r),
{
    let ghost vs = clean_views(r.violations@);
    let mut names: Vec<String> = Vec::new();
    let mut results: Vec<SarifResult> = Vec::new();
    let mut i: usize = 0;
    while i < r.violations.len()
        invariant
            vs == clean_views(r.violations@),
            i <= r.violations@.len(),
            string_views(names@) == vs.take(i as int).map_values(|v: CleanViolationView| v.rule),
            result_views(results@) == vs.take(i as int).map_values(|v: CleanViolationView| clean_result(v)),
        decreases r.violations@.len() - i,
    {
        let v = &r.violations[i];
        let ghost before_n = string_views(names@);
        let ghost before_r = result_views(results@);
        names.push(v.rule.clone());
        let res = SarifResult {
            rule_id: rule_id_exec("clean", v.rule.as_str()),
            level: str_to_string("error"),
            message: v.message.clone(),
            location: Some((v.file.clone(), v.line)),
            fix: None,
            properties: clean_properties(v),
        };
        results.push(res);
        proof {
            assert(vs[i as int] == v@);
            assert(res@ == clean_result(vs[i as int]));
            assert(vs.take(i + 1) =~= vs.take(i as int).push(vs[i as int]));
            assert(string_views(names@) =~= before_n.push(v.rule@));
            assert(result_views(results@) =~= before_r.push(res@));
            assert(vs.take(i + 1).map_values(|v: CleanViolationView| v.rule) =~= vs.take(i as int).map_values(
                |v: CleanViolationView| v.rule,
            ).push(vs[i as int].rule));
            assert(vs.take(i + 1).map_values(|v: CleanViolationView| clean_result(v)) =~= vs.take(
                i as int,
            ).map_values(|v: CleanViolationView| clean_result(v)).push(clean_result(vs[i as int])));
        }
        i += 1;
    }
    assert(vs.take(r.violations@.len() as int) =~= vs);
    let mut summary = chars_of("All clean checks passed (");
    push_decimal(&mut summary, r.total_items as u64);
    push_str(&mut summary, " items)");
    if r.passed && results.len() == 0 {
        summary_run_exec("clean", summary)
    } else {
        let distinct = dedup_strings(names);
        let rules = named_rules_exec("clean", "clean rule", &distinct);
        SarifRun { rules, results }
    }
}

/// The SARIF run of a check report.
pub fn check_sarif(r: &CheckResult) -> (res: SarifRun)
    ensures
        run_view(res) == check_run(*r),
{
    let ghost vs = check_violation_views(r.violations@);
    let mut names: Vec<String> = Vec::new();
    let mut results: Vec<SarifResult> = Vec::new();
    let mut i: usize = 0;
    while i < r.violations.len()
        invariant
            vs == check_violation_views(r.violations@),
            i <= r.violations@.len(),
            string_views(names@) == vs.take(i as int).map_values(|v: (Seq<char>, Seq<char>)| v.0),
            result_views(results@) == vs.take(i as int).map_values(
                |v: (Seq<char>, Seq<char>)| check_result(v, r.passed),
            ),
        decreases r.violations@.len() - i,
    {
        let v = &r.violations[i];
        let ghost before_n = string_views(names@);
        let ghost before_r = result_views(results@);
        names.push(v.rule.clone());
        let level = if r.passed {
            str_to_string("note")
        } else {
            str_to_string("error")
        };
        let res = SarifResult {
            rule_id: rule_id_exec("check", v.rule.as_str()),
            level,
            message: v.message.clone(),
            location: None,
            fix: None,
            properties: Vec::new(),
        };
        results.push(res);
        proof {
            assert(vs[i as int] == check_violation_view(*v));
            assert(res@.properties =~= Seq::<(Seq<char>, Seq<char>)>::empty());
            assert(res@ == check_result(vs[i as int], r.passed));
            assert(vs.take(i + 1) =~= vs.take(i as int).push(vs[i as int]));
            assert(string_views(names@) =~= before_n.push(v.rule@));
            assert(result_views(results@) =~= before_r.push(res@));
            assert(vs.take(i + 1).map_values(|v: (Seq<char>, Seq<char>)| v.0) =~= vs.take(i as int).map_values(
                |v: (Seq<char>, Seq<char>)| v.0,
            ).push(vs[i as int].0));
            assert(vs.take(i + 1).map_values(|v: (Seq<char>, Seq<char>)| check_result(v, r.passed)) =~= vs.take(
                i as int,
            ).map_values(|v: (Seq<char>, Seq<char>)| check_result(v, r.passed)).push(
                check_result(vs[i as int], r.passed),
            ));
        }
        i += 1;
    }
    assert(vs.take(r.violations@.len() as int) =~= vs);
    let mut summary = chars_of("All checks passed (");
    push_decimal(&mut summary, r.total as u64);
    push_str(&mut summary, " items total)");
    if r.passed && results.len() == 0 {
        summary_run_exec("check", summary)
    } else {
        let rules = named_rules_exec("check", "check", &names);
        SarifRun { rules, results }
    }
}

} // verus!
