//! Per-package rules of a workspace: the TODO budget and forbidden tags of
//! each package, and the package summaries of `workspace list`.
use std::collections::HashMap;

use vstd::prelude::*;

use crate::config::{string_views, Config, PackageCheckConfig};
use crate::model::{
    item_views, tag_name, CheckResult, CheckViolation, PackageInfo, PackageScanSummary, PackageStatus, TodoItem, WorkspaceResult,
    TodoItemView,
};
use crate::text::{chars_of, decimal, eq_ignore_ascii_case, eq_ignore_ascii_case_exec, push_all, push_decimal, push_str, string_from_chars};

verus! {

/// `HashMap::get` on the per-package settings: the settings stored under
/// the key equal to `name`, if any.
#[verifier::external_body]
fn package_settings<'a>(m: &'a HashMap<String, PackageCheckConfig>, name: &str) -> (res: Option<&'a PackageCheckConfig>)
    ensures
        match res {
            Some(v) => exists|k: String| #[trigger] m@.contains_key(k) && k@ == name@ && m@[k] == *v,
            None => forall|k: String| #[trigger] m@.contains_key(k) ==> k@ != name@,
        },
{
    m.get(name)
}

/// A check violation as rule and message text.
pub open spec fn violation_view(v: CheckViolation) -> (Seq<char>, Seq<char>) {
    (v.rule@, v.message@)
}

/// Views of check violations.
pub open spec fn violation_views(vs: Seq<CheckViolation>) -> Seq<(Seq<char>, Seq<char>)> {
    vs.map_values(|v: CheckViolation| violation_view(v))
}

/// `package 'NAME' has COUNT TODOs (max: MAX)`.
pub open spec fn over_budget_message(name: Seq<char>, count: nat, max: nat) -> Seq<char> {
    "package '"@ + name + "' has "@ + decimal(count) + " TODOs (max: "@ + decimal(max) + ")"@
}

/// `package 'NAME': forbidden tag TAG at FILE:LINE`.
pub open spec fn forbidden_tag_message(name: Seq<char>, v: TodoItemView) -> Seq<char> {
    "package '"@ + name + "': forbidden tag "@ + tag_name(v.tag) + " at "@ + v.file + ":"@ + decimal(v.line as nat)
}

/// Whether a tag name is among the blocked tags, ignoring ASCII case.
pub open spec fn tag_blocked(blocked: Seq<Seq<char>>, tag: Seq<char>) -> bool {
    exists|i: int| 0 <= i < blocked.len() && eq_ignore_ascii_case(#[trigger] blocked[i], tag)
}

/// The forbidden-tag violations of a package's items, in order.
pub open spec fn forbidden_violations(name: Seq<char>, items: Seq<TodoItemView>, blocked: Seq<Seq<char>>) -> Seq<
    (Seq<char>, Seq<char>),
>
    decreases items.len(),
{
    if items.len() == 0 {
        seq![]
    } else {
        let rest = forbidden_violations(name, items.drop_last(), blocked);
        if tag_blocked(blocked, tag_name(items.last().tag)) {
            rest.push(("workspace/block-tag"@, forbidden_tag_message(name, items.last())))
        } else {
            rest
        }
    }
}

/// The violations of one package with the given settings: its count above
/// the budget, then each item with a blocked tag.
pub open spec fn package_violations_of(
    name: Seq<char>,
    items: Seq<TodoItemView>,
    settings: Option<PackageCheckConfig>,
) -> Seq<(Seq<char>, Seq<char>)> {
    match settings {
        None => seq![],
        Some(pc) => {
            let over = match pc.max {
                Some(m) => if items.len() > m {
                    seq![("workspace/max"@, over_budget_message(name, items.len(), m as nat))]
                } else {
                    seq![]
                },
                None => seq![],
            };
            over + if pc.block_tags@.len() > 0 {
                forbidden_violations(name, items, string_views(pc.block_tags@))
            } else {
                seq![]
            }
        },
    }
}

/// Whether `s` is what the settings map holds for the package name: the
/// value under a key with that text, or nothing when no key has it.
pub open spec fn settings_match(m: Map<String, PackageCheckConfig>, name: Seq<char>, s: Option<PackageCheckConfig>) -> bool {
    match s {
        Some(v) => exists|k: String| #[trigger] m.contains_key(k) && k@ == name && m[k] == v,
        None => forall|k: String| #[trigger] m.contains_key(k) ==> k@ != name,
    }
}

fn is_blocked_tag(blocked: &Vec<String>, tag: &[char]) -> (res: bool)
    ensures
        res == tag_blocked(string_views(blocked@), tag@),
{
    let mut k: usize = 0;
    while k < blocked.len()
        invariant
            k <= blocked@.len(),
            forall|m: int| 0 <= m < k ==> !eq_ignore_ascii_case(#[trigger] string_views(blocked@)[m], tag@),
        decreases blocked@.len() - k,
    {
        let b = chars_of(blocked[k].as_str());
        if eq_ignore_ascii_case_exec(&b, tag) {
            assert(string_views(blocked@)[k as int] == b@);
            return true;
        }
        k += 1;
    }
    false
}

/// The workspace-check violations of package `name`, whose scan found
/// `items`: with a `max` setting, a count above it; with `block_tags`, each
/// item whose tag is blocked (ignoring case).  A package without settings
/// has none.
pub fn package_violations(config: &Config, name: &str, items: &Vec<TodoItem>) -> (res: Vec<CheckViolation>)
    ensures
        exists|s: Option<PackageCheckConfig>|
            #[trigger] settings_match(config.workspace.packages@, name@, s) && violation_views(res@)
                == package_violations_of(name@, item_views(items@), s),
{
    let mut out: Vec<CheckViolation> = Vec::new();
    let settings = package_settings(&config.workspace.packages, name);
    let ghost found: Option<PackageCheckConfig> = match settings {
        Some(v) => Some(*v),
        None => None,
    };
    assert(settings_match(config.workspace.packages@, name@, found));
    let pc = match settings {
        Some(pc) => pc,
        None => {
            assert(violation_views(out@) =~= package_violations_of(name@, item_views(items@), found));
            return out;
        },
    };
    let ghost iv = item_views(items@);
    match pc.max {
        Some(m) => {
            if items.len() > m {
                let mut msg = chars_of("package '");
                push_str(&mut msg, name);
                push_str(&mut msg, "' has ");
                push_decimal(&mut msg, items.len() as u64);
                push_str(&mut msg, " TODOs (max: ");
                push_decimal(&mut msg, m as u64);
                push_str(&mut msg, ")");
                out.push(CheckViolation { rule: string_from_chars(&chars_of("workspace/max")), message: string_from_chars(&msg) });
            }
        },
        None => {},
    }
    let ghost head = violation_views(out@);
    if pc.block_tags.len() > 0 {
        let mut i: usize = 0;
        while i < items.len()
            invariant
                i <= items@.len(),
                iv == item_views(items@),
                pc.block_tags@.len() > 0,
                violation_views(out@) == head + forbidden_violations(name@, iv.take(i as int), string_views(pc.block_tags@)),
            decreases items@.len() - i,
        {
            assert(iv.take(i + 1).drop_last() =~= iv.take(i as int));
            assert(iv.take(i + 1).last() == items@[i as int]@);
            let tag = items[i].tag.name_chars();
            if is_blocked_tag(&pc.block_tags, &tag) {
                let mut msg = chars_of("package '");
                push_str(&mut msg, name);
                push_str(&mut msg, "': forbidden tag ");
                push_all(&mut msg, &tag);
                push_str(&mut msg, " at ");
                push_str(&mut msg, items[i].file.as_str());
                push_str(&mut msg, ":");
                push_decimal(&mut msg, items[i].line as u64);
                let ghost before = violation_views(out@);
                out.push(CheckViolation { rule: string_from_chars(&chars_of("workspace/block-tag")), message: string_from_chars(&msg) });
                assert(violation_views(out@) =~= before.push(("workspace/block-tag"@, forbidden_tag_message(name@, iv[i as int]))));
            }
            i += 1;
        }
        assert(iv.take(items@.len() as int) =~= iv);
    }
    assert(violation_views(out@) =~= package_violations_of(name@, iv, found));
    out
}

/// The result of a workspace check: passed when no package has a
/// violation.
pub fn workspace_check_result(violations: Vec<CheckViolation>) -> (res: CheckResult)
    ensures
        res.passed == (violations@.len() == 0),
        res.total == violations@.len(),
        res.violations@ == violations@,
{
    let total = violations.len();
    CheckResult { passed: total == 0, total, violations }
}

/// The budget status of a package: over when the count exceeds the
/// configured maximum, within it otherwise, uncapped without a maximum.
pub open spec fn status_of(count: usize, max: Option<usize>) -> PackageStatus {
    match max {
        Some(m) => if count > m {
            PackageStatus::Over
        } else {
            PackageStatus::InLimit
        },
        None => PackageStatus::Uncapped,
    }
}

/// The configured maximum of a package's settings.
pub open spec fn max_of(s: Option<PackageCheckConfig>) -> Option<usize> {
    match s {
        Some(pc) => pc.max,
        None => None,
    }
}

/// The `workspace list` line of a package whose scan found `todo_count`
/// items: its configured maximum and budget status.
pub fn package_summary(config: &Config, pkg: &PackageInfo, todo_count: usize) -> (res: PackageScanSummary)
    ensures
        res.name@ == pkg.name@,
        res.path@ == pkg.path@,
        res.todo_count == todo_count,
        exists|s: Option<PackageCheckConfig>|
            #[trigger] settings_match(config.workspace.packages@, pkg.name@, s) && res.max == max_of(s),
        res.status == status_of(todo_count, res.max),
{
    let settings = package_settings(&config.workspace.packages, pkg.name.as_str());
    let ghost found: Option<PackageCheckConfig> = match settings {
        Some(v) => Some(*v),
        None => None,
    };
    assert(settings_match(config.workspace.packages@, pkg.name@, found));
    let max = match settings {
        Some(pc) => pc.max,
        None => None,
    };
    let status = match max {
        Some(m) => if todo_count > m {
            PackageStatus::Over
        } else {
            PackageStatus::InLimit
        },
        None => PackageStatus::Uncapped,
    };
    PackageScanSummary { name: pkg.name.clone(), path: pkg.path.clone(), todo_count, max, status }
}

/// Sum of the packages' counts.
pub open spec fn summaries_total(ss: Seq<PackageScanSummary>) -> nat
    decreases ss.len(),
{
    if ss.len() == 0 {
        0
    } else {
        summaries_total(ss.drop_last()) + ss.last().todo_count as nat
    }
}

/// The `workspace list` result: the summaries, their number and the total
/// count (saturated at `usize::MAX`).
pub fn workspace_result(summaries: Vec<PackageScanSummary>) -> (res: WorkspaceResult)
    ensures
        res.packages@ == summaries@,
        res.total_packages == summaries@.len(),
        res.total_todos == if summaries_total(summaries@) <= usize::MAX {
            summaries_total(summaries@) as usize
        } else {
            usize::MAX
        },
{
    let mut total: usize = 0;
    let mut i: usize = 0;
    while i < summaries.len()
        invariant
            i <= summaries@.len(),
            total == if summaries_total(summaries@.take(i as int)) <= usize::MAX {
                summaries_total(summaries@.take(i as int)) as usize
            } else {
                usize::MAX
            },
        decreases summaries@.len() - i,
    {
        assert(summaries@.take(i + 1).drop_last() =~= summaries@.take(i as int));
        total = total.saturating_add(summaries[i].todo_count);
        i += 1;
    }
    assert(summaries@.take(summaries@.len() as int) =~= summaries@);
    let n = summaries.len();
    WorkspaceResult { packages: summaries, total_todos: total, total_packages: n }
}

} // verus!
