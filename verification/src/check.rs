//! The CI gate: blocked tags, a maximum count, a maximum of new items and
//! expired deadlines.
use vstd::prelude::*;

use crate::config::Config;
use crate::deadline::{date_lt, deadline_text, Deadline};
use crate::model::{
    item_views, tag_name, CheckResult, CheckViolation, DiffResult, ScanResult, TodoItemView,
};
use crate::text::{
    chars_eq, chars_of, decimal, push_all, push_decimal, push_str, string_from_chars, to_uppercase,
    uppercase,
};

verus! {

/// Command-line overrides of the check settings.
pub struct CheckOverrides {
    pub max: Option<usize>,
    pub block_tags: Vec<String>,
    pub max_new: Option<usize>,
    pub expired: bool,
}

/// Plain view of a check violation: (rule, message).
pub open spec fn check_violation_view(v: CheckViolation) -> (Seq<char>, Seq<char>) {
    (v.rule@, v.message@)
}

/// Views of check violations.
pub open spec fn check_violation_views(vs: Seq<CheckViolation>) -> Seq<(Seq<char>, Seq<char>)> {
    vs.map_values(|v: CheckViolation| check_violation_view(v))
}

/// The blocked tags from the command line and from the configuration.
pub open spec fn blocked_tags(overrides: &CheckOverrides, config: &Config) -> Seq<Seq<char>> {
    overrides.block_tags@.map_values(|s: String| s@) + config.check.block_tags@.map_values(
        |s: String| s@,
    )
}

/// A tag name is blocked when its upper-case form equals the upper-case form of
/// a blocked tag.
pub open spec fn is_blocked(blocked: Seq<Seq<char>>, tag: Seq<char>) -> bool {
    exists|i: int| 0 <= i < blocked.len() && uppercase(#[trigger] blocked[i]) == uppercase(tag)
}

/// `Blocked tag TAG found in FILE:LINE`.
pub open spec fn blocked_message(v: TodoItemView) -> Seq<char> {
    "Blocked tag "@ + tag_name(v.tag) + " found in "@ + v.file + seq![':'] + decimal(v.line as nat)
}

/// `Expired deadline YYYY-MM-DD in FILE:LINE`.
pub open spec fn expired_message(d: Deadline, v: TodoItemView) -> Seq<char> {
    "Expired deadline "@ + deadline_text(d) + " in "@ + v.file + seq![':'] + decimal(v.line as nat)
}

/// `block_tags` violations of the items, in order.
pub open spec fn block_violations(items: Seq<TodoItemView>, blocked: Seq<Seq<char>>) -> Seq<
    (Seq<char>, Seq<char>),
>
    decreases items.len(),
{
    if items.len() == 0 {
        Seq::empty()
    } else {
        let prev = block_violations(items.drop_last(), blocked);
        let v = items.last();
        if is_blocked(blocked, tag_name(v.tag)) {
            prev.push(("block_tags"@, blocked_message(v)))
        } else {
            prev
        }
    }
}

/// `expired` violations of the items, in order.
pub open spec fn expired_violations(items: Seq<TodoItemView>, today: Deadline) -> Seq<
    (Seq<char>, Seq<char>),
>
    decreases items.len(),
{
    if items.len() == 0 {
        Seq::empty()
    } else {
        let prev = expired_violations(items.drop_last(), today);
        let v = items.last();
        match v.deadline {
            Some(d) => if date_lt(d, today) {
                prev.push(("expired"@, expired_message(d, v)))
            } else {
                prev
            },
            None => prev,
        }
    }
}

/// The `max` violation, if the total exceeds the maximum.
pub open spec fn max_violation(total: nat, max: Option<usize>) -> Seq<(Seq<char>, Seq<char>)> {
    match max {
        Some(m) => if total > m {
            seq![
                ("max"@, "Total TODOs ("@ + decimal(total) + ") exceeds max ("@ + decimal(m as nat)
                    + seq![')']),
            ]
        } else {
            Seq::empty()
        },
        None => Seq::empty(),
    }
}

/// The `max_new` violation, if a diff shows more new items than allowed.
pub open spec fn max_new_violation(added: Option<usize>, max_new: Option<usize>) -> Seq<
    (Seq<char>, Seq<char>),
> {
    match (max_new, added) {
        (Some(m), Some(a)) => if a > m {
            seq![
                ("max_new"@, "New TODOs ("@ + decimal(a as nat) + ") exceeds max_new ("@ + decimal(
                    m as nat,
                ) + seq![')']),
            ]
        } else {
            Seq::empty()
        },
        _ => Seq::empty(),
    }
}

/// The first present of two optional values.
pub open spec fn or_else(a: Option<usize>, b: Option<usize>) -> Option<usize> {
    match a {
        Some(x) => Some(x),
        None => b,
    }
}

/// All violations that [`run_check`] reports, in its order.
pub open spec fn check_violations(
    items: Seq<TodoItemView>,
    added: Option<usize>,
    config: &Config,
    overrides: &CheckOverrides,
    today: Deadline,
) -> Seq<(Seq<char>, Seq<char>)> {
    let expired_on = overrides.expired || config.check.expired == Some(true);
    block_violations(items, blocked_tags(overrides, config)) + max_violation(
        items.len(),
        or_else(overrides.max, config.check.max),
    ) + max_new_violation(added, or_else(overrides.max_new, config.check.max_new)) + if expired_on {
        expired_violations(items, today)
    } else {
        Seq::empty()
    }
}

fn upper_list(overrides: &CheckOverrides, config: &Config) -> (res: Vec<Vec<char>>)
    ensures
        res@.len() == blocked_tags(overrides, config).len(),
        forall|i: int|
            0 <= i < res@.len() ==> (#[trigger] res@[i])@ == uppercase(
                blocked_tags(overrides, config)[i],
            ),
{
    let ghost b = blocked_tags(overrides, config);
    let mut res: Vec<Vec<char>> = Vec::new();
    let mut i: usize = 0;
    while i < overrides.block_tags.len()
        invariant
            b == blocked_tags(overrides, config),
            i <= overrides.block_tags@.len(),
            res@.len() == i,
            forall|k: int| 0 <= k < i ==> (#[trigger] res@[k])@ == uppercase(b[k]),
        decreases overrides.block_tags@.len() - i,
    {
        let cs = chars_of(overrides.block_tags[i].as_str());
        res.push(to_uppercase(&cs));
        i += 1;
    }
    let n = overrides.block_tags.len();
    let mut j: usize = 0;
    while j < config.check.block_tags.len()
        invariant
            b == blocked_tags(overrides, config),
            n == overrides.block_tags@.len(),
            j <= config.check.block_tags@.len(),
            res@.len() == n + j,
            forall|k: int| 0 <= k < n + j ==> (#[trigger] res@[k])@ == uppercase(b[k]),
        decreases config.check.block_tags@.len() - j,
    {
        let cs = chars_of(config.check.block_tags[j].as_str());
        res.push(to_uppercase(&cs));
        j += 1;
    }
    res
}

fn is_blocked_exec(ups: &Vec<Vec<char>>, tag_up: &Vec<char>, blocked: Ghost<Seq<Seq<char>>>, tag: Ghost<Seq<char>>) -> (res: bool)
    requires
        ups@.len() == blocked@.len(),
        forall|i: int| 0 <= i < ups@.len() ==> (#[trigger] ups@[i])@ == uppercase(blocked@[i]),
        tag_up@ == uppercase(tag@),
    ensures
        res == is_blocked(blocked@, tag@),
{
    let mut i: usize = 0;
    while i < ups.len()
        invariant
            i <= ups@.len(),
            ups@.len() == blocked@.len(),
            forall|k: int| 0 <= k < ups@.len() ==> (#[trigger] ups@[k])@ == uppercase(blocked@[k]),
            tag_up@ == uppercase(tag@),
            forall|k: int| 0 <= k < i ==> uppercase(#[trigger] blocked@[k]) != uppercase(tag@),
        decreases ups@.len() - i,
    {
        if chars_eq(&ups[i], tag_up) {
            assert(uppercase(blocked@[i as int]) == uppercase(tag@));
            return true;
        }
        i += 1;
    }
    false
}

fn violation(rule: &str, message: &Vec<char>) -> (res: CheckViolation)
    ensures
        check_violation_view(res) == (rule@, message@),
{
    CheckViolation { rule: crate::text::str_to_string(rule), message: string_from_chars(message) }
}

/// Evaluate the CI gate rules against a scan (and an optional diff).
pub fn run_check(
    scan: &ScanResult,
    diff: Option<&DiffResult>,
    config: &Config,
    overrides: &CheckOverrides,
    today: &Deadline,
) -> (res: CheckResult)
    ensures
        check_violation_views(res.violations@) == check_violations(
            item_views(scan.items@),
            match diff {
                Some(d) => Some(d.added_count),
                None => None,
            },
            config,
            overrides,
            *today,
        ),
        res.passed == (res.violations@.len() == 0),
        res.total == scan.items@.len(),
{
    let ghost iv = item_views(scan.items@);
    let ghost blocked = blocked_tags(overrides, config);
    let ups = upper_list(overrides, config);
    let mut violations: Vec<CheckViolation> = Vec::new();
    let mut i: usize = 0;
    while i < scan.items.len()
        invariant
            i <= scan.items@.len(),
            iv == item_views(scan.items@),
            blocked == blocked_tags(overrides, config),
            ups@.len() == blocked.len(),
            forall|k: int| 0 <= k < ups@.len() ==> (#[trigger] ups@[k])@ == uppercase(blocked[k]),
            check_violation_views(violations@) == block_violations(iv.take(i as int), blocked),
        decreases scan.items@.len() - i,
    {
        let item = &scan.items[i];
        let name = item.tag.name_chars();
        let up = to_uppercase(&name);
        assert(iv.take(i + 1).drop_last() =~= iv.take(i as int));
        assert(iv.take(i + 1).last() == item@);
        if is_blocked_exec(&ups, &up, Ghost(blocked), Ghost(tag_name(item.tag))) {
            let mut msg = chars_of("Blocked tag ");
            push_all(&mut msg, &name);
            push_str(&mut msg, " found in ");
            push_str(&mut msg, item.file.as_str());
            msg.push(':');
            push_decimal(&mut msg, item.line as u64);
            assert(msg@ =~= blocked_message(item@));
            let v = violation("block_tags", &msg);
            let ghost old = violations@;
            violations.push(v);
            assert(check_violation_views(violations@) =~= check_violation_views(old).push(
                check_violation_view(v),
            ));
        }
        i += 1;
    }
    assert(iv.take(iv.len() as int) =~= iv);
    let ghost after_block = violations@;
    let total = scan.items.len();
    let max = match overrides.max {
        Some(m) => Some(m),
        None => config.check.max,
    };
    if let Some(m) = max {
        if total > m {
            let mut msg = chars_of("Total TODOs (");
            push_decimal(&mut msg, total as u64);
            push_str(&mut msg, ") exceeds max (");
            push_decimal(&mut msg, m as u64);
            msg.push(')');
            assert(msg@ =~= "Total TODOs ("@ + decimal(total as nat) + ") exceeds max ("@ + decimal(
                m as nat,
            ) + seq![')']);
            let v = violation("max", &msg);
            violations.push(v);
            assert(check_violation_views(violations@) =~= check_violation_views(after_block).push(
                check_violation_view(v),
            ));
        }
    }
    assert(check_violation_views(violations@) =~= check_violation_views(after_block)
        + max_violation(iv.len(), or_else(overrides.max, config.check.max)));
    let ghost after_max = violations@;
    let max_new = match overrides.max_new {
        Some(m) => Some(m),
        None => config.check.max_new,
    };
    if let Some(m) = max_new {
        if let Some(d) = diff {
            if d.added_count > m {
                let mut msg = chars_of("New TODOs (");
                push_decimal(&mut msg, d.added_count as u64);
                push_str(&mut msg, ") exceeds max_new (");
                push_decimal(&mut msg, m as u64);
                msg.push(')');
                assert(msg@ =~= "New TODOs ("@ + decimal(d.added_count as nat) + ") exceeds max_new ("@
                    + decimal(m as nat) + seq![')']);
                let v = violation("max_new", &msg);
                violations.push(v);
                assert(check_violation_views(violations@) =~= check_violation_views(after_max).push(
                    check_violation_view(v),
                ));
            }
        }
    }
    let ghost added = match diff {
        Some(d) => Some(d.added_count),
        None => None,
    };
    assert(check_violation_views(violations@) =~= check_violation_views(after_max)
        + max_new_violation(added, or_else(overrides.max_new, config.check.max_new)));
    let ghost after_new = violations@;
    let check_expired = overrides.expired || match config.check.expired {
        Some(b) => b,
        None => false,
    };
    if check_expired {
        let mut j: usize = 0;
        while j < scan.items.len()
            invariant
                j <= scan.items@.len(),
                iv == item_views(scan.items@),
                check_violation_views(violations@) == check_violation_views(after_new)
                    + expired_violations(iv.take(j as int), *today),
            decreases scan.items@.len() - j,
        {
            let item = &scan.items[j];
            assert(iv.take(j + 1).drop_last() =~= iv.take(j as int));
            assert(iv.take(j + 1).last() == item@);
            if let Some(d) = &item.deadline {
                if d.is_expired(today) {
                    let mut msg = chars_of("Expired deadline ");
                    let dt = d.to_text();
                    push_all(&mut msg, &dt);
                    push_str(&mut msg, " in ");
                    push_str(&mut msg, item.file.as_str());
                    msg.push(':');
                    push_decimal(&mut msg, item.line as u64);
                    assert(msg@ =~= expired_message(*d, item@));
                    let v = violation("expired", &msg);
                    let ghost old = violations@;
                    violations.push(v);
                    assert(check_violation_views(violations@) =~= check_violation_views(old).push(
                        check_violation_view(v),
                    ));
                }
            }
            j += 1;
        }
        assert(iv.take(iv.len() as int) =~= iv);
    }
    assert(check_violation_views(violations@) =~= check_violations(
        iv,
        added,
        config,
        overrides,
        *today,
    ));
    let passed = violations.len() == 0;
    CheckResult { passed, total, violations }
}

// ───────────────────────── laws of the check rules ─────────────────────────

/// The items whose tag is blocked.
pub open spec fn blocked_items(items: Seq<TodoItemView>, blocked: Seq<Seq<char>>) -> Seq<TodoItemView> {
    items.filter(|v: TodoItemView| is_blocked(blocked, tag_name(v.tag)))
}

/// The items whose deadline lies strictly before `today`.
pub open spec fn expired_items(items: Seq<TodoItemView>, today: Deadline) -> Seq<TodoItemView> {
    items.filter(
        |v: TodoItemView|
            match v.deadline {
                Some(d) => date_lt(d, today),
                None => false,
            },
    )
}

/// Law: the `block_tags` violations are one per item whose tag is
/// blocked (the command-line and configured lists merged, case ignored), in
/// the order of the items.
pub proof fn lemma_block_violations_per_item(items: Seq<TodoItemView>, blocked: Seq<Seq<char>>)
    ensures
        block_violations(items, blocked) == blocked_items(items, blocked).map_values(
            |v: TodoItemView| ("block_tags"@, blocked_message(v)),
        ),
    decreases items.len(),
{
    reveal(Seq::filter);
    let f = |v: TodoItemView| ("block_tags"@, blocked_message(v));
    if items.len() == 0 {
        assert(blocked_items(items, blocked).map_values(f) =~= Seq::empty());
    } else {
        lemma_block_violations_per_item(items.drop_last(), blocked);
        let prev = blocked_items(items.drop_last(), blocked);
        assert(prev.push(items.last()).map_values(f) =~= prev.map_values(f).push(f(items.last())));
    }
}

/// Law: the `expired` violations are one per item whose deadline lies
/// strictly before today (a deadline of today itself has not passed), in the
/// order of the items.
pub proof fn lemma_expired_violations_per_item(items: Seq<TodoItemView>, today: Deadline)
    ensures
        expired_violations(items, today) == expired_items(items, today).map_values(
            |v: TodoItemView| ("expired"@, expired_message(v.deadline->0, v)),
        ),
        !date_lt(today, today),
    decreases items.len(),
{
    reveal(Seq::filter);
    let f = |v: TodoItemView| ("expired"@, expired_message(v.deadline->0, v));
    if items.len() == 0 {
        assert(expired_items(items, today).map_values(f) =~= Seq::empty());
    } else {
        lemma_expired_violations_per_item(items.drop_last(), today);
        let prev = expired_items(items.drop_last(), today);
        assert(prev.push(items.last()).map_values(f) =~= prev.map_values(f).push(f(items.last())));
    }
}

/// Law: the violations come in rule order — every `block_tags`
/// violation, then at most one `max` (exactly when a maximum is set, by the
/// command line first, and the item count exceeds it), then at most one
/// `max_new` (exactly when a maximum of new items is set, a diff was made,
/// and it added more), then the `expired` ones when deadline checking is on
/// (from the command line or the configuration); the result passes exactly
/// when there is none.
pub proof fn lemma_check_layout(
    items: Seq<TodoItemView>,
    added: Option<usize>,
    config: &Config,
    overrides: &CheckOverrides,
    today: Deadline,
)
    ensures
        check_violations(items, added, config, overrides, today) == blocked_items(
            items,
            blocked_tags(overrides, config),
        ).map_values(|v: TodoItemView| ("block_tags"@, blocked_message(v))) + max_violation(
            items.len(),
            or_else(overrides.max, config.check.max),
        ) + max_new_violation(added, or_else(overrides.max_new, config.check.max_new)) + if overrides.expired
            || config.check.expired == Some(true) {
            expired_items(items, today).map_values(|v: TodoItemView| ("expired"@, expired_message(v.deadline->0, v)))
        } else {
            Seq::empty()
        },
        max_violation(items.len(), or_else(overrides.max, config.check.max)).len() == (match or_else(
            overrides.max,
            config.check.max,
        ) {
            Some(m) => if items.len() > m {
                1int
            } else {
                0int
            },
            None => 0int,
        }),
        max_new_violation(added, or_else(overrides.max_new, config.check.max_new)).len() == (match (
            or_else(overrides.max_new, config.check.max_new),
            added,
        ) {
            (Some(m), Some(a)) => if a > m {
                1int
            } else {
                0int
            },
            _ => 0int,
        }),
        max_new_violation(None, or_else(overrides.max_new, config.check.max_new)).len() == 0,
{
    lemma_block_violations_per_item(items, blocked_tags(overrides, config));
    lemma_expired_violations_per_item(items, today);
}

} // verus!
