//! Searching TODO messages and issue references for a query.
use vstd::prelude::*;

use crate::model::{clone_items, item_views, ScanResult, SearchResult, TodoItem, TodoItemView};
use crate::stats::{item_files, tally, tally_strings};
use crate::text::{
    all_ascii, ascii_lower, chars_of, contains, contains_exec, find_from, lemma_find_from_spec, lowercase, occurs_at,
    string_from_chars, to_lowercase,
};

verus! {

/// Whether `text` contains `query`: as written when `exact`, else ignoring case.
pub open spec fn text_matches(text: Seq<char>, query: Seq<char>, exact: bool) -> bool {
    if exact {
        contains(text, query)
    } else {
        contains(lowercase(text), lowercase(query))
    }
}

/// An item matches when its message or its issue reference contains the query.
pub open spec fn item_matches(v: TodoItemView, query: Seq<char>, exact: bool) -> bool {
    text_matches(v.message, query, exact) || match v.issue_ref {
        Some(r) => text_matches(r, query, exact),
        None => false,
    }
}

/// The matching items, in order.
pub open spec fn matching_items(items: Seq<TodoItemView>, query: Seq<char>, exact: bool) -> Seq<TodoItemView>
    decreases items.len(),
{
    if items.len() == 0 {
        seq![]
    } else {
        let rest = matching_items(items.drop_last(), query, exact);
        if item_matches(items.last(), query, exact) {
            rest.push(items.last())
        } else {
            rest
        }
    }
}

fn text_matches_exec(text: &str, query: &[char], lower_query: &[char], exact: bool) -> (res: bool)
    requires
        lower_query@ == lowercase(query@),
    ensures
        res == text_matches(text@, query@, exact),
{
    let t = chars_of(text);
    if exact {
        contains_exec(&t, query)
    } else {
        let lt = to_lowercase(&t);
        contains_exec(&lt, lower_query)
    }
}

/// Whether an item's message or issue reference contains the query.
pub fn matches_query(item: &TodoItem, query: &str, exact: bool) -> (res: bool)
    ensures
        res == item_matches(item@, query@, exact),
{
    let q = chars_of(query);
    let lq = to_lowercase(&q);
    text_matches_exec(item.message.as_str(), &q, &lq, exact) || match &item.issue_ref {
        Some(r) => text_matches_exec(r.as_str(), &q, &lq, exact),
        None => false,
    }
}

/// Search the items of a scan.  `match_count` is the number of matching items
/// and `file_count` the number of distinct files among them.
pub fn search_items(scan: &ScanResult, query: &str, exact: bool) -> (res: SearchResult)
    ensures
        res.query@ == query@,
        res.exact == exact,
        item_views(res.items@) == matching_items(item_views(scan.items@), query@, exact),
        res.match_count == res.items@.len(),
        res.file_count == tally(item_files(matching_items(item_views(scan.items@), query@, exact))).len(),
{
    let ghost vs = item_views(scan.items@);
    let mut items: Vec<TodoItem> = Vec::new();
    let mut i: usize = 0;
    assert(vs.take(0) =~= Seq::<TodoItemView>::empty());
    while i < scan.items.len()
        invariant
            vs == item_views(scan.items@),
            i <= scan.items@.len(),
            item_views(items@) == matching_items(vs.take(i as int), query@, exact),
        decreases scan.items@.len() - i,
    {
        assert(vs.take(i + 1).drop_last() =~= vs.take(i as int));
        assert(vs.take(i + 1).last() == scan.items@[i as int]@);
        if matches_query(&scan.items[i], query, exact) {
            let d = scan.items[i].duplicate();
            let ghost old = items@;
            items.push(d);
            assert(item_views(items@) =~= item_views(old).push(d@));
        }
        i += 1;
    }
    assert(vs.take(scan.items@.len() as int) =~= vs);
    let mut files: Vec<String> = Vec::new();
    let mut k: usize = 0;
    while k < items.len()
        invariant
            k <= items@.len(),
            files@.len() == k,
            forall|j: int| 0 <= j < k ==> (#[trigger] files@[j])@ == items@[j].file@,
        decreases items@.len() - k,
    {
        files.push(items[k].file.clone());
        k += 1;
    }
    assert(files@.map_values(|s: String| s@) =~= item_files(item_views(items@)));
    let file_count = tally_strings(&files).len();
    let match_count = items.len();
    SearchResult { query: string_from_chars(&chars_of(query)), exact, items, match_count, file_count }
}

// ───────────────────────── laws of matching ─────────────────────────

/// A text contains itself.
proof fn lemma_contains_self(s: Seq<char>)
    ensures
        contains(s, s),
{
    assert(s.subrange(0, s.len() as int) =~= s);
    assert(occurs_at(s, s, 0));
}

/// An occurrence anywhere makes `contains` hold.
proof fn lemma_occurrence_contains(s: Seq<char>, pat: Seq<char>, k: int)
    requires
        occurs_at(s, pat, k),
    ensures
        contains(s, pat),
{
    lemma_find_from_spec(s, pat, 0);
}

/// Law: outside exact mode the case of the query does not matter: two
/// queries that are equal up to case find exactly the same texts.
pub proof fn lemma_query_case_ignored(text: Seq<char>, q1: Seq<char>, q2: Seq<char>)
    requires
        lowercase(q1) == lowercase(q2),
    ensures
        text_matches(text, q1, false) == text_matches(text, q2, false),
{
}

/// Law: outside exact mode a text matches every query equal to it up to
/// case, and on ASCII text every case-sensitive hit is also a hit when case
/// is ignored.
pub proof fn lemma_case_insensitive_hits(text: Seq<char>, query: Seq<char>)
    ensures
        lowercase(text) == lowercase(query) ==> text_matches(text, query, false),
        all_ascii(text) && text_matches(text, query, true) ==> text_matches(text, query, false),
{
    if lowercase(text) == lowercase(query) {
        lemma_contains_self(lowercase(text));
    }
    if all_ascii(text) && text_matches(text, query, true) {
        lemma_find_from_spec(text, query, 0);
        let k = find_from(text, query, 0)->0 as int;
        assert(occurs_at(text, query, k));
        let n = query.len() as int;
        assert(text.subrange(k, k + n) == query);
        assert(all_ascii(query)) by {
            assert forall|i: int| 0 <= i < query.len() implies query[i] <= '\u{7f}' by {
                assert(query[i] == text[k + i]);
            }
        }
        let lt = text.map_values(|c: char| ascii_lower(c));
        let lq = query.map_values(|c: char| ascii_lower(c));
        assert(lowercase(text) == lt);
        assert(lowercase(query) == lq);
        assert(lt.subrange(k, k + n) =~= lq) by {
            assert forall|i: int| 0 <= i < n implies lt.subrange(k, k + n)[i] == lq[i] by {
                assert(query[i] == text[k + i]);
            }
        }
        lemma_occurrence_contains(lt, lq, k);
    }
}

/// Law: in exact mode a text matches exactly when the query occurs in it
/// at some position, character for character; otherwise exactly when the
/// lower-cased query occurs in the lower-cased text.
pub proof fn lemma_match_is_occurrence(text: Seq<char>, query: Seq<char>)
    ensures
        text_matches(text, query, true) <==> exists|k: int| occurs_at(text, query, k),
        text_matches(text, query, false) <==> exists|k: int| occurs_at(lowercase(text), lowercase(query), k),
{
    lemma_find_from_spec(text, query, 0);
    lemma_find_from_spec(lowercase(text), lowercase(query), 0);
    if text_matches(text, query, true) {
        let k = find_from(text, query, 0)->0 as int;
        assert(occurs_at(text, query, k));
    }
    if text_matches(text, query, false) {
        let k = find_from(lowercase(text), lowercase(query), 0)->0 as int;
        assert(occurs_at(lowercase(text), lowercase(query), k));
    }
}

} // verus!
