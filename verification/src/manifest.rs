//! Manifests parsed by the `toml` and `serde_json` crates, held as plain
//! trees, and what the workspace detectors read from them: the member
//! patterns of a Cargo or npm workspace and the projects of an Nx workspace.
use vstd::prelude::*;

use crate::config::string_views;
use crate::text::str_to_string;

verus! {

#[verifier::external_type_specification]
#[verifier::external_body]
pub struct ExTomlValue(toml::Value);

#[verifier::external_type_specification]
#[verifier::external_body]
pub struct ExJsonValue(serde_json::Value);

/// A parsed document value: a string, an integer, a boolean, null, a list,
/// a table of named entries (in the order the parser keeps them), or a
/// value the library does not hold (a float, a date, a number beyond `i64`).
pub enum Doc {
    Text(String),
    Int(i64),
    Bool(bool),
    Null,
    List(Vec<Doc>),
    Table(Vec<(String, Doc)>),
    Other,
}

/// What `toml::from_str::<toml::Value>` gives for a text, as a [`Doc`], or
/// the text of its error.
pub uninterp spec fn toml_document(text: Seq<char>) -> Result<Doc, Seq<char>>;

/// What `serde_json::from_str::<serde_json::Value>` gives for a text, as a
/// [`Doc`], or the text of its error.
pub uninterp spec fn json_document(text: Seq<char>) -> Result<Doc, Seq<char>>;

/// What `serde_json::from_slice::<serde_json::Value>` gives for bytes, as a
/// [`Doc`]; `None` when it reports an error.
pub uninterp spec fn json_document_bytes(bytes: Seq<u8>) -> Option<Doc>;

/// A `toml::Value` as a [`Doc`], variant by variant: strings, integers and
/// booleans keep their value, arrays and tables their elements (converted
/// the same way, in the table's order); floats and datetimes, which the
/// library does not hold, become `Other`.
#[verifier::external_body]
fn doc_of_toml(v: toml::Value) -> Doc {
    match v {
        toml::Value::String(s) => Doc::Text(s),
        toml::Value::Integer(n) => Doc::Int(n),
        toml::Value::Boolean(b) => Doc::Bool(b),
        toml::Value::Float(_) => Doc::Other,
        toml::Value::Datetime(_) => Doc::Other,
        toml::Value::Array(a) => Doc::List(a.into_iter().map(doc_of_toml).collect()),
        toml::Value::Table(t) => Doc::Table(t.into_iter().map(|(k, x)| (k, doc_of_toml(x))).collect()),
    }
}

/// A `serde_json::Value` as a [`Doc`], variant by variant: strings and
/// booleans keep their value, null stays null, arrays and objects their
/// elements (converted the same way, in the object's order); numbers, which
/// may be floats, become `Other`.
#[verifier::external_body]
fn doc_of_json(v: serde_json::Value) -> Doc {
    match v {
        serde_json::Value::Null => Doc::Null,
        serde_json::Value::Bool(b) => Doc::Bool(b),
        serde_json::Value::Number(_) => Doc::Other,
        serde_json::Value::String(s) => Doc::Text(s),
        serde_json::Value::Array(a) => Doc::List(a.into_iter().map(doc_of_json).collect()),
        serde_json::Value::Object(o) => Doc::Table(o.into_iter().map(|(k, x)| (k, doc_of_json(x))).collect()),
    }
}

/// `toml::from_str::<toml::Value>`, the value converted by [`doc_of_toml`];
/// on an error, its text.  The contract names the outcome.
#[verifier::external_body]
fn parse_toml(text: &str) -> (res: Result<Doc, String>)
    ensures
        match res {
            Ok(d) => toml_document(text@) == Ok::<Doc, Seq<char>>(d),
            Err(e) => toml_document(text@) == Err::<Doc, Seq<char>>(e@),
        },
{
    match toml::from_str::<toml::Value>(text) {
        Ok(v) => Ok(doc_of_toml(v)),
        Err(e) => Err(e.to_string()),
    }
}

/// `serde_json::from_str::<serde_json::Value>`, the value converted by
/// [`doc_of_json`]; on an error, its text.  The contract names the outcome.
#[verifier::external_body]
fn parse_json(text: &str) -> (res: Result<Doc, String>)
    ensures
        match res {
            Ok(d) => json_document(text@) == Ok::<Doc, Seq<char>>(d),
            Err(e) => json_document(text@) == Err::<Doc, Seq<char>>(e@),
        },
{
    match serde_json::from_str::<serde_json::Value>(text) {
        Ok(v) => Ok(doc_of_json(v)),
        Err(e) => Err(e.to_string()),
    }
}

/// `serde_json::from_slice::<serde_json::Value>`, the value converted by
/// [`doc_of_json`]; `None` on an error.  The contract names the outcome.
#[verifier::external_body]
pub(crate) fn parse_json_bytes(bytes: &[u8]) -> (res: Option<Doc>)
    ensures
        res == json_document_bytes(bytes@),
{
    match serde_json::from_slice::<serde_json::Value>(bytes) {
        Ok(v) => Some(doc_of_json(v)),
        Err(_) => None,
    }
}

// ───────────────────────── reading a document ─────────────────────────

/// The first entry of `es` named `key`.
pub open spec fn entry_in(es: Seq<(String, Doc)>, key: Seq<char>) -> Option<Doc>
    decreases es.len(),
{
    if es.len() == 0 {
        None
    } else if es[0].0@ == key {
        Some(es[0].1)
    } else {
        entry_in(es.drop_first(), key)
    }
}

/// The entry named `key` of a table; `None` for a missing entry or a value
/// that is no table.
pub open spec fn entry(d: Doc, key: Seq<char>) -> Option<Doc> {
    match d {
        Doc::Table(es) => entry_in(es@, key),
        _ => None,
    }
}

/// The entry named `key` of a value that may be missing.
pub open spec fn entry_of_opt(d: Option<Doc>, key: Seq<char>) -> Option<Doc> {
    match d {
        Some(x) => entry(x, key),
        None => None,
    }
}

/// The text of a value that is a string.
pub open spec fn text_value(d: Option<Doc>) -> Option<Seq<char>> {
    match d {
        Some(Doc::Text(s)) => Some(s@),
        _ => None,
    }
}

/// The strings of a list, in order; elements that are no string are skipped.
pub open spec fn texts_of(items: Seq<Doc>) -> Seq<Seq<char>>
    decreases items.len(),
{
    if items.len() == 0 {
        seq![]
    } else {
        let rest = texts_of(items.drop_last());
        match items.last() {
            Doc::Text(s) => rest.push(s@),
            _ => rest,
        }
    }
}

/// The strings of a value that is a list; `None` for a missing value or one
/// that is no list.
pub open spec fn list_texts(d: Option<Doc>) -> Option<Seq<Seq<char>>> {
    match d {
        Some(Doc::List(v)) => Some(texts_of(v@)),
        _ => None,
    }
}

/// The entries of a table whose value is a string, as (name, string), in order.
pub open spec fn named_texts(es: Seq<(String, Doc)>) -> Seq<(Seq<char>, Seq<char>)>
    decreases es.len(),
{
    if es.len() == 0 {
        seq![]
    } else {
        let rest = named_texts(es.drop_last());
        match es.last().1 {
            Doc::Text(s) => rest.push((es.last().0@, s@)),
            _ => rest,
        }
    }
}

fn entry_exec<'a>(d: &'a Doc, key: &str) -> (res: Option<&'a Doc>)
    ensures
        match res {
            Some(r) => entry(*d, key@) == Some(*r),
            None => entry(*d, key@) is None,
        },
{
    let k = str_to_string(key);
    match d {
        Doc::Table(es) => {
            let mut i: usize = 0;
            assert(es@.skip(0) =~= es@);
            assert(entry(*d, key@) == entry_in(es@, key@));
            while i < es.len()
                invariant
                    i <= es@.len(),
                    k@ == key@,
                    entry(*d, key@) == entry_in(es@, key@),
                    entry_in(es@, key@) == entry_in(es@.skip(i as int), key@),
                decreases es@.len() - i,
            {
                assert(es@.skip(i as int)[0] == es@[i as int]);
                assert(es@.skip(i as int).drop_first() =~= es@.skip(i + 1));
                if es[i].0 == k {
                    assert(es@[i as int].0@ == key@);
                    assert(entry_in(es@.skip(i as int), key@) == Some(es@[i as int].1));
                    return Some(&es[i].1);
                }
                i += 1;
            }
            assert(es@.skip(i as int) =~= Seq::<(String, Doc)>::empty());
            None
        },
        _ => None,
    }
}

fn texts_exec(v: &Vec<Doc>) -> (res: Vec<String>)
    ensures
        string_views(res@) == texts_of(v@),
{
    let mut res: Vec<String> = Vec::new();
    let mut i: usize = 0;
    while i < v.len()
        invariant
            i <= v@.len(),
            string_views(res@) == texts_of(v@.take(i as int)),
        decreases v@.len() - i,
    {
        assert(v@.take(i + 1).drop_last() =~= v@.take(i as int));
        assert(v@.take(i + 1).last() == v@[i as int]);
        match &v[i] {
            Doc::Text(s) => {
                let ghost before = string_views(res@);
                res.push(s.clone());
                assert(string_views(res@) =~= before.push(s@));
            },
            _ => {},
        }
        i += 1;
    }
    assert(v@.take(v@.len() as int) =~= v@);
    res
}

fn named_texts_exec(es: &Vec<(String, Doc)>) -> (res: Vec<(String, String)>)
    ensures
        res@.map_values(|p: (String, String)| (p.0@, p.1@)) == named_texts(es@),
{
    let mut res: Vec<(String, String)> = Vec::new();
    let mut i: usize = 0;
    while i < es.len()
        invariant
            i <= es@.len(),
            res@.map_values(|p: (String, String)| (p.0@, p.1@)) == named_texts(es@.take(i as int)),
        decreases es@.len() - i,
    {
        assert(es@.take(i + 1).drop_last() =~= es@.take(i as int));
        assert(es@.take(i + 1).last() == es@[i as int]);
        match &es[i].1 {
            Doc::Text(s) => {
                let ghost before = res@.map_values(|p: (String, String)| (p.0@, p.1@));
                res.push((es[i].0.clone(), s.clone()));
                assert(res@.map_values(|p: (String, String)| (p.0@, p.1@)) =~= before.push(
                    (es@[i as int].0@, s@),
                ));
            },
            _ => {},
        }
        i += 1;
    }
    assert(es@.take(es@.len() as int) =~= es@);
    res
}

/// The text of the entry `key` of a value, when it is a string.
pub(crate) fn entry_text<'a>(d: &'a Doc, key: &str) -> (res: Option<&'a str>)
    ensures
        match res {
            Some(s) => text_value(entry(*d, key@)) == Some(s@),
            None => text_value(entry(*d, key@)) is None,
        },
{
    match entry_exec(d, key) {
        Some(Doc::Text(s)) => Some(s.as_str()),
        _ => None,
    }
}

// ───────────────────────── workspace manifests ─────────────────────────

pub open spec fn opt_texts(m: Option<Vec<String>>) -> Option<Seq<Seq<char>>> {
    match m {
        Some(v) => Some(string_views(v@)),
        None => None,
    }
}

pub open spec fn opt_pairs(m: Option<Vec<(String, String)>>) -> Option<Seq<(Seq<char>, Seq<char>)>> {
    match m {
        Some(v) => Some(v@.map_values(|p: (String, String)| (p.0@, p.1@))),
        None => None,
    }
}

/// The member patterns of a Cargo workspace: the strings of
/// `workspace.members`, when that is a list.
pub open spec fn cargo_members_of(doc: Doc) -> Option<Seq<Seq<char>>> {
    list_texts(entry_of_opt(entry(doc, "workspace"@), "members"@))
}

/// The workspace patterns of an npm package: the strings of `workspaces`,
/// when that is a list.
pub open spec fn npm_patterns_of(doc: Doc) -> Option<Seq<Seq<char>>> {
    list_texts(entry(doc, "workspaces"@))
}

/// The projects of an Nx workspace: the (name, path) entries of `projects`
/// whose value is a string, when `projects` is a table.
pub open spec fn nx_projects_of(doc: Doc) -> Option<Seq<(Seq<char>, Seq<char>)>> {
    match entry(doc, "projects"@) {
        Some(Doc::Table(es)) => Some(named_texts(es@)),
        _ => None,
    }
}

/// The member patterns that a `Cargo.toml` text declares (`None` when it
/// declares no workspace member list), or the parser's error.
pub fn cargo_workspace_members(manifest: &str) -> (res: Result<Option<Vec<String>>, String>)
    ensures
        match toml_document(manifest@) {
            Ok(d) => res matches Ok(m) && opt_texts(m) == cargo_members_of(d),
            Err(e) => res matches Err(msg) && msg@ == e,
        },
{
    let doc = match parse_toml(manifest) {
        Ok(d) => d,
        Err(e) => return Err(e),
    };
    let ws = match entry_exec(&doc, "workspace") {
        Some(w) => w,
        None => return Ok(None),
    };
    match entry_exec(ws, "members") {
        Some(Doc::List(v)) => Ok(Some(texts_exec(v))),
        _ => Ok(None),
    }
}

/// The workspace patterns that a `package.json` text declares (`None` when
/// it declares no workspace list), or the parser's error.
pub fn npm_workspace_patterns(manifest: &str) -> (res: Result<Option<Vec<String>>, String>)
    ensures
        match json_document(manifest@) {
            Ok(d) => res matches Ok(m) && opt_texts(m) == npm_patterns_of(d),
            Err(e) => res matches Err(msg) && msg@ == e,
        },
{
    let doc = match parse_json(manifest) {
        Ok(d) => d,
        Err(e) => return Err(e),
    };
    match entry_exec(&doc, "workspaces") {
        Some(Doc::List(v)) => Ok(Some(texts_exec(v))),
        _ => Ok(None),
    }
}

/// The (name, path) projects that a `workspace.json` text declares (`None`
/// when it has no `projects` table), or the parser's error.
pub fn nx_projects(manifest: &str) -> (res: Result<Option<Vec<(String, String)>>, String>)
    ensures
        match json_document(manifest@) {
            Ok(d) => res matches Ok(m) && opt_pairs(m) == nx_projects_of(d),
            Err(e) => res matches Err(msg) && msg@ == e,
        },
{
    let doc = match parse_json(manifest) {
        Ok(d) => d,
        Err(e) => return Err(e),
    };
    match entry_exec(&doc, "projects") {
        Some(Doc::Table(es)) => Ok(Some(named_texts_exec(es))),
        _ => Ok(None),
    }
}

} // verus!
