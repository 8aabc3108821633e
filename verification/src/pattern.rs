//! Regular expressions, through the `regex` crate.
//!
//! A [`Pattern`] is a compiled regular expression together with its source
//! text.  What the `regex` crate computes for a pattern and a haystack is
//! named by uninterpreted specification functions of the pattern's source and
//! the haystack: the library's contracts are stated over these names.
use vstd::prelude::*;

verus! {

#[verifier::external_type_specification]
#[verifier::external_body]
pub struct ExRegex(regex::Regex);

/// A compiled regular expression and the source it was compiled from.
pub struct Pattern {
    source: String,
    compiled: regex::Regex,
}

impl View for Pattern {
    type V = Seq<char>;

    /// A pattern is viewed as its source text.
    closed spec fn view(&self) -> Seq<char> {
        self.source@
    }
}

/// One capture group that took part in a match: the haystack's text before the
/// group, and the text of the group itself.
pub struct Group {
    pub before: String,
    pub text: String,
}

/// Plain view of one optional capture group.
pub open spec fn group_view(g: Option<Group>) -> Option<(Seq<char>, Seq<char>)> {
    match g {
        Some(g) => Some((g.before@, g.text@)),
        None => None,
    }
}

/// Plain view of the groups of one match (group 0 is the whole match).
pub open spec fn groups_view(gs: Seq<Option<Group>>) -> Seq<Option<(Seq<char>, Seq<char>)>> {
    gs.map_values(|g: Option<Group>| group_view(g))
}

/// Each participating group is a piece of the haystack, found where `before` ends.
pub open spec fn groups_fit(
    gs: Seq<Option<(Seq<char>, Seq<char>)>>,
    haystack: Seq<char>,
) -> bool {
    forall|i: int|
        0 <= i < gs.len() ==> (#[trigger] gs[i] matches Some((b, t)) ==> (b + t).len()
            <= haystack.len() && haystack.take((b + t).len() as int) == b + t)
}

/// Whether `regex::Regex::new` accepts the pattern source.
pub uninterp spec fn regex_accepts(source: Seq<char>) -> bool;

/// What `regex::Regex::captures` returns: the groups of the leftmost-first
/// match of the pattern in the haystack, or `None` when nothing matches.
pub uninterp spec fn regex_captures(
    source: Seq<char>,
    haystack: Seq<char>,
) -> Option<Seq<Option<(Seq<char>, Seq<char>)>>>;

/// What `regex::Regex::captures_iter` yields: the groups of every successive
/// non-overlapping match, leftmost first.
pub uninterp spec fn regex_captures_all(
    source: Seq<char>,
    haystack: Seq<char>,
) -> Seq<Seq<Option<(Seq<char>, Seq<char>)>>>;

/// `regex::Regex::new`: compiles `source`; `None` when the crate rejects it.
/// The contract names the outcome and says the pattern keeps its source text.
#[verifier::external_body]
fn regex_new(source: &str) -> (res: Option<Pattern>)
    ensures
        res is Some <==> regex_accepts(source@),
        res matches Some(p) ==> p@ == source@,
{
    match regex::Regex::new(source) {
        Ok(r) => Some(Pattern { source: source.to_string(), compiled: r }),
        Err(_) => None,
    }
}

/// `regex::Regex::captures`: the capture groups of the first match in
/// `haystack`, as the text before each group and the group's text.  The
/// contract names the result, and states that each group is a piece of the
/// haystack found right after its `before` text.
#[verifier::external_body]
fn regex_captures_exec(p: &Pattern, haystack: &str) -> (res: Option<Vec<Option<Group>>>)
    ensures
        match res {
            Some(gs) => regex_captures(p@, haystack@) == Some(groups_view(gs@)) && groups_fit(
                groups_view(gs@),
                haystack@,
            ),
            None => regex_captures(p@, haystack@) is None,
        },
{
    p.compiled.captures(haystack).map(|caps| {
        caps.iter().map(|m| m.map(|m| Group {
            before: haystack[..m.start()].to_string(),
            text: m.as_str().to_string(),
        })).collect()
    })
}

/// `regex::Regex::captures_iter`: the capture groups of every match, in order.
/// The contract names the result, and states that each group is a piece of
/// the haystack found right after its `before` text.
#[verifier::external_body]
fn regex_captures_iter_exec(p: &Pattern, haystack: &str) -> (res: Vec<Vec<Option<Group>>>)
    ensures
        regex_captures_all(p@, haystack@) == res@.map_values(
            |gs: Vec<Option<Group>>| groups_view(gs@),
        ),
        forall|k: int| 0 <= k < res@.len() ==> groups_fit(groups_view(#[trigger] res@[k]@), haystack@),
{
    p.compiled.captures_iter(haystack).map(|caps| {
        caps.iter().map(|m| m.map(|m| Group {
            before: haystack[..m.start()].to_string(),
            text: m.as_str().to_string(),
        })).collect()
    }).collect()
}

impl Pattern {
    /// Compile a regular expression; `None` when the `regex` crate rejects it.
    pub fn new(source: &str) -> (res: Option<Pattern>)
        ensures
            res is Some <==> regex_accepts(source@),
            res matches Some(p) ==> p@ == source@,
    {
        regex_new(source)
    }

    /// Capture groups of the first match of the pattern in `haystack`.
    pub fn captures(&self, haystack: &str) -> (res: Option<Vec<Option<Group>>>)
        ensures
            match res {
                Some(gs) => regex_captures(self@, haystack@) == Some(groups_view(gs@)),
                None => regex_captures(self@, haystack@) is None,
            },
    {
        regex_captures_exec(self, haystack)
    }

    /// Capture groups of every match of the pattern in `haystack`, in order.
    pub fn captures_all(&self, haystack: &str) -> (res: Vec<Vec<Option<Group>>>)
        ensures
            regex_captures_all(self@, haystack@) == res@.map_values(
                |gs: Vec<Option<Group>>| groups_view(gs@),
            ),
    {
        regex_captures_iter_exec(self, haystack)
    }
}

} // verus!
