//! Configuration (`.todo-scan.toml`) and the tag pattern built from it.
use std::collections::HashMap;

use vstd::prelude::*;

use crate::text::{chars_of, push_all, push_str, string_from_chars};

verus! {

/// Configuration of the TODO tracker.
#[derive(Debug)]
pub struct Config {
    /// Tags to scan for (e.g., TODO, FIXME, HACK)
    pub tags: Vec<String>,
    /// Directory names to skip during scanning
    pub exclude_dirs: Vec<String>,
    /// Regex patterns; matching file paths are excluded
    pub exclude_patterns: Vec<String>,
    /// CI gate check settings
    pub check: CheckConfig,
    /// Git blame analysis settings
    pub blame: BlameConfig,
    /// Lint rule settings
    pub lint: LintConfig,
    /// Clean detection settings
    pub clean: CleanConfig,
    /// Workspace/monorepo settings
    pub workspace: WorkspaceConfig,
}

/// CI gate check settings
#[derive(Debug, Default)]
pub struct CheckConfig {
    /// Maximum total TODOs allowed
    pub max: Option<usize>,
    /// Maximum new TODOs allowed (requires --since)
    pub max_new: Option<usize>,
    /// Tags that cause check to fail immediately
    pub block_tags: Vec<String>,
    /// Fail if any TODOs have expired deadlines
    pub expired: Option<bool>,
}

/// Git blame analysis settings
#[derive(Debug, Default)]
pub struct BlameConfig {
    /// Duration threshold for marking TODOs as stale (e.g., "180d")
    pub stale_threshold: Option<String>,
}

/// Lint rule settings for TODO comment formatting
#[derive(Debug, Default)]
pub struct LintConfig {
    /// Reject TODOs with empty message (default: true)
    pub no_bare_tags: Option<bool>,
    /// Enforce max message character count
    pub max_message_length: Option<usize>,
    /// Require (author) for specified tags
    pub require_author: Option<Vec<String>>,
    /// Require issue ref (#N) for specified tags
    pub require_issue_ref: Option<Vec<String>>,
    /// Enforce uppercase tag names (default: true)
    pub uppercase_tag: Option<bool>,
    /// Enforce colon after tag (default: true)
    pub require_colon: Option<bool>,
}

/// Clean detection settings for stale issues and duplicates
#[derive(Debug, Default)]
pub struct CleanConfig {
    /// Enable stale issue detection (default: true)
    pub stale_issues: Option<bool>,
    /// Enable duplicate detection (default: true)
    pub duplicates: Option<bool>,
    /// Only flag issues closed longer than this duration (e.g., "30d")
    pub since: Option<String>,
}

/// Workspace/monorepo settings
#[derive(Debug, Default)]
pub struct WorkspaceConfig {
    /// Enable automatic workspace detection (default: true)
    pub auto_detect: Option<bool>,
    /// Per-package check configuration
    pub packages: HashMap<String, PackageCheckConfig>,
}

/// Per-package check configuration
#[derive(Debug, Default)]
pub struct PackageCheckConfig {
    /// Maximum total TODOs allowed for this package
    pub max: Option<usize>,
    /// Tags that cause check to fail for this package
    pub block_tags: Vec<String>,
}

/// Views of a vector of strings.
pub open spec fn string_views(v: Seq<String>) -> Seq<Seq<char>> {
    v.map_values(|s: String| s@)
}

/// The default tags: TODO, FIXME, HACK, XXX, BUG, NOTE.
pub open spec fn default_tags() -> Seq<Seq<char>> {
    seq![
        seq!['T', 'O', 'D', 'O'],
        seq!['F', 'I', 'X', 'M', 'E'],
        seq!['H', 'A', 'C', 'K'],
        seq!['X', 'X', 'X'],
        seq!['B', 'U', 'G'],
        seq!['N', 'O', 'T', 'E'],
    ]
}

fn string_of(v: Vec<char>) -> (res: String)
    ensures
        res@ == v@,
{
    string_from_chars(&v)
}

impl Default for Config {
    fn default() -> (res: Self)
        ensures
            string_views(res.tags@) == default_tags(),
            res.exclude_dirs@.len() == 0,
            res.exclude_patterns@.len() == 0,
            res.check.max is None,
            res.check.max_new is None,
            res.check.block_tags@.len() == 0,
            res.check.expired is None,
            res.blame.stale_threshold is None,
            res.lint.no_bare_tags is None,
            res.lint.max_message_length is None,
            res.lint.require_author is None,
            res.lint.require_issue_ref is None,
            res.lint.uppercase_tag is None,
            res.lint.require_colon is None,
            res.clean.stale_issues is None,
            res.clean.duplicates is None,
            res.clean.since is None,
            res.workspace.auto_detect is None,
            res.workspace.packages@.len() == 0,
    {
        let tags = vec![
            string_of(vec!['T', 'O', 'D', 'O']),
            string_of(vec!['F', 'I', 'X', 'M', 'E']),
            string_of(vec!['H', 'A', 'C', 'K']),
            string_of(vec!['X', 'X', 'X']),
            string_of(vec!['B', 'U', 'G']),
            string_of(vec!['N', 'O', 'T', 'E']),
        ];
        assert(string_views(tags@) =~= default_tags());
        Config {
            tags,
            exclude_dirs: Vec::new(),
            exclude_patterns: Vec::new(),
            check: CheckConfig { max: None, max_new: None, block_tags: Vec::new(), expired: None },
            blame: BlameConfig { stale_threshold: None },
            lint: LintConfig {
                no_bare_tags: None,
                max_message_length: None,
                require_author: None,
                require_issue_ref: None,
                uppercase_tag: None,
                require_colon: None,
            },
            clean: CleanConfig { stale_issues: None, duplicates: None, since: None },
            workspace: WorkspaceConfig { auto_detect: None, packages: HashMap::new() },
        }
    }
}

/// A regex meta character (`regex_syntax::is_meta_character`).
pub open spec fn is_meta_character(c: char) -> bool {
    c == '\\' || c == '.' || c == '+' || c == '*' || c == '?' || c == '(' || c == ')' || c == '|'
        || c == '[' || c == ']' || c == '{' || c == '}' || c == '^' || c == '$' || c == '#' || c
        == '&' || c == '-' || c == '~'
}

/// `regex::escape`: a backslash before every meta character.
pub open spec fn regex_escaped(s: Seq<char>) -> Seq<char>
    decreases s.len(),
{
    if s.len() == 0 {
        Seq::empty()
    } else {
        regex_escaped(s.drop_last()) + if is_meta_character(s.last()) {
            seq!['\\', s.last()]
        } else {
            seq![s.last()]
        }
    }
}

fn is_meta_character_exec(c: char) -> (res: bool)
    ensures
        res == is_meta_character(c),
{
    c == '\\' || c == '.' || c == '+' || c == '*' || c == '?' || c == '(' || c == ')' || c == '|'
        || c == '[' || c == ']' || c == '{' || c == '}' || c == '^' || c == '$' || c == '#' || c
        == '&' || c == '-' || c == '~'
}

/// The text with a backslash put before each of the regex meta characters
/// `\ . + * ? ( ) | [ ] { } ^ $ # & - ~`, so that it matches itself literally
/// (what `regex::escape` does).
fn regex_escape(s: &str) -> (res: String)
    ensures
        res@ == regex_escaped(s@),
{
    let cs = chars_of(s);
    let mut out: Vec<char> = Vec::new();
    let mut i: usize = 0;
    while i < cs.len()
        invariant
            cs@ == s@,
            i <= cs@.len(),
            out@ == regex_escaped(cs@.take(i as int)),
        decreases cs@.len() - i,
    {
        let c = cs[i];
        assert(cs@.take(i + 1).drop_last() =~= cs@.take(i as int));
        if is_meta_character_exec(c) {
            out.push('\\');
        }
        out.push(c);
        assert(out@ =~= regex_escaped(cs@.take(i + 1)));
        i += 1;
    }
    assert(cs@.take(cs@.len() as int) =~= cs@);
    string_from_chars(&out)
}

/// The escaped tags joined by `|`.
pub open spec fn tags_alternation(tags: Seq<Seq<char>>) -> Seq<char>
    decreases tags.len(),
{
    if tags.len() == 0 {
        Seq::empty()
    } else if tags.len() == 1 {
        regex_escaped(tags[0])
    } else {
        tags_alternation(tags.drop_last()) + seq!['|'] + regex_escaped(tags.last())
    }
}

/// Text of the tag pattern before the alternation of tags.
pub open spec fn tags_pattern_head() -> Seq<char> {
    "(?i)\\b("@
}

/// Text of the tag pattern after the alternation of tags: word boundary,
/// optional `(...)`, optional colon, optional `!`/`!!`, then the message.
pub open spec fn tags_pattern_tail() -> Seq<char> {
    ")\\b(?:\\(([^)]+)\\))?:?\\s*(!{1,2})?\\s*(.*)$"@
}

/// The tag pattern for a list of tags.
pub open spec fn tags_pattern_of(tags: Seq<Seq<char>>) -> Seq<char> {
    tags_pattern_head() + tags_alternation(tags) + tags_pattern_tail()
}

impl Config {
    /// Build the regex pattern from the configured tags; each tag is escaped so
    /// that config values cannot inject regex syntax.
    pub fn tags_pattern(&self) -> (res: String)
        ensures
            res@ == tags_pattern_of(string_views(self.tags@)),
    {
        let mut out = chars_of("(?i)\\b(");
        let ghost tv = string_views(self.tags@);
        let mut i: usize = 0;
        while i < self.tags.len()
            invariant
                i <= self.tags@.len(),
                tv == string_views(self.tags@),
                out@ == tags_pattern_head() + tags_alternation(tv.take(i as int)),
            decreases self.tags@.len() - i,
        {
            let ghost before = out@;
            if i > 0 {
                out.push('|');
            }
            let esc = regex_escape(self.tags[i].as_str());
            push_str(&mut out, esc.as_str());
            proof {
                assert(tv.take(i + 1).drop_last() =~= tv.take(i as int));
                assert(tv[i as int] == self.tags@[i as int]@);
                if i == 0 {
                    assert(tv.take(1).len() == 1);
                    assert(tags_alternation(tv.take(0)) =~= Seq::empty());
                    assert(out@ =~= tags_pattern_head() + tags_alternation(tv.take(1)));
                } else {
                    assert(out@ =~= tags_pattern_head() + tags_alternation(tv.take(i + 1)));
                }
            }
            i += 1;
        }
        assert(tv.take(self.tags@.len() as int) =~= tv);
        push_str(&mut out, ")\\b(?:\\(([^)]+)\\))?:?\\s*(!{1,2})?\\s*(.*)$");
        assert(out@ =~= tags_pattern_of(tv));
        string_from_chars(&out)
    }
}

} // verus!
