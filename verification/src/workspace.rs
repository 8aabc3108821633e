//! Monorepo workspace detection: the package lists of `pnpm-workspace.yaml`
//! and `go.work`, member patterns, glob expansion over candidate
//! directories, and the ordering of the packages found.
//!
//! Reading manifests and listing directories belong to the command-line
//! tool, which hands this module file contents and directory names.
use std::collections::HashMap;

use vstd::prelude::*;

use crate::cmd::filter::{glob_usable, glob_is_match, glob_matches, compile_glob};
use crate::config::{string_views, Config, PackageCheckConfig};
use crate::model::{PackageInfo, WorkspaceInfo, WorkspaceKind};
use crate::sorting::{lemma_lex_antisym, lemma_lex_total, lemma_lex_trans, lex_le, lex_le_exec, sort_by_order, Order};
use crate::text::{
    chars_eq, chars_of, join_with, join_with_exec, split_lines, split_lines_exec, split_on, split_on_exec, starts_with,
    starts_with_exec, string_from_chars, sub_chars, trim, trim_chars, views,
};

verus! {

broadcast use vstd::seq_lib::group_to_multiset_ensures;

// ───────────────────────── patterns and paths ─────────────────────────

/// Whether the text holds one of the glob characters `*`, `?`, `[`.
pub open spec fn has_glob_char(s: Seq<char>) -> bool {
    s.contains('*') || s.contains('?') || s.contains('[')
}

fn has_glob_char_exec(s: &[char]) -> (res: bool)
    ensures
        res == has_glob_char(s@),
{
    let mut i: usize = 0;
    while i < s.len()
        invariant
            i <= s@.len(),
            forall|k: int| 0 <= k < i ==> s@[k] != '*' && s@[k] != '?' && s@[k] != '[',
        decreases s@.len() - i,
    {
        if s[i] == '*' || s[i] == '?' || s[i] == '[' {
            assert(s@.contains(s@[i as int]));
            return true;
        }
        i += 1;
    }
    false
}

/// The leading pieces without glob characters.
pub open spec fn plain_prefix(ps: Seq<Seq<char>>) -> Seq<Seq<char>>
    decreases ps.len(),
{
    if ps.len() == 0 {
        seq![]
    } else if has_glob_char(ps[0]) {
        seq![]
    } else {
        seq![ps[0]] + plain_prefix(ps.drop_first())
    }
}

/// The fixed directory prefix of a glob: its `/`-separated parts up to the
/// first one with a glob character, joined by `/`.
pub open spec fn glob_prefix_of(pattern: Seq<char>) -> Seq<char> {
    join_with(plain_prefix(split_on(pattern, '/')), "/"@)
}

proof fn lemma_plain_prefix(ps: Seq<Seq<char>>, k: int)
    requires
        0 <= k <= ps.len(),
        forall|m: int| 0 <= m < k ==> !has_glob_char(#[trigger] ps[m]),
        k < ps.len() ==> has_glob_char(ps[k]),
    ensures
        plain_prefix(ps) == ps.take(k),
    decreases ps.len(),
{
    if ps.len() > 0 && k > 0 {
        let d = ps.drop_first();
        assert forall|m: int| 0 <= m < k - 1 implies !has_glob_char(#[trigger] d[m]) by {
            assert(d[m] == ps[m + 1]);
        }
        lemma_plain_prefix(d, k - 1);
        assert(ps.take(k) =~= seq![ps[0]] + d.take(k - 1));
    } else if ps.len() > 0 {
        assert(ps.take(0) =~= Seq::<Seq<char>>::empty());
    } else {
        assert(ps.take(0) =~= Seq::<Seq<char>>::empty());
    }
}

/// The fixed directory prefix of a glob pattern: `packages/*` gives
/// `packages`, `crates/*/src` gives `crates`.
pub fn glob_prefix(pattern: &str) -> (res: String)
    ensures
        res@ == glob_prefix_of(pattern@),
{
    let cs = chars_of(pattern);
    let parts = split_on_exec(&cs, '/');
    let ghost pv = views(parts@);
    let mut k: usize = 0;
    while k < parts.len() && !has_glob_char_exec(&parts[k])
        invariant
            k <= parts@.len(),
            pv == views(parts@),
            forall|m: int| 0 <= m < k ==> !has_glob_char(#[trigger] pv[m]),
        decreases parts@.len() - k,
    {
        assert(pv[k as int] == parts@[k as int]@);
        k += 1;
    }
    if k < parts.len() {
        assert(pv[k as int] == parts@[k as int]@);
    }
    proof {
        lemma_plain_prefix(pv, k as int);
    }
    let mut taken: Vec<Vec<char>> = Vec::new();
    let mut i: usize = 0;
    while i < k
        invariant
            i <= k <= parts@.len(),
            pv == views(parts@),
            views(taken@) == pv.take(i as int),
        decreases k - i,
    {
        let piece = sub_chars(&parts[i], 0, parts[i].len());
        let ghost before = taken@;
        taken.push(piece);
        proof {
            assert(parts@[i as int]@.subrange(0, parts@[i as int]@.len() as int) =~= parts@[i as int]@);
            assert(views(taken@) =~= views(before).push(pv[i as int]));
            assert(pv.take(i + 1) =~= pv.take(i as int).push(pv[i as int]));
        }
        i += 1;
    }
    let sep = chars_of("/");
    let joined = join_with_exec(&taken, &sep);
    assert(views(taken@) == plain_prefix(split_on(pattern@, '/')));
    string_from_chars(&joined)
}

/// What `Path::file_name` returns for a path (as text): its last component,
/// `None` when the path ends in `..` or has no components.
pub uninterp spec fn path_file_name(path: Seq<char>) -> Option<Seq<char>>;

/// `std::path::Path::file_name`, as text.  The contract names the result.
#[verifier::external_body]
fn file_name(path: &str) -> (res: Option<String>)
    ensures
        match res {
            Some(n) => path_file_name(path@) == Some(n@),
            None => path_file_name(path@) is None,
        },
{
    std::path::Path::new(path).file_name().map(|n| n.to_string_lossy().to_string())
}

/// The package name of a directory: its last path component, or the path
/// itself when it has none.
pub open spec fn package_name_of(path: Seq<char>) -> Seq<char> {
    match path_file_name(path) {
        Some(n) => n,
        None => path,
    }
}

/// The package name of a directory path (its last component).
pub fn package_name_from_path(path: &str) -> (res: String)
    ensures
        res@ == package_name_of(path@),
{
    match file_name(path) {
        Some(n) => n,
        None => crate::text::str_to_string(path),
    }
}

/// The text without one leading `./`.
pub open spec fn strip_dot_slash(p: Seq<char>) -> Seq<char> {
    if starts_with(p, "./"@) {
        p.skip(2)
    } else {
        p
    }
}

fn strip_dot_slash_exec(p: &[char]) -> (res: Vec<char>)
    ensures
        res@ == strip_dot_slash(p@),
{
    let dot_slash = chars_of("./");
    proof {
        reveal_strlit("./");
    }
    if starts_with_exec(p, &dot_slash) {
        sub_chars(p, 2, p.len())
    } else {
        sub_chars(p, 0, p.len())
    }
}

/// A member pattern naming a directory directly (no glob characters), with
/// a leading `./` removed; `None` for a glob.
pub open spec fn literal_member_of(pattern: Seq<char>) -> Option<Seq<char>> {
    if has_glob_char(pattern) {
        None
    } else {
        Some(strip_dot_slash(pattern))
    }
}

/// The directory a literal member pattern names, or `None` for a glob.
pub fn literal_member(pattern: &str) -> (res: Option<String>)
    ensures
        match res {
            Some(p) => literal_member_of(pattern@) == Some(p@),
            None => literal_member_of(pattern@) is None,
        },
{
    let cs = chars_of(pattern);
    if has_glob_char_exec(&cs) {
        None
    } else {
        let stripped = strip_dot_slash_exec(&cs);
        Some(string_from_chars(&stripped))
    }
}

// ───────────────────────── manifest text ─────────────────────────

/// The text with every leading copy of `pat` removed
/// (`str::trim_start_matches` with a string).
pub open spec fn strip_all_prefix(s: Seq<char>, pat: Seq<char>) -> Seq<char>
    decreases s.len(),
{
    if pat.len() > 0 && starts_with(s, pat) {
        strip_all_prefix(s.skip(pat.len() as int), pat)
    } else {
        s
    }
}

/// The text without leading copies of `c`.
pub open spec fn strip_lead(s: Seq<char>, c: char) -> Seq<char>
    decreases s.len(),
{
    if s.len() > 0 && s[0] == c {
        strip_lead(s.drop_first(), c)
    } else {
        s
    }
}

/// The text without trailing copies of `c`.
pub open spec fn strip_trail(s: Seq<char>, c: char) -> Seq<char>
    decreases s.len(),
{
    if s.len() > 0 && s.last() == c {
        strip_trail(s.drop_last(), c)
    } else {
        s
    }
}

/// The text without leading and trailing copies of `c` (`str::trim_matches`
/// with a character).
pub open spec fn trim_char(s: Seq<char>, c: char) -> Seq<char> {
    strip_trail(strip_lead(s, c), c)
}

fn strip_all_prefix_exec(s: &[char], pat: &[char]) -> (res: Vec<char>)
    ensures
        res@ == strip_all_prefix(s@, pat@),
{
    let mut start: usize = 0;
    let n = s.len();
    let mut rest = sub_chars(s, 0, n);
    assert(s@.subrange(0, s@.len() as int) =~= s@);
    while pat.len() > 0 && starts_with_exec(&rest, pat)
        invariant
            rest@ == s@.skip(start as int),
            start <= s@.len(),
            s@.len() <= usize::MAX,
            strip_all_prefix(rest@, pat@) == strip_all_prefix(s@, pat@),
        decreases rest@.len(),
    {
        assert(pat@.len() <= rest@.len());
        let next = sub_chars(&rest, pat.len(), rest.len());
        assert(next@ =~= s@.skip(start + pat@.len()));
        start = start + pat.len();
        rest = next;
    }
    rest
}

fn strip_lead_exec(s: &[char], c: char) -> (res: Vec<char>)
    ensures
        res@ == strip_lead(s@, c),
{
    let mut a: usize = 0;
    assert(s@.skip(0) =~= s@);
    while a < s.len() && s[a] == c
        invariant
            a <= s@.len(),
            strip_lead(s@.skip(a as int), c) == strip_lead(s@, c),
        decreases s@.len() - a,
    {
        assert(s@.skip(a as int).drop_first() =~= s@.skip(a + 1));
        a += 1;
    }
    let res = sub_chars(s, a, s.len());
    assert(res@ =~= s@.skip(a as int));
    res
}

fn strip_trail_exec(s: &[char], c: char) -> (res: Vec<char>)
    ensures
        res@ == strip_trail(s@, c),
{
    let mut b: usize = s.len();
    assert(s@.take(s@.len() as int) =~= s@);
    while b > 0 && s[b - 1] == c
        invariant
            b <= s@.len(),
            strip_trail(s@.take(b as int), c) == strip_trail(s@, c),
        decreases b,
    {
        assert(s@.take(b as int).drop_last() =~= s@.take(b - 1));
        b -= 1;
    }
    assert(s@.take(s@.len() as int) =~= s@);
    let res = sub_chars(s, 0, b);
    assert(res@ =~= s@.take(b as int));
    res
}

fn trim_char_exec(s: &[char], c: char) -> (res: Vec<char>)
    ensures
        res@ == trim_char(s@, c),
{
    let a = strip_lead_exec(s, c);
    strip_trail_exec(&a, c)
}

/// The package pattern of a `- ` list line: the dashes, then single and
/// double quotes, stripped.
pub open spec fn pnpm_value(t: Seq<char>) -> Seq<char> {
    trim_char(trim_char(strip_all_prefix(t, "- "@), '\''), '"')
}

/// The list under `packages:` in `pnpm-workspace.yaml`, from line `i` on:
/// each `- ` line gives a pattern; blank and `#` lines are skipped; any
/// other line ends the list.
pub open spec fn pnpm_from(lines: Seq<Seq<char>>, i: int, in_packages: bool) -> Seq<Seq<char>>
    decreases lines.len() - i,
{
    if i < 0 || i >= lines.len() {
        seq![]
    } else {
        let t = trim(lines[i]);
        if t == "packages:"@ {
            pnpm_from(lines, i + 1, true)
        } else if !in_packages {
            pnpm_from(lines, i + 1, false)
        } else if starts_with(t, "- "@) {
            seq![pnpm_value(t)] + pnpm_from(lines, i + 1, true)
        } else if t.len() > 0 && !starts_with(t, "#"@) {
            seq![]
        } else {
            pnpm_from(lines, i + 1, true)
        }
    }
}

/// The package patterns listed in a `pnpm-workspace.yaml`.
pub open spec fn pnpm_packages(content: Seq<char>) -> Seq<Seq<char>> {
    pnpm_from(split_lines(content), 0, false)
}

/// The package patterns of a `pnpm-workspace.yaml`: the `- ` items under
/// `packages:`, unquoted.
pub fn parse_pnpm_packages(content: &str) -> (res: Vec<String>)
    ensures
        string_views(res@) == pnpm_packages(content@),
{
    let cs = chars_of(content);
    let lines = split_lines_exec(&cs);
    let ghost ls = views(lines@);
    let header = chars_of("packages:");
    let dash = chars_of("- ");
    let hash = chars_of("#");
    let mut out: Vec<String> = Vec::new();
    let mut in_packages = false;
    let mut i: usize = 0;
    while i < lines.len()
        invariant
            i <= lines@.len(),
            ls == views(lines@),
            ls == split_lines(content@),
            header@ == "packages:"@,
            dash@ == "- "@,
            hash@ == "#"@,
            string_views(out@) + pnpm_from(ls, i as int, in_packages) == pnpm_packages(content@),
        decreases lines@.len() - i,
    {
        assert(ls[i as int] == lines@[i as int]@);
        let t = trim_chars(&lines[i]);
        let ghost before = string_views(out@);
        if chars_eq(&t, &header) {
            in_packages = true;
        } else if !in_packages {
        } else if starts_with_exec(&t, &dash) {
            let a = strip_all_prefix_exec(&t, &dash);
            let b = trim_char_exec(&a, '\'');
            let c = trim_char_exec(&b, '"');
            out.push(string_from_chars(&c));
            assert(string_views(out@) =~= before.push(pnpm_value(t@)));
            assert(seq![pnpm_value(t@)] + pnpm_from(ls, i + 1, true) =~= seq![pnpm_value(t@)].add(pnpm_from(ls, i + 1, true)));
            assert(before.push(pnpm_value(t@)) + pnpm_from(ls, i + 1, true) =~= before + (seq![pnpm_value(t@)] + pnpm_from(ls, i + 1, true)));
        } else if t.len() > 0 && !starts_with_exec(&t, &hash) {
            assert(before + Seq::<Seq<char>>::empty() =~= before);
            return out;
        }
        i += 1;
    }
    assert(string_views(out@) + Seq::<Seq<char>>::empty() =~= string_views(out@));
    out
}

/// The module directories of a `go.work` file from line `i` on: the lines
/// of a `use (` ... `)` block and the argument of each single-line `use`,
/// a leading `./` removed, empty paths skipped.
pub open spec fn go_from(lines: Seq<Seq<char>>, i: int, in_use: bool) -> Seq<Seq<char>>
    decreases lines.len() - i,
{
    if i < 0 || i >= lines.len() {
        seq![]
    } else {
        let t = trim(lines[i]);
        if starts_with(t, "use ("@) {
            go_from(lines, i + 1, true)
        } else if in_use {
            if t == ")"@ {
                go_from(lines, i + 1, false)
            } else {
                let p = strip_dot_slash(t);
                (if p.len() > 0 { seq![p] } else { seq![] }) + go_from(lines, i + 1, true)
            }
        } else if starts_with(t, "use "@) {
            let p = strip_dot_slash(trim(strip_all_prefix(t, "use "@)));
            (if p.len() > 0 { seq![p] } else { seq![] }) + go_from(lines, i + 1, false)
        } else {
            go_from(lines, i + 1, false)
        }
    }
}

/// The module directories listed by a `go.work` file.
pub open spec fn go_work_uses(content: Seq<char>) -> Seq<Seq<char>> {
    go_from(split_lines(content), 0, false)
}

/// The module directories of a `go.work` file's `use` directives.
pub fn parse_go_work(content: &str) -> (res: Vec<String>)
    ensures
        string_views(res@) == go_work_uses(content@),
{
    let cs = chars_of(content);
    let lines = split_lines_exec(&cs);
    let ghost ls = views(lines@);
    let block = chars_of("use (");
    let close = chars_of(")");
    let single = chars_of("use ");
    let mut out: Vec<String> = Vec::new();
    let mut in_use = false;
    let mut i: usize = 0;
    while i < lines.len()
        invariant
            i <= lines@.len(),
            ls == views(lines@),
            ls == split_lines(content@),
            block@ == "use ("@,
            close@ == ")"@,
            single@ == "use "@,
            string_views(out@) + go_from(ls, i as int, in_use) == go_work_uses(content@),
        decreases lines@.len() - i,
    {
        assert(ls[i as int] == lines@[i as int]@);
        let t = trim_chars(&lines[i]);
        let ghost before = string_views(out@);
        if starts_with_exec(&t, &block) {
            in_use = true;
        } else if in_use {
            if chars_eq(&t, &close) {
                in_use = false;
            } else {
                let p = strip_dot_slash_exec(&t);
                if p.len() > 0 {
                    out.push(string_from_chars(&p));
                    assert(string_views(out@) =~= before.push(p@));
                    assert(before.push(p@) + go_from(ls, i + 1, true) =~= before + (seq![p@] + go_from(ls, i + 1, true)));
                } else {
                    assert(seq![] + go_from(ls, i + 1, true) =~= go_from(ls, i + 1, true));
                }
            }
        } else if starts_with_exec(&t, &single) {
            let a = strip_all_prefix_exec(&t, &single);
            let b = trim_chars(&a);
            let p = strip_dot_slash_exec(&b);
            if p.len() > 0 {
                out.push(string_from_chars(&p));
                assert(string_views(out@) =~= before.push(p@));
                assert(before.push(p@) + go_from(ls, i + 1, false) =~= before + (seq![p@] + go_from(ls, i + 1, false)));
            } else {
                assert(seq![] + go_from(ls, i + 1, false) =~= go_from(ls, i + 1, false));
            }
        }
        i += 1;
    }
    assert(string_views(out@) + Seq::<Seq<char>>::empty() =~= string_views(out@));
    out
}

// ───────────────────────── globs and packages ─────────────────────────

/// Orders text lexicographically.
pub struct ByText;

impl Order<String> for ByText {
    open spec fn le(a: &String, b: &String) -> bool {
        lex_le(a@, b@)
    }

    fn le_exec(a: &String, b: &String) -> (res: bool) {
        let x = chars_of(a.as_str());
        let y = chars_of(b.as_str());
        lex_le_exec(&x, &y)
    }

    proof fn lemma_total(a: &String, b: &String) {
        lemma_lex_total(a@, b@);
    }

    proof fn lemma_trans(a: &String, b: &String, c: &String) {
        lemma_lex_trans(a@, b@, c@);
    }
}

/// Strictly increasing text.
pub open spec fn strictly_sorted(s: Seq<Seq<char>>) -> bool {
    forall|i: int, j: int| 0 <= i < j < s.len() ==> lex_le(#[trigger] s[i], #[trigger] s[j]) && s[i] != s[j]
}

/// The candidates that match the glob, as a set.
pub open spec fn glob_hits(pattern: Seq<char>, candidates: Seq<Seq<char>>) -> Set<Seq<char>> {
    Set::new(|p: Seq<char>| candidates.contains(p) && glob_matches(pattern, p))
}

/// The candidate directories (paths relative to the root) that the glob
/// `pattern` matches, sorted, each once; none when the glob does not
/// compile.
pub fn expand_glob(pattern: &str, candidates: &Vec<String>) -> (res: Vec<String>)
    ensures
        !glob_usable(pattern@) ==> res@.len() == 0,
        glob_usable(pattern@) ==> string_views(res@).to_set() == glob_hits(pattern@, string_views(candidates@)),
        strictly_sorted(string_views(res@)),
{
    let glob = match compile_glob(pattern) {
        Some(g) => g,
        None => return Vec::new(),
    };
    let ghost cv = string_views(candidates@);
    let mut hits: Vec<String> = Vec::new();
    let mut i: usize = 0;
    while i < candidates.len()
        invariant
            i <= candidates@.len(),
            cv == string_views(candidates@),
            glob@ == pattern@,
            forall|k: int| 0 <= k < hits@.len() ==> cv.contains(#[trigger] hits@[k]@) && glob_matches(pattern@, hits@[k]@),
            forall|m: int| 0 <= m < i && glob_matches(pattern@, #[trigger] cv[m]) ==> string_views(hits@).contains(cv[m]),
        decreases candidates@.len() - i,
    {
        assert(cv[i as int] == candidates@[i as int]@);
        if glob_is_match(&glob, candidates[i].as_str()) {
            let c = candidates[i].clone();
            let ghost before = hits@;
            hits.push(c);
            proof {
                assert(hits@[before.len() as int] == c);
                assert(string_views(hits@)[before.len() as int] == cv[i as int]);
                assert forall|m: int| 0 <= m < i + 1 && glob_matches(pattern@, #[trigger] cv[m]) implies string_views(hits@).contains(cv[m]) by {
                    if m < i {
                        let w = choose|w: int| 0 <= w < string_views(before).len() && string_views(before)[w] == cv[m];
                        assert(string_views(hits@)[w] == string_views(before)[w]);
                    }
                }
            }
        }
        i += 1;
    }
    let ghost hv = string_views(hits@);
    let sorted = sort_by_order::<String, ByText>(hits);
    let ghost sv = string_views(sorted@);
    proof {
        crate::sorting::lemma_map_values_multiset(sorted@, hits@, |s: String| s@);
        assert forall|p: Seq<char>| sv.contains(p) <==> hv.contains(p) by {
            if sv.contains(p) {
                let w = choose|w: int| 0 <= w < sv.len() && sv[w] == p;
                assert(sv.to_multiset().count(p) > 0);
            }
            if hv.contains(p) {
                let w = choose|w: int| 0 <= w < hv.len() && hv[w] == p;
                assert(hv.to_multiset().count(p) > 0);
            }
        }
    }
    let mut out: Vec<String> = Vec::new();
    let mut j: usize = 0;
    while j < sorted.len()
        invariant
            j <= sorted@.len(),
            sv == string_views(sorted@),
            forall|a: int, b: int| 0 <= a < b < sorted@.len() ==> lex_le(#[trigger] sv[a], #[trigger] sv[b]),
            strictly_sorted(string_views(out@)),
            j == 0 <==> out@.len() == 0,
            j > 0 ==> string_views(out@).last() == sv[j - 1],
            forall|k: int| 0 <= k < out@.len() ==> exists|m: int| 0 <= m < j && sv[m] == #[trigger] string_views(out@)[k],
            forall|m: int| 0 <= m < j ==> string_views(out@).contains(#[trigger] sv[m]),
        decreases sorted@.len() - j,
    {
        let ghost ov = string_views(out@);
        let keep = out.len() == 0 || !(out[out.len() - 1] == sorted[j]);
        if keep {
            let c = sorted[j].clone();
            out.push(c);
            proof {
                let nv = string_views(out@);
                assert(nv =~= ov.push(sv[j as int]));
                if ov.len() > 0 {
                    assert forall|a: int| 0 <= a < ov.len() implies lex_le(#[trigger] ov[a], sv[j as int]) && ov[a] != sv[j as int] by {
                        let m = choose|m: int| 0 <= m < j && sv[m] == ov[a];
                        if a == ov.len() - 1 {
                            assert(ov[a] == sv[j - 1]);
                            assert(lex_le(sv[j - 1], sv[j as int]));
                        } else {
                            assert(lex_le(ov[a], ov[ov.len() - 1]) && ov[a] != ov[ov.len() - 1]);
                            assert(lex_le(sv[j - 1], sv[j as int]));
                            lemma_lex_trans(ov[a], sv[j - 1], sv[j as int]);
                            if ov[a] == sv[j as int] {
                                lemma_lex_antisym(ov[a], sv[j - 1]);
                            }
                        }
                    }
                }
                assert forall|k: int| 0 <= k < nv.len() implies exists|m: int| 0 <= m < j + 1 && sv[m] == #[trigger] nv[k] by {
                    if k < ov.len() {
                        assert(nv[k] == ov[k]);
                    } else {
                        assert(sv[j as int] == nv[k]);
                    }
                }
                assert forall|m: int| 0 <= m < j + 1 implies nv.contains(#[trigger] sv[m]) by {
                    if m < j {
                        let w = choose|w: int| 0 <= w < ov.len() && ov[w] == sv[m];
                        assert(nv[w] == ov[w]);
                    } else {
                        assert(nv[nv.len() - 1] == sv[m]);
                    }
                }
            }
        } else {
            proof {
                assert(ov.last() == sv[j as int]);
                assert forall|m: int| 0 <= m < j + 1 implies ov.contains(#[trigger] sv[m]) by {
                    if m == j {
                        assert(ov[ov.len() - 1] == sv[m]);
                    }
                }
                assert forall|k: int| 0 <= k < ov.len() implies exists|m: int| 0 <= m < j + 1 && sv[m] == #[trigger] ov[k] by {
                    let m = choose|m: int| 0 <= m < j && sv[m] == ov[k];
                }
            }
        }
        j += 1;
    }
    proof {
        let ov = string_views(out@);
        assert forall|p: Seq<char>| ov.contains(p) <==> glob_hits(pattern@, cv).contains(p) by {
            if ov.contains(p) {
                let k = choose|k: int| 0 <= k < ov.len() && ov[k] == p;
                let m = choose|m: int| 0 <= m < sorted@.len() && sv[m] == ov[k];
                assert(hv.contains(p));
                let w = choose|w: int| 0 <= w < hv.len() && hv[w] == p;
                assert(hits@[w]@ == p);
            }
            if glob_hits(pattern@, cv).contains(p) {
                let m = choose|m: int| 0 <= m < cv.len() && cv[m] == p;
                assert(hv.contains(cv[m]));
                assert(sv.contains(p));
                let w = choose|w: int| 0 <= w < sv.len() && sv[w] == p;
                assert(ov.contains(sv[w]));
            }
        }
        assert(ov.to_set() =~= glob_hits(pattern@, cv));
    }
    out
}

/// A package as plain values: name, path and kind.
pub open spec fn package_view(p: PackageInfo) -> (Seq<char>, Seq<char>, WorkspaceKind) {
    (p.name@, p.path@, p.kind)
}

/// Views of a sequence of packages.
pub open spec fn package_views(ps: Seq<PackageInfo>) -> Seq<(Seq<char>, Seq<char>, WorkspaceKind)> {
    ps.map_values(|p: PackageInfo| package_view(p))
}

/// The package of kind `kind` at directory `path`.
pub open spec fn package_at(path: Seq<char>, kind: WorkspaceKind) -> (Seq<char>, Seq<char>, WorkspaceKind) {
    (package_name_of(path), path, kind)
}

/// Packages of kind `kind` for directory paths, each named by the path's
/// last component.
pub fn packages_for(paths: &Vec<String>, kind: WorkspaceKind) -> (res: Vec<PackageInfo>)
    ensures
        package_views(res@) == string_views(paths@).map_values(|p: Seq<char>| package_at(p, kind)),
{
    let mut res: Vec<PackageInfo> = Vec::new();
    let mut i: usize = 0;
    while i < paths.len()
        invariant
            i <= paths@.len(),
            res@.len() == i,
            forall|k: int| 0 <= k < i ==> package_view(#[trigger] res@[k]) == package_at(paths@[k]@, kind),
        decreases paths@.len() - i,
    {
        let name = package_name_from_path(paths[i].as_str());
        let path = paths[i].clone();
        res.push(PackageInfo { name, path, kind });
        i += 1;
    }
    assert(package_views(res@) =~= string_views(paths@).map_values(|p: Seq<char>| package_at(p, kind)));
    res
}

/// Orders packages by path.
pub struct ByPath;

/// Orders packages by name.
pub struct ByName;

impl Order<PackageInfo> for ByPath {
    open spec fn le(a: &PackageInfo, b: &PackageInfo) -> bool {
        lex_le(a.path@, b.path@)
    }

    fn le_exec(a: &PackageInfo, b: &PackageInfo) -> (res: bool) {
        let x = chars_of(a.path.as_str());
        let y = chars_of(b.path.as_str());
        lex_le_exec(&x, &y)
    }

    proof fn lemma_total(a: &PackageInfo, b: &PackageInfo) {
        lemma_lex_total(a.path@, b.path@);
    }

    proof fn lemma_trans(a: &PackageInfo, b: &PackageInfo, c: &PackageInfo) {
        lemma_lex_trans(a.path@, b.path@, c.path@);
    }
}

impl Order<PackageInfo> for ByName {
    open spec fn le(a: &PackageInfo, b: &PackageInfo) -> bool {
        lex_le(a.name@, b.name@)
    }

    fn le_exec(a: &PackageInfo, b: &PackageInfo) -> (res: bool) {
        let x = chars_of(a.name.as_str());
        let y = chars_of(b.name.as_str());
        lex_le_exec(&x, &y)
    }

    proof fn lemma_total(a: &PackageInfo, b: &PackageInfo) {
        lemma_lex_total(a.name@, b.name@);
    }

    proof fn lemma_trans(a: &PackageInfo, b: &PackageInfo, c: &PackageInfo) {
        lemma_lex_trans(a.name@, b.name@, c.name@);
    }
}

/// Whether packages are in order: by name when `by_name`, else by path.
pub open spec fn packages_sorted(ps: Seq<PackageInfo>, by_name: bool) -> bool {
    forall|i: int, j: int|
        0 <= i < j < ps.len() ==> if by_name {
            lex_le((#[trigger] ps[i]).name@, (#[trigger] ps[j]).name@)
        } else {
            lex_le(ps[i].path@, ps[j].path@)
        }
}

/// The workspace of `kind` holding `packages`, sorted by name when
/// `by_name` and by path otherwise; none when there are no packages.
pub fn workspace_of(kind: WorkspaceKind, packages: Vec<PackageInfo>, by_name: bool) -> (res: Option<WorkspaceInfo>)
    ensures
        res is None <==> packages@.len() == 0,
        res matches Some(ws) ==> {
            &&& ws.kind == kind
            &&& package_views(ws.packages@).to_multiset() == package_views(packages@).to_multiset()
            &&& packages_sorted(ws.packages@, by_name)
        },
{
    if packages.len() == 0 {
        return None;
    }
    let ghost before = packages@;
    let sorted = if by_name {
        let r = sort_by_order::<PackageInfo, ByName>(packages);
        assert forall|i: int, j: int| 0 <= i < j < r@.len() implies lex_le((#[trigger] r@[i]).name@, (#[trigger] r@[j]).name@) by {
            assert(<ByName as Order<PackageInfo>>::le(&r@[i], &r@[j]));
        }
        r
    } else {
        let r = sort_by_order::<PackageInfo, ByPath>(packages);
        assert forall|i: int, j: int| 0 <= i < j < r@.len() implies lex_le((#[trigger] r@[i]).path@, (#[trigger] r@[j]).path@) by {
            assert(<ByPath as Order<PackageInfo>>::le(&r@[i], &r@[j]));
        }
        r
    };
    proof {
        crate::sorting::lemma_map_values_multiset(sorted@, before, |p: PackageInfo| package_view(p));
    }
    Some(WorkspaceInfo { kind, packages: sorted })
}

/// `HashMap::keys` of the per-package settings, collected: every key once,
/// in the map's own order.
#[verifier::external_body]
fn package_names(m: &HashMap<String, PackageCheckConfig>) -> (res: Vec<String>)
    ensures
        res@.to_set() == m@.dom(),
        res@.no_duplicates(),
{
    m.keys().cloned().collect()
}

/// The workspace declared by hand in the configuration: one package per
/// `[workspace.packages.NAME]` table, at directory `NAME`, sorted by name;
/// none when there are no such tables.
pub fn detect_manual(config: &Config) -> (res: Option<WorkspaceInfo>)
    ensures
        res is None <==> config.workspace.packages@.dom().len() == 0,
        res matches Some(ws) ==> {
            &&& ws.kind == WorkspaceKind::Manual
            &&& packages_sorted(ws.packages@, true)
            &&& exists|ks: Seq<String>|
                {
                    &&& #[trigger] ks.to_set() == config.workspace.packages@.dom()
                    &&& ks.no_duplicates()
                    &&& package_views(ws.packages@).to_multiset() == ks.map_values(
                        |k: String| (k@, k@, WorkspaceKind::Manual),
                    ).to_multiset()
                }
        },
{
    proof {
        vstd::std_specs::hash::axiom_hashmap_view_finite_dom(config.workspace.packages);
    }
    if config.workspace.packages.is_empty() {
        assert(config.workspace.packages@.dom() =~= Set::<String>::empty());
        return None;
    }
    let names = package_names(&config.workspace.packages);
    proof {
        if names@.len() == 0 {
            assert(names@.to_set() =~= Set::<String>::empty());
        }
    }
    let mut packages: Vec<PackageInfo> = Vec::new();
    let mut i: usize = 0;
    while i < names.len()
        invariant
            i <= names@.len(),
            packages@.len() == i,
            forall|k: int| 0 <= k < i ==> package_view(#[trigger] packages@[k]) == (names@[k]@, names@[k]@, WorkspaceKind::Manual),
        decreases names@.len() - i,
    {
        let n1 = names[i].clone();
        let n2 = names[i].clone();
        packages.push(PackageInfo { name: n1, path: n2, kind: WorkspaceKind::Manual });
        i += 1;
    }
    assert(package_views(packages@) =~= names@.map_values(|k: String| (k@, k@, WorkspaceKind::Manual)));
    proof {
        vstd::set_lib::lemma_len_subset(Set::<String>::empty(), names@.to_set());
        assert(names@.to_set().contains(names@[0]));
        assert(config.workspace.packages@.dom().len() > 0) by {
            if config.workspace.packages@.dom().len() == 0 {
                config.workspace.packages@.dom().lemma_len0_is_empty();
            }
        }
    }
    workspace_of(WorkspaceKind::Manual, packages, true)
}

/// The names of the packages joined by `, `.
pub open spec fn package_names_text(ps: Seq<PackageInfo>) -> Seq<char> {
    join_with(ps.map_values(|p: PackageInfo| p.name@), ", "@)
}

/// The error for a package name that the workspace lacks.
pub open spec fn unknown_package_message(name: Seq<char>, ps: Seq<PackageInfo>) -> Seq<char> {
    "package '"@ + name + "' not found in workspace. Available: "@ + package_names_text(ps)
}

/// The directory of the first package named `name`, or an error naming the
/// available packages.
pub fn package_path(ws: &WorkspaceInfo, name: &str) -> (res: Result<String, String>)
    ensures
        match res {
            Ok(p) => exists|i: int|
                0 <= i < ws.packages@.len() && (#[trigger] ws.packages@[i]).name@ == name@ && p@ == ws.packages@[i].path@
                    && forall|j: int| 0 <= j < i ==> ws.packages@[j].name@ != name@,
            Err(e) => (forall|i: int| 0 <= i < ws.packages@.len() ==> (#[trigger] ws.packages@[i]).name@ != name@) && e@
                == unknown_package_message(name@, ws.packages@),
        },
{
    let wanted = crate::text::str_to_string(name);
    let mut i: usize = 0;
    while i < ws.packages.len()
        invariant
            i <= ws.packages@.len(),
            wanted@ == name@,
            forall|j: int| 0 <= j < i ==> ws.packages@[j].name@ != name@,
        decreases ws.packages@.len() - i,
    {
        if ws.packages[i].name == wanted {
            return Ok(ws.packages[i].path.clone());
        }
        i += 1;
    }
    let mut names: Vec<Vec<char>> = Vec::new();
    let mut k: usize = 0;
    while k < ws.packages.len()
        invariant
            k <= ws.packages@.len(),
            views(names@) == ws.packages@.take(k as int).map_values(|p: PackageInfo| p.name@),
        decreases ws.packages@.len() - k,
    {
        let n = chars_of(ws.packages[k].name.as_str());
        let ghost before = views(names@);
        names.push(n);
        assert(views(names@) =~= before.push(ws.packages@[k as int].name@));
        assert(ws.packages@.take(k + 1).map_values(|p: PackageInfo| p.name@) =~= ws.packages@.take(
            k as int,
        ).map_values(|p: PackageInfo| p.name@).push(ws.packages@[k as int].name@));
        k += 1;
    }
    assert(ws.packages@.take(ws.packages@.len() as int) =~= ws.packages@);
    let mut msg = chars_of("package '");
    crate::text::push_str(&mut msg, name);
    crate::text::push_str(&mut msg, "' not found in workspace. Available: ");
    let sep = chars_of(", ");
    let joined = join_with_exec(&names, &sep);
    crate::text::push_all(&mut msg, &joined);
    Err(string_from_chars(&msg))
}

} // verus!
