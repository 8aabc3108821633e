//! Relations between TODO items: keywords, cluster themes and the suggested
//! order of work.
//!
//! Scoring pairs of items is floating-point arithmetic and stays with the
//! command-line tool; this module holds the text analysis and ordering.
use std::collections::HashSet;
use vstd::prelude::*;

use crate::clean::location;
use crate::model::{tag_severity, Priority, TodoItem, TodoItemView};
use crate::sorting::{lemma_lex_antisym, lemma_lex_total, lemma_lex_trans, lex_le, lex_le_exec, sort_by_order, sorted_by, stable_sort, Order};
use crate::stats::{tally, string_pairs_view};
use crate::tasks::{priority_le, priority_rank};
use crate::text::{split_on, split_on_exec, chars_eq, chars_of, join_with, join_with_exec, lowercase, push_piece, string_from_chars, to_lowercase, views};

verus! {

broadcast use vstd::seq_lib::group_to_multiset_ensures;

// ───────────────────────── keywords ─────────────────────────

/// What `char::is_alphanumeric` returns for `c` (Unicode `Alphabetic` or `Numeric`).
pub uninterp spec fn alphanumeric(c: char) -> bool;

/// `char::is_alphanumeric`.  The contract names the result and states the
/// ASCII cases: letters and digits are alphanumeric, other ASCII characters
/// are not.
#[verifier::external_body]
pub fn is_alphanumeric(c: char) -> (res: bool)
    ensures
        res == alphanumeric(c),
        (('a' <= c <= 'z') || ('A' <= c <= 'Z') || ('0' <= c <= '9')) ==> res,
        ((c as u32) < 128 && !(('a' <= c <= 'z') || ('A' <= c <= 'Z') || ('0' <= c <= '9'))) ==> !res,
{
    c.is_alphanumeric()
}

/// Word separators: anything but alphanumerics and `#`.
pub open spec fn is_separator(c: char) -> bool {
    !alphanumeric(c) && c != '#'
}

/// `str::split` on separators: the pieces between them, empty ones included.
pub open spec fn pieces(s: Seq<char>) -> Seq<Seq<char>>
    decreases s.len(),
{
    if s.len() == 0 {
        seq![seq![]]
    } else {
        let p = pieces(s.drop_last());
        if is_separator(s.last()) {
            p.push(seq![])
        } else {
            p.update(p.len() - 1, p.last().push(s.last()))
        }
    }
}

pub proof fn lemma_pieces_nonempty(s: Seq<char>)
    ensures
        pieces(s).len() >= 1,
    decreases s.len(),
{
    if s.len() > 0 {
        lemma_pieces_nonempty(s.drop_last());
    }
}

/// Words that carry no meaning for relating items.
pub open spec fn stopwords() -> Seq<Seq<char>> {
    seq![
        "a"@, "an"@, "the"@, "is"@, "it"@, "in"@, "to"@, "of"@, "for"@, "on"@, "and"@, "or"@, "but"@,
        "not"@, "with"@, "this"@, "that"@, "from"@, "be"@, "as"@, "at"@, "by"@, "do"@, "has"@, "have"@,
        "was"@, "were"@, "will"@, "can"@, "should"@, "would"@, "could"@, "may"@, "might"@, "need"@,
        "todo"@, "fixme"@, "hack"@, "xxx"@, "bug"@, "note"@,
    ]
}

/// A lower-cased piece is a keyword when it is longer than one byte and not
/// a stop word.
pub open spec fn is_keyword(w: Seq<char>) -> bool {
    crate::lint::utf8_len(w) > 1 && !stopwords().contains(w)
}

/// The keywords of a message, in order of appearance (repeats included).
pub open spec fn keyword_seq(ps: Seq<Seq<char>>) -> Seq<Seq<char>>
    decreases ps.len(),
{
    if ps.len() == 0 {
        seq![]
    } else {
        let rest = keyword_seq(ps.drop_last());
        let w = lowercase(ps.last());
        if is_keyword(w) {
            rest.push(w)
        } else {
            rest
        }
    }
}

pub open spec fn keywords_of(message: Seq<char>) -> Seq<Seq<char>> {
    keyword_seq(pieces(message))
}

fn split_pieces(s: &[char]) -> (res: Vec<Vec<char>>)
    ensures
        views(res@) == pieces(s@),
{
    let mut res: Vec<Vec<char>> = Vec::new();
    res.push(Vec::new());
    let mut i: usize = 0;
    assert(s@.take(0) =~= Seq::<char>::empty());
    assert(views(res@) =~= pieces(s@.take(0)));
    while i < s.len()
        invariant
            i <= s@.len(),
            views(res@) == pieces(s@.take(i as int)),
            res@.len() >= 1,
        decreases s@.len() - i,
    {
        assert(s@.take(i + 1).drop_last() =~= s@.take(i as int));
        assert(s@.take(i + 1).last() == s@[i as int]);
        let c = s[i];
        let ghost before = views(res@);
        if !is_alphanumeric(c) && c != '#' {
            res.push(Vec::new());
            assert(views(res@) =~= before.push(seq![]));
        } else {
            let last = res.len() - 1;
            let mut w = res.pop().unwrap();
            w.push(c);
            res.push(w);
            assert(views(res@) =~= before.update(last as int, before.last().push(c)));
        }
        i += 1;
    }
    assert(s@.take(s@.len() as int) =~= s@);
    res
}

fn is_stopword(w: &[char]) -> (res: bool)
    ensures
        res == stopwords().contains(w@),
{
    let list: Vec<&str> = vec![
        "a", "an", "the", "is", "it", "in", "to", "of", "for", "on", "and", "or", "but", "not",
        "with", "this", "that", "from", "be", "as", "at", "by", "do", "has", "have", "was", "were",
        "will", "can", "should", "would", "could", "may", "might", "need", "todo", "fixme", "hack",
        "xxx", "bug", "note",
    ];
    assert(list@.map_values(|s: &str| s@) =~= stopwords());
    let mut k: usize = 0;
    while k < list.len()
        invariant
            k <= list@.len(),
            list@.map_values(|s: &str| s@) == stopwords(),
            forall|j: int| 0 <= j < k ==> stopwords()[j] != w@,
        decreases list@.len() - k,
    {
        assert(stopwords()[k as int] == list@[k as int]@);
        if chars_eq(&chars_of(list[k]), w) {
            return true;
        }
        k += 1;
    }
    false
}

/// The keywords of a message, in order of appearance (repeats included).
pub fn keyword_list(message: &str) -> (res: Vec<String>)
    ensures
        res@.map_values(|s: String| s@) == keywords_of(message@),
{
    let ps = split_pieces(&chars_of(message));
    let ghost pv = views(ps@);
    let mut res: Vec<String> = Vec::new();
    let mut i: usize = 0;
    assert(pv.take(0) =~= Seq::<Seq<char>>::empty());
    while i < ps.len()
        invariant
            pv == views(ps@),
            pv.len() == ps@.len(),
            i <= ps@.len(),
            res@.map_values(|s: String| s@) == keyword_seq(pv.take(i as int)),
        decreases ps@.len() - i,
    {
        assert(pv.take(i + 1).drop_last() =~= pv.take(i as int));
        assert(pv.take(i + 1).last() == ps@[i as int]@);
        let w = to_lowercase(&ps[i]);
        let ws = string_from_chars(&w);
        if ws.as_str().len() > 1 && !is_stopword(&w) {
            let ghost before = res@;
            res.push(ws);
            assert(res@.map_values(|s: String| s@) =~= before.map_values(|s: String| s@).push(w@));
        }
        i += 1;
    }
    assert(pv.take(ps@.len() as int) =~= pv);
    res
}

/// The set holds a string exactly when the sequence holds one with the same text.
pub open spec fn same_texts(set: Set<String>, v: Seq<String>) -> bool {
    &&& forall|s: String| #[trigger] set.contains(s) ==> exists|i: int| 0 <= i < v.len() && v[i]@ == s@
    &&& forall|i: int| 0 <= i < v.len() ==> exists|s: String| #[trigger] set.contains(s) && s@ == #[trigger] v[i]@
}

/// `HashSet` of the strings of `v` (std's `FromIterator`): it holds a string
/// exactly when `v` holds one with the same text.
#[verifier::external_body]
fn string_set(v: Vec<String>) -> (res: HashSet<String>)
    ensures
        same_texts(res@, v@),
{
    v.into_iter().collect()
}

/// The keywords of a message: its pieces between separators, lower-cased,
/// longer than one byte and not stop words.
pub fn extract_keywords(message: &str) -> (res: HashSet<String>)
    ensures
        forall|s: String| #[trigger] res@.contains(s) ==> keywords_of(message@).contains(s@),
        forall|k: Seq<char>|
            #[trigger] keywords_of(message@).contains(k) ==> exists|s: String| res@.contains(s) && s@ == k,
{
    let v = keyword_list(message);
    let ghost vs = v@;
    let res = string_set(v);
    proof {
        assert forall|s: String| #[trigger] res@.contains(s) implies keywords_of(message@).contains(s@) by {
            let i = choose|i: int| 0 <= i < vs.len() && vs[i]@ == s@;
            assert(vs.map_values(|s: String| s@)[i] == s@);
        }
        assert forall|k: Seq<char>| #[trigger] keywords_of(message@).contains(k) implies exists|s: String|
            res@.contains(s) && s@ == k by {
            let i = choose|i: int| 0 <= i < keywords_of(message@).len() && keywords_of(message@)[i] == k;
            assert(vs.map_values(|s: String| s@)[i] == vs[i]@);
        }
    }
    res
}

// ───────────────────────── suggested order ─────────────────────────

/// The suggested order of work on items: [`priority_le`], on references.
pub struct SuggestedOrder;

fn priority_rank_of(p: Priority) -> (res: u8)
    ensures
        res as int == priority_rank(p),
{
    match p {
        Priority::Urgent => 2,
        Priority::High => 1,
        Priority::Normal => 0,
    }
}

impl<'a> Order<&'a TodoItem> for SuggestedOrder {
    open spec fn le(a: &&'a TodoItem, b: &&'a TodoItem) -> bool {
        priority_le((**a)@, (**b)@)
    }

    fn le_exec(a: &&'a TodoItem, b: &&'a TodoItem) -> (res: bool) {
        let pa = priority_rank_of(a.priority);
        let pb = priority_rank_of(b.priority);
        if pa != pb {
            return pa > pb;
        }
        let sa = a.tag.severity();
        let sb = b.tag.severity();
        if sa != sb {
            return sa > sb;
        }
        if a.file != b.file {
            let x = chars_of(a.file.as_str());
            let y = chars_of(b.file.as_str());
            return lex_le_exec(&x, &y);
        }
        a.line <= b.line
    }

    proof fn lemma_total(a: &&'a TodoItem, b: &&'a TodoItem) {
        lemma_lex_total((**a)@.file, (**b)@.file);
    }

    proof fn lemma_trans(a: &&'a TodoItem, b: &&'a TodoItem, c: &&'a TodoItem) {
        let (x, y, z) = ((**a)@, (**b)@, (**c)@);
        if priority_rank(x.priority) == priority_rank(y.priority) && priority_rank(y.priority) == priority_rank(
            z.priority,
        ) && tag_severity(x.tag) == tag_severity(y.tag) && tag_severity(y.tag) == tag_severity(z.tag) {
            if x.file != y.file && y.file != z.file {
                lemma_lex_trans(x.file, y.file, z.file);
                if x.file == z.file {
                    lemma_lex_antisym(x.file, y.file);
                }
            }
        }
    }
}

/// Order items for work: urgent first, then by tag severity, then file and line.
pub fn compute_suggested_order(items: &mut Vec<&TodoItem>)
    ensures
        final(items)@ == stable_sort(old(items)@, |a: &TodoItem, b: &TodoItem| priority_le((*a)@, (*b)@)),
        final(items)@.to_multiset() == old(items)@.to_multiset(),
        forall|i: int, j: int|
            #![trigger final(items)@[i], final(items)@[j]]
            0 <= i < j < final(items)@.len() ==> priority_le((*final(items)@[i])@, (*final(items)@[j])@),
{
    let mut src: Vec<&TodoItem> = Vec::new();
    std::mem::swap(items, &mut src);
    let sorted = sort_by_order::<&TodoItem, SuggestedOrder>(src);
    assert((|a: &TodoItem, b: &TodoItem| <SuggestedOrder as Order<&TodoItem>>::le(&a, &b)) =~= (|a: &TodoItem, b: &TodoItem| priority_le((*a)@, (*b)@)));
    *items = sorted;
}


// ───────────────────────── cluster themes ─────────────────────────

/// What `Path::parent` returns for a path (as text).
pub uninterp spec fn path_parent(path: Seq<char>) -> Option<Seq<char>>;

/// `std::path::Path::parent`, as text: the path without its final component,
/// `None` for a root or an empty path.  The contract names the result.
#[verifier::external_body]
pub(crate) fn parent_dir(path: &str) -> (res: Option<String>)
    ensures
        match res {
            Some(d) => path_parent(path@) == Some(d@),
            None => path_parent(path@) is None,
        },
{
    std::path::Path::new(path).parent().map(|d| d.to_string_lossy().to_string())
}

/// The nonempty pieces, in order.
pub open spec fn nonempty_pieces(ps: Seq<Seq<char>>) -> Seq<Seq<char>>
    decreases ps.len(),
{
    if ps.len() == 0 {
        seq![]
    } else {
        let rest = nonempty_pieces(ps.drop_last());
        if ps.last().len() > 0 {
            rest.push(ps.last())
        } else {
            rest
        }
    }
}

/// The directory names of a file's parent directory (none for `.` or an
/// empty parent).
pub open spec fn dir_parts(file: Seq<char>) -> Seq<Seq<char>> {
    match path_parent(file) {
        Some(d) => if d.len() > 0 && d != "."@ {
            nonempty_pieces(split_on(d, '/'))
        } else {
            seq![]
        },
        None => seq![],
    }
}

/// The distinct elements, in order of first appearance.
pub open spec fn dedup(s: Seq<Seq<char>>) -> Seq<Seq<char>>
    decreases s.len(),
{
    if s.len() == 0 {
        seq![]
    } else {
        let rest = dedup(s.drop_last());
        if rest.contains(s.last()) {
            rest
        } else {
            rest.push(s.last())
        }
    }
}

/// The words that count toward a theme for one item: its distinct keywords,
/// then its directory names.
pub open spec fn theme_words_of(v: TodoItemView) -> Seq<Seq<char>> {
    dedup(keywords_of(v.message)) + dir_parts(v.file)
}

/// Theme words of all items, in order.
pub open spec fn theme_words(items: Seq<TodoItemView>) -> Seq<Seq<char>>
    decreases items.len(),
{
    if items.len() == 0 {
        seq![]
    } else {
        theme_words(items.drop_last()) + theme_words_of(items.last())
    }
}

/// Word counts ordered by count (largest first), then by word.
pub struct ThemeOrder;

impl Order<(String, usize)> for ThemeOrder {
    open spec fn le(a: &(String, usize), b: &(String, usize)) -> bool {
        a.1 > b.1 || (a.1 == b.1 && lex_le(a.0@, b.0@))
    }

    fn le_exec(a: &(String, usize), b: &(String, usize)) -> (res: bool) {
        if a.1 != b.1 {
            return a.1 > b.1;
        }
        let x = chars_of(a.0.as_str());
        let y = chars_of(b.0.as_str());
        lex_le_exec(&x, &y)
    }

    proof fn lemma_total(a: &(String, usize), b: &(String, usize)) {
        lemma_lex_total(a.0@, b.0@);
    }

    proof fn lemma_trans(a: &(String, usize), b: &(String, usize), c: &(String, usize)) {
        if a.1 == b.1 && b.1 == c.1 {
            lemma_lex_trans(a.0@, b.0@, c.0@);
        }
    }
}

/// `theme` joins, by `, `, the words of the first three entries of an
/// ordering by [`ThemeOrder`] of the word counts `t`.
pub open spec fn theme_of_counts(t: Seq<(Seq<char>, nat)>, theme: Seq<char>) -> bool {
    exists|u: Seq<(String, usize)>, full: Seq<(String, usize)>|
        #![trigger string_pairs_view(u), full.to_multiset()]
        string_pairs_view(u) == t && u.to_multiset() == full.to_multiset() && sorted_by::<(String, usize), ThemeOrder>(full)
            && theme == join_with(
            full.take(if full.len() < 3 { full.len() as int } else { 3 }).map_values(|p: (String, usize)| p.0@),
            ", "@,
        )
}

fn push_string(words: &mut Vec<String>, w: String)
    ensures
        final(words)@.map_values(|s: String| s@) == old(words)@.map_values(|s: String| s@).push(w@),
{
    words.push(w);
    assert(words@.map_values(|s: String| s@) =~= old(words)@.map_values(|s: String| s@).push(w@));
}

fn push_dir_parts(words: &mut Vec<String>, file: &str)
    ensures
        final(words)@.map_values(|s: String| s@) == old(words)@.map_values(|s: String| s@) + dir_parts(file@),
{
    let ghost start = words@.map_values(|s: String| s@);
    match parent_dir(file) {
        Some(d) => {
            let dc = chars_of(d.as_str());
            if dc.len() > 0 && !chars_eq(&dc, &chars_of(".")) {
                let ps = split_on_exec(&dc, '/');
                let ghost pv = views(ps@);
                let mut i: usize = 0;
                assert(pv.take(0) =~= Seq::<Seq<char>>::empty());
                assert(start + nonempty_pieces(pv.take(0)) =~= start);
                while i < ps.len()
                    invariant
                        pv == views(ps@),
                        pv.len() == ps@.len(),
                        i <= ps@.len(),
                        words@.map_values(|s: String| s@) == start + nonempty_pieces(pv.take(i as int)),
                    decreases ps@.len() - i,
                {
                    assert(pv.take(i + 1).drop_last() =~= pv.take(i as int));
                    assert(pv.take(i + 1).last() == ps@[i as int]@);
                    if ps[i].len() > 0 {
                        let ghost before = words@.map_values(|s: String| s@);
                        push_string(words, string_from_chars(&ps[i]));
                        assert(start + nonempty_pieces(pv.take(i + 1)) =~= before.push(ps@[i as int]@));
                    }
                    i += 1;
                }
                assert(pv.take(ps@.len() as int) =~= pv);
            } else {
                assert(words@.map_values(|s: String| s@) =~= start + dir_parts(file@));
            }
        },
        None => {
            assert(words@.map_values(|s: String| s@) =~= start + dir_parts(file@));
        },
    }
}

fn contains_text(v: &Vec<String>, w: &String) -> (res: bool)
    ensures
        res == v@.map_values(|s: String| s@).contains(w@),
{
    let ghost vs = v@.map_values(|s: String| s@);
    let mut k: usize = 0;
    while k < v.len()
        invariant
            vs == v@.map_values(|s: String| s@),
            k <= v@.len(),
            forall|j: int| 0 <= j < k ==> vs[j] != w@,
        decreases v@.len() - k,
    {
        if v[k] == *w {
            assert(vs[k as int] == w@);
            return true;
        }
        k += 1;
    }
    false
}

/// The distinct texts of `v`, in order of first appearance.
pub fn dedup_strings(v: Vec<String>) -> (res: Vec<String>)
    ensures
        res@.map_values(|s: String| s@) == dedup(v@.map_values(|s: String| s@)),
{
    let ghost vs = v@.map_values(|s: String| s@);
    let mut res: Vec<String> = Vec::new();
    let mut i: usize = 0;
    assert(vs.take(0) =~= Seq::<Seq<char>>::empty());
    while i < v.len()
        invariant
            vs == v@.map_values(|s: String| s@),
            i <= v@.len(),
            res@.map_values(|s: String| s@) == dedup(vs.take(i as int)),
        decreases v@.len() - i,
    {
        assert(vs.take(i + 1).drop_last() =~= vs.take(i as int));
        assert(vs.take(i + 1).last() == v@[i as int]@);
        let w = v[i].clone();
        if !contains_text(&res, &w) {
            push_string(&mut res, w);
        }
        i += 1;
    }
    assert(vs.take(v@.len() as int) =~= vs);
    res
}

/// A theme for a group of items: the (up to) three most frequent of their
/// keywords and directory names, most frequent first and alphabetical among
/// equals, joined by `, `.  Each item counts a keyword once.
pub fn generate_theme(items: &Vec<&TodoItem>) -> (res: String)
    ensures
        theme_of_counts(tally(theme_words(items@.map_values(|i: &TodoItem| (*i)@))), res@),
{
    let ghost iv = items@.map_values(|i: &TodoItem| (*i)@);
    let mut words: Vec<String> = Vec::new();
    let mut i: usize = 0;
    assert(iv.take(0) =~= Seq::<TodoItemView>::empty());
    while i < items.len()
        invariant
            iv == items@.map_values(|i: &TodoItem| (*i)@),
            i <= items@.len(),
            words@.map_values(|s: String| s@) == theme_words(iv.take(i as int)),
        decreases items@.len() - i,
    {
        assert(iv.take(i + 1).drop_last() =~= iv.take(i as int));
        assert(iv.take(i + 1).last() == (*items@[i as int])@);
        let item: &TodoItem = items[i];
        let kws = dedup_strings(keyword_list(item.message.as_str()));
        let mut k: usize = 0;
        let ghost start = words@.map_values(|s: String| s@);
        let ghost kv = kws@.map_values(|s: String| s@);
        while k < kws.len()
            invariant
                kv == kws@.map_values(|s: String| s@),
                k <= kws@.len(),
                words@.map_values(|s: String| s@) == start + kv.take(k as int),
            decreases kws@.len() - k,
        {
            push_string(&mut words, kws[k].clone());
            assert(kv.take(k + 1) =~= kv.take(k as int).push(kws@[k as int]@));
            k += 1;
        }
        assert(kv.take(kws@.len() as int) =~= kv);
        push_dir_parts(&mut words, item.file.as_str());
        assert(words@.map_values(|s: String| s@) =~= theme_words(iv.take(i + 1)));
        i += 1;
    }
    assert(iv.take(items@.len() as int) =~= iv);
    let counts = crate::stats::tally_strings(&words);
    let ghost u = counts@;
    let sorted = sort_by_order::<(String, usize), ThemeOrder>(counts);
    let n: usize = if sorted.len() < 3 {
        sorted.len()
    } else {
        3
    };
    let mut top: Vec<Vec<char>> = Vec::new();
    let mut j: usize = 0;
    while j < n
        invariant
            n <= sorted@.len(),
            j <= n,
            views(top@) == sorted@.take(j as int).map_values(|p: (String, usize)| p.0@),
        decreases n - j,
    {
        push_piece(&mut top, chars_of(sorted[j].0.as_str()));
        assert(sorted@.take(j + 1).map_values(|p: (String, usize)| p.0@) =~= sorted@.take(j as int).map_values(
            |p: (String, usize)| p.0@,
        ).push(sorted@[j as int].0@));
        j += 1;
    }
    let joined = join_with_exec(&top, &chars_of(", "));
    let res = string_from_chars(&joined);
    assert(string_pairs_view(u) == tally(theme_words(iv)));
    res
}


// ───────────────────────── clusters ─────────────────────────

/// Connectivity of nodes under a sequence of undirected edges, built edge
/// by edge: `i` and `j` are joined when they are equal, or joined without
/// the last edge, or joined through it.
pub open spec fn joined(edges: Seq<(int, int)>, i: int, j: int) -> bool
    decreases edges.len(),
{
    if edges.len() == 0 {
        i == j
    } else {
        let e = edges.drop_last();
        let (a, b) = edges.last();
        joined(e, i, j) || (joined(e, i, a) && joined(e, b, j)) || (joined(e, i, b) && joined(e, a, j))
    }
}

pub open spec fn edge_seq(edges: Seq<(usize, usize)>) -> Seq<(int, int)> {
    edges.map_values(|e: (usize, usize)| (e.0 as int, e.1 as int))
}

/// Label each node by its connected component: two nodes get the same label
/// exactly when the edges join them.
pub fn component_labels(n: usize, edges: &Vec<(usize, usize)>) -> (res: Vec<usize>)
    requires
        forall|k: int| 0 <= k < edges@.len() ==> (#[trigger] edges@[k]).0 < n && edges@[k].1 < n,
    ensures
        res@.len() == n,
        forall|i: int, j: int|
            0 <= i < n && 0 <= j < n ==> (#[trigger] res@[i] == #[trigger] res@[j] <==> joined(edge_seq(edges@), i, j)),
{
    let mut label: Vec<usize> = Vec::new();
    let mut i: usize = 0;
    while i < n
        invariant
            i <= n,
            label@.len() == i,
            forall|k: int| 0 <= k < i ==> label@[k] == k,
        decreases n - i,
    {
        label.push(i);
        i += 1;
    }
    let ghost es = edge_seq(edges@);
    let mut k: usize = 0;
    assert(es.take(0) =~= Seq::<(int, int)>::empty());
    while k < edges.len()
        invariant
            es == edge_seq(edges@),
            forall|q: int| 0 <= q < edges@.len() ==> (#[trigger] edges@[q]).0 < n && edges@[q].1 < n,
            k <= edges@.len(),
            label@.len() == n,
            forall|x: int, y: int|
                0 <= x < n && 0 <= y < n ==> (#[trigger] label@[x] == #[trigger] label@[y] <==> joined(es.take(k as int), x, y)),
        decreases edges@.len() - k,
    {
        let (a, b) = edges[k];
        let la = label[a];
        let lb = label[b];
        let ghost old_label = label@;
        let ghost pre = es.take(k as int);
        assert(es.take(k + 1).drop_last() =~= pre);
        assert(es.take(k + 1).last() == (a as int, b as int));
        if la != lb {
            let mut m: usize = 0;
            while m < n
                invariant
                    m <= n,
                    label@.len() == n,
                    old_label.len() == n,
                    la == old_label[a as int],
                    lb == old_label[b as int],
                    forall|q: int| 0 <= q < m ==> #[trigger] label@[q] == if old_label[q] == lb { la } else { old_label[q] },
                    forall|q: int| m <= q < n ==> #[trigger] label@[q] == old_label[q],
                decreases n - m,
            {
                if label[m] == lb {
                    label.set(m, la);
                }
                m += 1;
            }
            assert forall|x: int, y: int|
                0 <= x < n && 0 <= y < n implies (#[trigger] label@[x] == #[trigger] label@[y] <==> joined(es.take(k + 1), x, y)) by {
                assert(old_label[x] == old_label[y] <==> joined(pre, x, y));
                assert(old_label[x] == old_label[a as int] <==> joined(pre, x, a as int));
                assert(old_label[b as int] == old_label[y] <==> joined(pre, b as int, y));
                assert(old_label[x] == old_label[b as int] <==> joined(pre, x, b as int));
                assert(old_label[a as int] == old_label[y] <==> joined(pre, a as int, y));
            }
        } else {
            assert forall|x: int, y: int|
                0 <= x < n && 0 <= y < n implies (#[trigger] label@[x] == #[trigger] label@[y] <==> joined(es.take(k + 1), x, y)) by {
                assert(old_label[x] == old_label[y] <==> joined(pre, x, y));
                assert(old_label[x] == old_label[a as int] <==> joined(pre, x, a as int));
                assert(old_label[b as int] == old_label[y] <==> joined(pre, b as int, y));
                assert(old_label[x] == old_label[b as int] <==> joined(pre, x, b as int));
                assert(old_label[a as int] == old_label[y] <==> joined(pre, a as int, y));
            }
        }
        k += 1;
    }
    assert(es.take(edges@.len() as int) =~= es);
    label
}


/// `g` is a group of the components of `edges` over nodes `0..n`: at least
/// two nodes, in increasing order, all joined to each other, and holding
/// every node joined to them.
pub open spec fn is_component_group(edges: Seq<(int, int)>, n: int, g: Seq<usize>) -> bool {
    &&& g.len() >= 2
    &&& forall|p: int, q: int| 0 <= p < q < g.len() ==> (#[trigger] g[p]) < (#[trigger] g[q])
    &&& forall|p: int| 0 <= p < g.len() ==> (#[trigger] g[p]) < n
    &&& forall|p: int| 0 <= p < g.len() ==> joined(edges, g[0] as int, #[trigger] g[p] as int)
    &&& forall|j: int| 0 <= j < n && joined(edges, g[0] as int, j) ==> g.contains(j as usize)
}

/// Node `i` is joined to some other node of `0..n`.
pub open spec fn has_partner(edges: Seq<(int, int)>, n: int, i: int) -> bool {
    exists|j: int| 0 <= j < n && j != i && #[trigger] joined(edges, i, j)
}

/// Node `i` belongs to one of the groups.
pub open spec fn in_some_group(gs: Seq<Seq<usize>>, i: int) -> bool {
    exists|k: int| 0 <= k < gs.len() && (#[trigger] gs[k]).contains(i as usize)
}

/// The groups are the components of `edges` with two or more nodes, each
/// once (no two groups start at the same node, so no two are the same
/// component), largest first.
pub open spec fn component_groups_of(edges: Seq<(int, int)>, n: int, gs: Seq<Seq<usize>>) -> bool {
    &&& forall|k: int| 0 <= k < gs.len() ==> is_component_group(edges, n, #[trigger] gs[k])
    &&& forall|i: int| 0 <= i < n && #[trigger] has_partner(edges, n, i) ==> in_some_group(gs, i)
    &&& forall|k: int, l: int| 0 <= k < l < gs.len() ==> (#[trigger] gs[k]).len() >= (#[trigger] gs[l]).len()
    &&& forall|k: int, l: int| 0 <= k < l < gs.len() ==> (#[trigger] gs[k])[0] != (#[trigger] gs[l])[0]
}

/// Joining is symmetric and transitive.
proof fn lemma_joined_equivalence(edges: Seq<(int, int)>)
    ensures
        forall|x: int, y: int| #[trigger] joined(edges, x, y) ==> joined(edges, y, x),
        forall|x: int, y: int, z: int|
            #[trigger] joined(edges, x, y) && #[trigger] joined(edges, y, z) ==> joined(edges, x, z),
    decreases edges.len(),
{
    if edges.len() > 0 {
        let e = edges.drop_last();
        let (a, b) = edges.last();
        lemma_joined_equivalence(e);
        assert forall|x: int, y: int| #[trigger] joined(edges, x, y) implies joined(edges, y, x) by {
            assert(joined(edges, x, y) == (joined(e, x, y) || (joined(e, x, a) && joined(e, b, y)) || (joined(
                e,
                x,
                b,
            ) && joined(e, a, y))));
            assert(joined(edges, y, x) == (joined(e, y, x) || (joined(e, y, a) && joined(e, b, x)) || (joined(
                e,
                y,
                b,
            ) && joined(e, a, x))));
            if joined(e, x, a) && joined(e, b, y) {
                assert(joined(e, y, b) && joined(e, a, x));
            } else if joined(e, x, b) && joined(e, a, y) {
                assert(joined(e, y, a) && joined(e, b, x));
            }
        }
        assert forall|x: int, y: int, z: int|
            #[trigger] joined(edges, x, y) && #[trigger] joined(edges, y, z) implies joined(edges, x, z) by {
            assert(joined(edges, x, y) == (joined(e, x, y) || (joined(e, x, a) && joined(e, b, y)) || (joined(
                e,
                x,
                b,
            ) && joined(e, a, y))));
            assert(joined(edges, y, z) == (joined(e, y, z) || (joined(e, y, a) && joined(e, b, z)) || (joined(
                e,
                y,
                b,
            ) && joined(e, a, z))));
            assert(joined(edges, x, z) == (joined(e, x, z) || (joined(e, x, a) && joined(e, b, z)) || (joined(
                e,
                x,
                b,
            ) && joined(e, a, z))));
            if joined(e, x, y) {
                if joined(e, y, z) {
                } else if joined(e, y, a) && joined(e, b, z) {
                    assert(joined(e, x, a));
                } else {
                    assert(joined(e, x, b));
                }
            } else if joined(e, x, a) && joined(e, b, y) {
                if joined(e, y, z) {
                    assert(joined(e, b, z));
                } else if joined(e, y, a) && joined(e, b, z) {
                } else {
                    assert(joined(e, y, b) && joined(e, a, z));
                    assert(joined(e, x, z));
                }
            } else {
                assert(joined(e, x, b) && joined(e, a, y));
                if joined(e, y, z) {
                    assert(joined(e, a, z));
                } else if joined(e, y, a) && joined(e, b, z) {
                    assert(joined(e, x, z));
                } else {
                }
            }
        }
    }
}

/// Law of the clusters: the groups are pairwise disjoint, so each linked node
/// lies in exactly one of them, and they are exactly the components with two
/// or more nodes, each once.
pub proof fn lemma_component_groups_disjoint(edges: Seq<(int, int)>, n: int, gs: Seq<Seq<usize>>)
    requires
        component_groups_of(edges, n, gs),
    ensures
        forall|k: int, l: int, p: int, q: int|
            0 <= k < l < gs.len() && 0 <= p < gs[k].len() && 0 <= q < gs[l].len() ==> (#[trigger] gs[k][p])
                != (#[trigger] gs[l][q]),
{
    lemma_joined_equivalence(edges);
    assert forall|k: int, l: int, p: int, q: int|
        0 <= k < l < gs.len() && 0 <= p < gs[k].len() && 0 <= q < gs[l].len() implies (#[trigger] gs[k][p])
            != (#[trigger] gs[l][q]) by {
        let gk = gs[k];
        let gl = gs[l];
        assert(is_component_group(edges, n, gk));
        assert(is_component_group(edges, n, gl));
        if gk[p] == gl[q] {
            let x = gk[p] as int;
            assert(joined(edges, gk[0] as int, x));
            assert(joined(edges, gl[0] as int, x));
            assert(joined(edges, x, gl[0] as int));
            assert(joined(edges, gk[0] as int, gl[0] as int));
            assert(joined(edges, gl[0] as int, gk[0] as int));
            assert(gk.contains(gl[0]));
            assert(gl.contains(gk[0]));
            let u = choose|u: int| 0 <= u < gk.len() && gk[u] == gl[0];
            let w = choose|w: int| 0 <= w < gl.len() && gl[w] == gk[0];
            assert(gk[0] <= gk[u]) by {
                if u > 0 {
                    assert(gk[0] < gk[u]);
                }
            }
            assert(gl[0] <= gl[w]) by {
                if w > 0 {
                    assert(gl[0] < gl[w]);
                }
            }
            assert(gk[0] == gl[0]);
        }
    }
}

/// Groups ordered by size, largest first.
pub struct LargerFirst;

impl Order<Vec<usize>> for LargerFirst {
    open spec fn le(a: &Vec<usize>, b: &Vec<usize>) -> bool {
        a@.len() >= b@.len()
    }

    fn le_exec(a: &Vec<usize>, b: &Vec<usize>) -> (res: bool) {
        a.len() >= b.len()
    }

    proof fn lemma_total(a: &Vec<usize>, b: &Vec<usize>) {
    }

    proof fn lemma_trans(a: &Vec<usize>, b: &Vec<usize>, c: &Vec<usize>) {
    }
}

/// The components of `edges` over nodes `0..n` that have two or more nodes,
/// each in increasing order, largest first.
pub fn component_groups(n: usize, edges: &Vec<(usize, usize)>) -> (res: Vec<Vec<usize>>)
    requires
        forall|k: int| 0 <= k < edges@.len() ==> (#[trigger] edges@[k]).0 < n && edges@[k].1 < n,
    ensures
        component_groups_of(edge_seq(edges@), n as int, res@.map_values(|g: Vec<usize>| g@)),
{
    let ghost es = edge_seq(edges@);
    let label = component_labels(n, edges);
    let mut groups: Vec<Vec<usize>> = Vec::new();
    let mut i: usize = 0;
    while i < n
        invariant
            i <= n,
            label@.len() == n,
            es == edge_seq(edges@),
            forall|x: int, y: int|
                0 <= x < n && 0 <= y < n ==> (#[trigger] label@[x] == #[trigger] label@[y] <==> joined(es, x, y)),
            forall|k: int| 0 <= k < groups@.len() ==> is_component_group(es, n as int, #[trigger] groups@[k]@),
            forall|x: int| 0 <= x < i && #[trigger] has_partner(es, n as int, x) ==> in_some_group(groups@.map_values(|g: Vec<usize>| g@), x),
            forall|k: int, l: int| 0 <= k < l < groups@.len() ==> (#[trigger] groups@[k])@[0] < (#[trigger] groups@[l])@[0],
            forall|k: int| 0 <= k < groups@.len() ==> (#[trigger] groups@[k])@[0] < i,
        decreases n - i,
    {
        let ghost groups_start = groups@;
        let li = label[i];
        let mut first = true;
        let mut j: usize = 0;
        while j < i
            invariant
                j <= i < n,
                label@.len() == n,
                li == label@[i as int],
                first <==> forall|q: int| 0 <= q < j ==> label@[q] != li,
            decreases i - j,
        {
            if label[j] == li {
                first = false;
            }
            j += 1;
        }
        if first {
            let mut g: Vec<usize> = Vec::new();
            let mut m: usize = i;
            while m < n
                invariant
                    i <= m <= n,
                    label@.len() == n,
                    li == label@[i as int],
                    forall|q: int| 0 <= q < i ==> label@[q] != li,
                    forall|p: int, q: int| 0 <= p < q < g@.len() ==> (#[trigger] g@[p]) < (#[trigger] g@[q]),
                    forall|p: int| 0 <= p < g@.len() ==> i <= (#[trigger] g@[p]) < m && label@[g@[p] as int] == li,
                    forall|q: int| i <= q < m && label@[q] == li ==> g@.contains(q as usize),
                    g@.len() > 0 ==> g@[0] == i,
                    m > i ==> g@.len() > 0,
                decreases n - m,
            {
                if label[m] == li {
                    let ghost before = g@;
                    g.push(m);
                    assert forall|q: int| i <= q < m + 1 && label@[q] == li implies g@.contains(q as usize) by {
                        if q < m {
                            assert(before.contains(q as usize));
                            let w = choose|w: int| 0 <= w < before.len() && before[w] == q as usize;
                            assert(g@[w] == q as usize);
                        } else {
                            assert(g@[before.len() as int] == m);
                        }
                    }
                }
                m += 1;
            }
            if g.len() >= 2 {
                proof {
                    assert forall|p: int| 0 <= p < g@.len() implies joined(es, g@[0] as int, #[trigger] g@[p] as int) by {
                        assert(label@[g@[0] as int] == label@[g@[p] as int]);
                    }
                    assert forall|q: int| 0 <= q < n && joined(es, g@[0] as int, q) implies g@.contains(q as usize) by {
                        assert(label@[g@[0] as int] == label@[q]);
                    }
                }
                let ghost before = groups@;
                groups.push(g);
                proof {
                    assert forall|k: int| 0 <= k < groups@.len() implies is_component_group(es, n as int, #[trigger] groups@[k]@) by {
                        if k < before.len() {
                            assert(groups@[k] == before[k]);
                        }
                    }
                    assert forall|k: int, l: int| 0 <= k < l < groups@.len() implies (#[trigger] groups@[k])@[0] < (#[trigger] groups@[l])@[0] by {
                        assert(groups@[k] == before[k]);
                        if l < before.len() {
                            assert(groups@[l] == before[l]);
                        }
                    }
                    assert forall|k: int| 0 <= k < groups@.len() implies (#[trigger] groups@[k])@[0] < i + 1 by {
                        if k < before.len() {
                            assert(groups@[k] == before[k]);
                        }
                    }
                }
            }
        }
        assert(groups@.len() >= groups_start.len() && forall|k: int| 0 <= k < groups_start.len() ==> groups@[k] == groups_start[k]);
        assert forall|x: int| 0 <= x < i + 1 && #[trigger] has_partner(es, n as int, x) implies in_some_group(
            groups@.map_values(|g: Vec<usize>| g@),
            x,
        ) by {
            let gv = groups@.map_values(|g: Vec<usize>| g@);
            if x == i {
                let j = choose|j: int| 0 <= j < n && j != x && #[trigger] joined(es, x, j);
                assert(label@[x] == label@[j]);
                if !first {
                    let q = choose|q: int| 0 <= q < i && label@[q] == li;
                    assert(joined(es, q, x));
                    assert(joined(es, q, j) || joined(es, q, x));
                    assert(has_partner(es, n as int, q));
                    let k = choose|k: int| 0 <= k < gv.len() && (#[trigger] gv[k]).contains(q as usize);
                    let gk = gv[k];
                    assert(gk == groups@[k]@);
                    let w = choose|w: int| 0 <= w < gk.len() && gk[w] == q as usize;
                    assert(joined(es, gk[0] as int, q));
                    assert(label@[gk[0] as int] == label@[q]);
                    assert(joined(es, gk[0] as int, x));
                    assert(gk.contains(x as usize));
                } else {
                    let last = (gv.len() - 1) as int;
                    assert(gv[last] == groups@[last]@);
                    assert(gv[last].contains(x as usize));
                }
            } else {
                let old_gv = groups_start.map_values(|g: Vec<usize>| g@);
                assert(in_some_group(old_gv, x));
                let k = choose|k: int| 0 <= k < old_gv.len() && (#[trigger] old_gv[k]).contains(x as usize);
                assert(groups@[k] == groups_start[k]);
                assert(gv[k] == old_gv[k]);
            }
        }
        i += 1;
    }
    let ghost unsorted = groups@;
    let sorted = sort_by_order::<Vec<usize>, LargerFirst>(groups);
    let ghost sv = sorted@.map_values(|g: Vec<usize>| g@);
    proof {
        assert forall|k: int| 0 <= k < sv.len() implies is_component_group(es, n as int, #[trigger] sv[k]) by {
            assert(sorted@.to_multiset().contains(sorted@[k]));
            assert(unsorted.to_multiset().contains(sorted@[k]));
            assert(unsorted.contains(sorted@[k]));
            let w = choose|w: int| 0 <= w < unsorted.len() && unsorted[w] == sorted@[k];
            assert(is_component_group(es, n as int, unsorted[w]@));
        }
        assert forall|x: int| 0 <= x < n && #[trigger] has_partner(es, n as int, x) implies in_some_group(sv, x) by {
            let uv = unsorted.map_values(|g: Vec<usize>| g@);
            let k = choose|k: int| 0 <= k < uv.len() && (#[trigger] uv[k]).contains(x as usize);
            assert(uv[k] == unsorted[k]@);
            assert(unsorted.to_multiset().contains(unsorted[k]));
            assert(sorted@.to_multiset().contains(unsorted[k]));
            assert(sorted@.contains(unsorted[k]));
            let k2 = choose|k2: int| 0 <= k2 < sorted@.len() && sorted@[k2] == unsorted[k];
            assert(sv[k2] == unsorted[k]@);
        }
        assert forall|k: int, l: int| 0 <= k < l < sv.len() implies (#[trigger] sv[k]).len() >= (#[trigger] sv[l]).len() by {
            assert(<LargerFirst as Order<Vec<usize>>>::le(&sorted@[k], &sorted@[l]));
        }
        assert(unsorted.no_duplicates()) by {
            assert forall|a: int, b: int| 0 <= a < unsorted.len() && 0 <= b < unsorted.len() && a != b implies unsorted[a] != unsorted[b] by {
                if a < b {
                    assert(unsorted[a]@[0] < unsorted[b]@[0]);
                } else {
                    assert(unsorted[b]@[0] < unsorted[a]@[0]);
                }
            }
        }
        unsorted.lemma_multiset_has_no_duplicates();
        sorted@.lemma_multiset_has_no_duplicates_conv();
        assert forall|k: int, l: int| 0 <= k < l < sv.len() implies (#[trigger] sv[k])[0] != (#[trigger] sv[l])[0] by {
            assert(sorted@.to_multiset().contains(sorted@[k]));
            assert(unsorted.contains(sorted@[k]));
            let wk = choose|w: int| 0 <= w < unsorted.len() && unsorted[w] == sorted@[k];
            assert(sorted@.to_multiset().contains(sorted@[l]));
            assert(unsorted.contains(sorted@[l]));
            let wl = choose|w: int| 0 <= w < unsorted.len() && unsorted[w] == sorted@[l];
            assert(sv[k] == unsorted[wk]@ && sv[l] == unsorted[wl]@);
            if wk < wl {
                assert(unsorted[wk]@[0] < unsorted[wl]@[0]);
            } else if wl < wk {
                assert(unsorted[wl]@[0] < unsorted[wk]@[0]);
            } else {
                assert(sorted@[k] == sorted@[l]);
            }
        }
    }
    sorted
}


/// A cluster of related items: its number (from 1), theme, member locations
/// (`file:line`) in the suggested order, and the indices of the links that
/// lie within it.
#[derive(Debug)]
pub struct Cluster {
    pub id: usize,
    pub theme: String,
    pub items: Vec<String>,
    pub suggested_order: Vec<String>,
    pub link_indices: Vec<usize>,
}

pub open spec fn item_locations(items: Seq<TodoItemView>) -> Seq<Seq<char>> {
    items.map_values(|v: TodoItemView| location(v))
}

/// Index of the last occurrence of `x` (a location names its last item).
pub open spec fn last_index(s: Seq<Seq<char>>, x: Seq<char>) -> Option<int>
    decreases s.len(),
{
    if s.len() == 0 {
        None
    } else if s.last() == x {
        Some(s.len() - 1)
    } else {
        last_index(s.drop_last(), x)
    }
}

proof fn lemma_last_index(s: Seq<Seq<char>>, x: Seq<char>)
    ensures
        last_index(s, x) matches Some(i) ==> 0 <= i < s.len() && s[i] == x,
    decreases s.len(),
{
    if s.len() > 0 && s.last() != x {
        lemma_last_index(s.drop_last(), x);
    }
}

/// The edges between items that the links name (links naming an unknown
/// location are dropped), in order.
pub open spec fn link_edges(locs: Seq<Seq<char>>, links: Seq<(Seq<char>, Seq<char>)>) -> Seq<(int, int)>
    decreases links.len(),
{
    if links.len() == 0 {
        seq![]
    } else {
        let rest = link_edges(locs, links.drop_last());
        match (last_index(locs, links.last().0), last_index(locs, links.last().1)) {
            (Some(i), Some(j)) => rest.push((i, j)),
            _ => rest,
        }
    }
}

pub open spec fn link_views(links: Seq<(String, String)>) -> Seq<(Seq<char>, Seq<char>)> {
    links.map_values(|l: (String, String)| (l.0@, l.1@))
}

/// Indices of the links whose both ends are among `locs`, in order.
pub open spec fn links_within(links: Seq<(Seq<char>, Seq<char>)>, locs: Seq<Seq<char>>) -> Seq<usize>
    decreases links.len(),
{
    if links.len() == 0 {
        seq![]
    } else {
        let rest = links_within(links.drop_last(), locs);
        if locs.contains(links.last().0) && locs.contains(links.last().1) {
            rest.push((links.len() - 1) as usize)
        } else {
            rest
        }
    }
}

/// `c` is cluster number `k + 1`, of the items of group `g`.
pub open spec fn cluster_of(
    c: Cluster,
    k: int,
    g: Seq<usize>,
    items: Seq<TodoItemView>,
    links: Seq<(Seq<char>, Seq<char>)>,
) -> bool {
    let mv = g.map_values(|i: usize| items[i as int]);
    &&& c.id == k + 1
    &&& theme_of_counts(tally(theme_words(mv)), c.theme@)
    &&& c.items@.map_values(|s: String| s@) == item_locations(
        stable_sort(mv, |a: TodoItemView, b: TodoItemView| priority_le(a, b)),
    )
    &&& c.suggested_order@ == c.items@
    &&& c.link_indices@ == links_within(links, c.items@.map_values(|s: String| s@))
}

fn location_string(item: &TodoItem) -> (res: String)
    ensures
        res@ == location(item@),
{
    let mut v = chars_of(item.file.as_str());
    v.push(':');
    crate::text::push_decimal(&mut v, item.line as u64);
    string_from_chars(&v)
}

fn last_index_exec(locs: &Vec<String>, x: &String) -> (res: Option<usize>)
    ensures
        match res {
            Some(i) => last_index(locs@.map_values(|s: String| s@), x@) == Some(i as int),
            None => last_index(locs@.map_values(|s: String| s@), x@) is None,
        },
{
    let ghost ls = locs@.map_values(|s: String| s@);
    let mut i: usize = locs.len();
    assert(ls.take(i as int) =~= ls);
    while i > 0
        invariant
            ls == locs@.map_values(|s: String| s@),
            i <= locs@.len(),
            last_index(ls, x@) == last_index(ls.take(i as int), x@),
        decreases i,
    {
        assert(ls.take(i as int).last() == locs@[i - 1]@);
        if locs[i - 1] == *x {
            return Some(i - 1);
        }
        assert(ls.take(i as int).drop_last() =~= ls.take(i - 1));
        i -= 1;
    }
    None
}

fn texts_contain(v: &Vec<String>, x: &String) -> (res: bool)
    ensures
        res == v@.map_values(|s: String| s@).contains(x@),
{
    let ghost vs = v@.map_values(|s: String| s@);
    let mut k: usize = 0;
    while k < v.len()
        invariant
            vs == v@.map_values(|s: String| s@),
            k <= v@.len(),
            forall|j: int| 0 <= j < k ==> vs[j] != x@,
        decreases v@.len() - k,
    {
        if v[k] == *x {
            assert(vs[k as int] == x@);
            return true;
        }
        k += 1;
    }
    false
}

/// Group related items into clusters: the components, with two or more
/// items, of the graph whose edges are the links (pairs of `file:line`
/// locations), largest first.  Each cluster has a theme, its member
/// locations in the suggested order of work, and the links within it.
pub fn build_clusters(links: &Vec<(String, String)>, items: &Vec<TodoItem>) -> (res: Vec<Cluster>)
    ensures
        exists|gs: Seq<Seq<usize>>|
            #![trigger component_groups_of(link_edges(item_locations(crate::model::item_views(items@)), link_views(links@)), items@.len() as int, gs)]
            component_groups_of(
                link_edges(item_locations(crate::model::item_views(items@)), link_views(links@)),
                items@.len() as int,
                gs,
            ) && gs.len() == res@.len() && forall|k: int|
                0 <= k < res@.len() ==> cluster_of(
                    #[trigger] res@[k],
                    k,
                    gs[k],
                    crate::model::item_views(items@),
                    link_views(links@),
                ),
{
    let ghost iv = crate::model::item_views(items@);
    let ghost lv = link_views(links@);
    let mut locs: Vec<String> = Vec::new();
    let mut i: usize = 0;
    while i < items.len()
        invariant
            iv == crate::model::item_views(items@),
            i <= items@.len(),
            locs@.len() == i,
            forall|k: int| 0 <= k < i ==> (#[trigger] locs@[k])@ == location(iv[k]),
        decreases items@.len() - i,
    {
        locs.push(location_string(&items[i]));
        i += 1;
    }
    let ghost lsv = locs@.map_values(|s: String| s@);
    assert(lsv =~= item_locations(iv));
    let mut edges: Vec<(usize, usize)> = Vec::new();
    let mut k: usize = 0;
    assert(lv.take(0) =~= Seq::<(Seq<char>, Seq<char>)>::empty());
    while k < links.len()
        invariant
            lv == link_views(links@),
            lsv == locs@.map_values(|s: String| s@),
            lsv == item_locations(iv),
            locs@.len() == items@.len(),
            k <= links@.len(),
            edge_seq(edges@) == link_edges(lsv, lv.take(k as int)),
            forall|q: int| 0 <= q < edges@.len() ==> (#[trigger] edges@[q]).0 < items@.len() && edges@[q].1 < items@.len(),
        decreases links@.len() - k,
    {
        assert(lv.take(k + 1).drop_last() =~= lv.take(k as int));
        assert(lv.take(k + 1).last() == (links@[k as int].0@, links@[k as int].1@));
        let a = last_index_exec(&locs, &links[k].0);
        let b = last_index_exec(&locs, &links[k].1);
        proof {
            lemma_last_index(lsv, links@[k as int].0@);
            lemma_last_index(lsv, links@[k as int].1@);
        }
        match (a, b) {
            (Some(x), Some(y)) => {
                let ghost before = edges@;
                edges.push((x, y));
                assert(edge_seq(edges@) =~= edge_seq(before).push((x as int, y as int)));
            },
            _ => {},
        }
        k += 1;
    }
    assert(lv.take(links@.len() as int) =~= lv);
    let groups = component_groups(items.len(), &edges);
    let ghost gs = groups@.map_values(|g: Vec<usize>| g@);
    let mut clusters: Vec<Cluster> = Vec::new();
    let mut c: usize = 0;
    while c < groups.len()
        invariant
            iv == crate::model::item_views(items@),
            lv == link_views(links@),
            gs == groups@.map_values(|g: Vec<usize>| g@),
            component_groups_of(edge_seq(edges@), items@.len() as int, gs),
            c <= groups@.len(),
            clusters@.len() == c,
            forall|q: int| 0 <= q < c ==> cluster_of(#[trigger] clusters@[q], q, gs[q], iv, lv),
        decreases groups@.len() - c,
    {
        let g = &groups[c];
        assert(gs[c as int] == g@);
        assert(is_component_group(edge_seq(edges@), items@.len() as int, gs[c as int]));
        let mut members: Vec<&TodoItem> = Vec::new();
        let mut m: usize = 0;
        while m < g.len()
            invariant
                iv == crate::model::item_views(items@),
                forall|p: int| 0 <= p < g@.len() ==> (#[trigger] g@[p]) < items@.len(),
                m <= g@.len(),
                members@.len() == m,
                forall|p: int| 0 <= p < m ==> (*#[trigger] members@[p])@ == iv[g@[p] as int],
            decreases g@.len() - m,
        {
            members.push(&items[g[m]]);
            m += 1;
        }
        let ghost mv = g@.map_values(|i: usize| iv[i as int]);
        assert(members@.map_values(|r: &TodoItem| (*r)@) =~= mv);
        let theme = generate_theme(&members);
        let ghost unsorted = members@;
        compute_suggested_order(&mut members);
        let ghost ordered = members@.map_values(|r: &TodoItem| (*r)@);
        proof {
            let f = |r: &TodoItem| (*r)@;
            let la = |a: &TodoItem, b: &TodoItem| priority_le((*a)@, (*b)@);
            let lb = |a: TodoItemView, b: TodoItemView| priority_le(a, b);
            crate::sorting::lemma_stable_sort_map(unsorted, f, la, lb);
            assert(unsorted.map_values(f) =~= mv);
            assert(ordered =~= members@.map_values(f));
        }
        let mut item_locs: Vec<String> = Vec::new();
        let mut m2: usize = 0;
        while m2 < members.len()
            invariant
                m2 <= members@.len(),
                item_locs@.len() == m2,
                forall|p: int| 0 <= p < m2 ==> (#[trigger] item_locs@[p])@ == location((*members@[p])@),
            decreases members@.len() - m2,
        {
            item_locs.push(location_string(members[m2]));
            m2 += 1;
        }
        assert(item_locs@.map_values(|s: String| s@) =~= item_locations(ordered));
        let ghost locv = item_locs@.map_values(|s: String| s@);
        let mut within: Vec<usize> = Vec::new();
        let mut k2: usize = 0;
        assert(lv.take(0) =~= Seq::<(Seq<char>, Seq<char>)>::empty());
        while k2 < links.len()
            invariant
                lv == link_views(links@),
                locv == item_locs@.map_values(|s: String| s@),
                k2 <= links@.len(),
                within@ == links_within(lv.take(k2 as int), locv),
            decreases links@.len() - k2,
        {
            assert(lv.take(k2 + 1).drop_last() =~= lv.take(k2 as int));
            assert(lv.take(k2 + 1).last() == (links@[k2 as int].0@, links@[k2 as int].1@));
            if texts_contain(&item_locs, &links[k2].0) && texts_contain(&item_locs, &links[k2].1) {
                within.push(k2);
            }
            k2 += 1;
        }
        assert(lv.take(links@.len() as int) =~= lv);
        let suggested = clone_string_vec(&item_locs);
        let cl = Cluster { id: c + 1, theme, items: item_locs, suggested_order: suggested, link_indices: within };
        proof {
            assert(cluster_of(cl, c as int, gs[c as int], iv, lv));
        }
        clusters.push(cl);
        c += 1;
    }
    assert(edge_seq(edges@) == link_edges(item_locations(iv), lv));
    clusters
}

fn clone_string_vec(v: &Vec<String>) -> (res: Vec<String>)
    ensures
        res@ == v@,
{
    let mut res: Vec<String> = Vec::new();
    let mut i: usize = 0;
    while i < v.len()
        invariant
            i <= v@.len(),
            res@ == v@.take(i as int),
        decreases v@.len() - i,
    {
        res.push(v[i].clone());
        assert(v@.take(i + 1) =~= v@.take(i as int).push(v@[i as int]));
        i += 1;
    }
    assert(v@.take(v@.len() as int) =~= v@);
    res
}

} // verus!
