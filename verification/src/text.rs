//! Text primitives over character sequences.
//!
//! Every piece of text handling in the library works on `Seq<char>` in its
//! specifications and on `Vec<char>` in executable code.  This module holds the
//! conversions between `str`/`String` and `Vec<char>`, the standard library's
//! character classification and case mapping (behind trusted wrappers), and
//! verified implementations of trimming, searching, line splitting, decimal
//! formatting and decimal parsing.
use vstd::prelude::*;

verus! {

// ───────────────────────── conversions ─────────────────────────

/// The characters of `s`, in order.
pub fn chars_of(s: &str) -> (res: Vec<char>)
    ensures
        res@ == s@,
{
    let mut res: Vec<char> = Vec::new();
    for c in it: s.chars()
        invariant
            res@ == it.seq().take(it.index() as int),
            it.seq() == s@,
    {
        res.push(c);
    }
    res
}

/// `String` built from a character slice (std's `FromIterator<&char> for String`).
#[verifier::external_body]
pub fn string_from_chars(v: &[char]) -> (res: String)
    ensures
        res@ == v@,
{
    v.iter().collect()
}

/// Owned copy of a string slice.
pub fn str_to_string(s: &str) -> (res: String)
    ensures
        res@ == s@,
{
    s.to_owned()
}

/// Characters `v[a..b]` as a new vector.
pub fn sub_chars(v: &[char], a: usize, b: usize) -> (res: Vec<char>)
    requires
        a <= b <= v@.len(),
    ensures
        res@ == v@.subrange(a as int, b as int),
{
    let mut res: Vec<char> = Vec::new();
    let mut i = a;
    while i < b
        invariant
            a <= i <= b <= v@.len(),
            res@ == v@.subrange(a as int, i as int),
        decreases b - i,
    {
        res.push(v[i]);
        i += 1;
    }
    res
}

/// Append all of `src` to `dst`.
pub fn push_all(dst: &mut Vec<char>, src: &[char])
    ensures
        final(dst)@ == old(dst)@ + src@,
{
    let mut i: usize = 0;
    while i < src.len()
        invariant
            i <= src@.len(),
            dst@ == old(dst)@ + src@.take(i as int),
        decreases src@.len() - i,
    {
        dst.push(src[i]);
        i += 1;
        assert(src@.take(i as int) =~= src@.take(i - 1) + seq![src@[i - 1]]);
    }
    assert(src@.take(src@.len() as int) =~= src@);
}

/// Append the characters of `s` to `dst`.
pub fn push_str(dst: &mut Vec<char>, s: &str)
    ensures
        final(dst)@ == old(dst)@ + s@,
{
    let cs = chars_of(s);
    push_all(dst, &cs);
}

/// Whether two character sequences are equal.
pub fn chars_eq(a: &[char], b: &[char]) -> (res: bool)
    ensures
        res == (a@ == b@),
{
    if a.len() != b.len() {
        return false;
    }
    let mut i: usize = 0;
    while i < a.len()
        invariant
            a@.len() == b@.len(),
            i <= a@.len(),
            forall|j: int| 0 <= j < i ==> a@[j] == b@[j],
        decreases a@.len() - i,
    {
        if a[i] != b[i] {
            return false;
        }
        i += 1;
    }
    assert(a@ =~= b@);
    true
}

// ───────────────────────── character classes (std) ─────────────────────────

/// What `char::is_whitespace` returns for a character beyond ASCII (the
/// Unicode `White_Space` property).
pub uninterp spec fn white_space_beyond_ascii(c: char) -> bool;

/// The ASCII white-space characters: space, and tab through carriage return.
pub open spec fn ascii_white_space(c: char) -> bool {
    c == ' ' || ('\t' <= c <= '\r')
}

/// `char::is_whitespace`: the Unicode `White_Space` property.
pub open spec fn white_space(c: char) -> bool {
    if c <= '\u{7f}' {
        ascii_white_space(c)
    } else {
        white_space_beyond_ascii(c)
    }
}

/// `char::is_whitespace`: whether `c` has the Unicode `White_Space` property.
/// Among ASCII characters these are space, tab, line feed, vertical tab, form
/// feed and carriage return; beyond ASCII the contract names the result.
#[verifier::external_body]
pub fn is_whitespace(c: char) -> (res: bool)
    ensures
        res == if c <= '\u{7f}' {
            ascii_white_space(c)
        } else {
            white_space_beyond_ascii(c)
        },
{
    c.is_whitespace()
}

/// Every character is ASCII.
pub open spec fn all_ascii(s: Seq<char>) -> bool {
    forall|i: int| 0 <= i < s.len() ==> s[i] <= '\u{7f}'
}

/// ASCII upper-casing of one character: `a`..`z` become `A`..`Z`.
pub open spec fn ascii_upper(c: char) -> char {
    if 'a' <= c <= 'z' {
        ((c as u32) - 32) as char
    } else {
        c
    }
}

/// What `str::to_lowercase` returns for a string (Unicode lowercase mapping).
pub uninterp spec fn unicode_lowercase(s: Seq<char>) -> Seq<char>;

/// The lowercase form of a text: on ASCII text the ASCII mapping (which is
/// what the Unicode mapping does there), otherwise the Unicode mapping.
pub open spec fn lowercase(s: Seq<char>) -> Seq<char> {
    if all_ascii(s) {
        s.map_values(|c: char| ascii_lower(c))
    } else {
        unicode_lowercase(s)
    }
}

/// `str::to_lowercase`: the Unicode lowercase form of `s`.  On ASCII text,
/// where the Unicode mapping is the ASCII one, the contract spells it out:
/// each of `A`..`Z` becomes its lower-case letter and every other character
/// stays.
#[verifier::external_body]
pub fn to_lowercase(s: &[char]) -> (res: Vec<char>)
    ensures
        res@ == lowercase(s@),
        !all_ascii(s@) ==> res@ == unicode_lowercase(s@),
{
    let t: String = s.iter().collect();
    t.to_lowercase().chars().collect()
}

/// What `str::to_uppercase` returns for a string (Unicode uppercase mapping).
pub uninterp spec fn unicode_uppercase(s: Seq<char>) -> Seq<char>;

/// The uppercase form of a text: on ASCII text the ASCII mapping (which is
/// what the Unicode mapping does there), otherwise the Unicode mapping.
pub open spec fn uppercase(s: Seq<char>) -> Seq<char> {
    if all_ascii(s) {
        s.map_values(|c: char| ascii_upper(c))
    } else {
        unicode_uppercase(s)
    }
}

/// `str::to_uppercase`: the Unicode uppercase form of `s`.  On ASCII text,
/// where the Unicode mapping is the ASCII one, the contract spells it out:
/// each of `a`..`z` becomes its upper-case letter and every other character
/// stays.
#[verifier::external_body]
pub fn to_uppercase(s: &[char]) -> (res: Vec<char>)
    ensures
        res@ == uppercase(s@),
        !all_ascii(s@) ==> res@ == unicode_uppercase(s@),
{
    let t: String = s.iter().collect();
    t.to_uppercase().chars().collect()
}

/// ASCII digit test (`char::is_ascii_digit`).
pub open spec fn is_ascii_digit(c: char) -> bool {
    '0' <= c <= '9'
}

/// ASCII hexadecimal digit test (`char::is_ascii_hexdigit`).
pub open spec fn is_ascii_hexdigit(c: char) -> bool {
    ('0' <= c <= '9') || ('a' <= c <= 'f') || ('A' <= c <= 'F')
}

/// ASCII lowercase mapping of one character (`char::to_ascii_lowercase`).
pub open spec fn ascii_lower(c: char) -> char {
    if 'A' <= c <= 'Z' {
        ((c as u32) + 32) as char
    } else {
        c
    }
}

/// Case-insensitive ASCII comparison (`str::eq_ignore_ascii_case`).
pub open spec fn eq_ignore_ascii_case(a: Seq<char>, b: Seq<char>) -> bool {
    a.len() == b.len() && forall|i: int| 0 <= i < a.len() ==> ascii_lower(a[i]) == ascii_lower(b[i])
}

fn ascii_lower_exec(c: char) -> (res: char)
    ensures
        res == ascii_lower(c),
{
    if 'A' <= c && c <= 'Z' {
        let u = (c as u32) + 32;
        assert(0x41 + 32 <= u <= 0x5a + 32);
        char_from_ascii(u)
    } else {
        c
    }
}

/// The character whose code is `u`, for an ASCII code.
fn char_from_ascii(u: u32) -> (res: char)
    requires
        u < 128,
    ensures
        res == u as char,
{
    (u as u8) as char
}

pub fn eq_ignore_ascii_case_exec(a: &[char], b: &[char]) -> (res: bool)
    ensures
        res == eq_ignore_ascii_case(a@, b@),
{
    if a.len() != b.len() {
        return false;
    }
    let mut i: usize = 0;
    while i < a.len()
        invariant
            a@.len() == b@.len(),
            i <= a@.len(),
            forall|j: int| 0 <= j < i ==> ascii_lower(a@[j]) == ascii_lower(b@[j]),
        decreases a@.len() - i,
    {
        if ascii_lower_exec(a[i]) != ascii_lower_exec(b[i]) {
            return false;
        }
        i += 1;
    }
    true
}

// ───────────────────────── trimming ─────────────────────────

/// `str::trim_start`: drop leading white space.
pub open spec fn trim_start(s: Seq<char>) -> Seq<char>
    decreases s.len(),
{
    if s.len() > 0 && white_space(s[0]) {
        trim_start(s.drop_first())
    } else {
        s
    }
}

/// `str::trim_end`: drop trailing white space.
pub open spec fn trim_end(s: Seq<char>) -> Seq<char>
    decreases s.len(),
{
    if s.len() > 0 && white_space(s.last()) {
        trim_end(s.drop_last())
    } else {
        s
    }
}

/// `str::trim`: drop white space at both ends.
pub open spec fn trim(s: Seq<char>) -> Seq<char> {
    trim_end(trim_start(s))
}

/// Number of leading white-space characters; `trim_start(s) == s.skip(n)`.
pub fn trim_start_len(s: &[char]) -> (n: usize)
    ensures
        n <= s@.len(),
        trim_start(s@) == s@.skip(n as int),
        forall|j: int| 0 <= j < n ==> white_space(#[trigger] s@[j]),
{
    let mut i: usize = 0;
    assert(s@.skip(0) =~= s@);
    while i < s.len() && is_whitespace(s[i])
        invariant
            i <= s@.len(),
            trim_start(s@) == trim_start(s@.skip(i as int)),
            forall|j: int| 0 <= j < i ==> white_space(#[trigger] s@[j]),
        decreases s@.len() - i,
    {
        assert(s@.skip(i as int).drop_first() =~= s@.skip(i + 1));
        i += 1;
    }
    i
}

/// Length of `s` once trailing white space is dropped; `trim_end(s) == s.take(n)`.
pub fn trim_end_len(s: &[char]) -> (n: usize)
    ensures
        n <= s@.len(),
        trim_end(s@) == s@.take(n as int),
{
    let mut i: usize = s.len();
    assert(s@.take(i as int) =~= s@);
    while i > 0 && is_whitespace(s[i - 1])
        invariant
            i <= s@.len(),
            trim_end(s@) == trim_end(s@.take(i as int)),
        decreases i,
    {
        assert(s@.take(i as int).drop_last() =~= s@.take(i - 1));
        i -= 1;
    }
    i
}

/// `str::trim` on characters.
pub fn trim_chars(s: &[char]) -> (res: Vec<char>)
    ensures
        res@ == trim(s@),
{
    let a = trim_start_len(s);
    let t = sub_chars(s, a, s.len());
    assert(t@ =~= s@.skip(a as int));
    let b = trim_end_len(&t);
    sub_chars(&t, 0, b)
}

/// `str::trim_start` on characters.
pub fn trim_start_chars(s: &[char]) -> (res: Vec<char>)
    ensures
        res@ == trim_start(s@),
{
    let a = trim_start_len(s);
    let t = sub_chars(s, a, s.len());
    assert(t@ =~= s@.skip(a as int));
    t
}

/// Whether the text is empty once trimmed (`s.trim().is_empty()`).
pub fn is_blank(s: &[char]) -> (res: bool)
    ensures
        res == (trim(s@).len() == 0),
{
    let t = trim_chars(s);
    t.len() == 0
}

// ───────────────────────── words ─────────────────────────

/// Length of the run of non-white-space characters at the start of `s`.
pub open spec fn word_len(s: Seq<char>) -> nat
    decreases s.len(),
{
    if s.len() > 0 && !white_space(s[0]) {
        1 + word_len(s.drop_first())
    } else {
        0
    }
}

pub proof fn lemma_word_len_bound(s: Seq<char>)
    ensures
        word_len(s) <= s.len(),
    decreases s.len(),
{
    if s.len() > 0 && !white_space(s[0]) {
        lemma_word_len_bound(s.drop_first());
    }
}

/// `str::split_whitespace`: the maximal runs of non-white-space characters, in order.
pub open spec fn words(s: Seq<char>) -> Seq<Seq<char>>
    decreases s.len(),
{
    if s.len() == 0 {
        seq![]
    } else if white_space(s[0]) {
        words(s.drop_first())
    } else {
        proof {
            lemma_word_len_bound(s);
        }
        seq![s.take(word_len(s) as int)] + words(s.skip(word_len(s) as int))
    }
}

/// `str::split_whitespace` on characters.
pub fn split_whitespace_chars(s: &[char]) -> (res: Vec<Vec<char>>)
    ensures
        views(res@) == words(s@),
{
    let mut res: Vec<Vec<char>> = Vec::new();
    let mut i: usize = 0;
    assert(s@.skip(0) =~= s@);
    assert(views(res@) + words(s@) =~= words(s@));
    while i < s.len()
        invariant
            i <= s@.len(),
            views(res@) + words(s@.skip(i as int)) == words(s@),
        decreases s@.len() - i,
    {
        if is_whitespace(s[i]) {
            assert(s@.skip(i as int).drop_first() =~= s@.skip(i + 1));
            i += 1;
        } else {
            let mut j: usize = i;
            assert(s@.skip(i as int).skip(0) =~= s@.skip(i as int));
            while j < s.len() && !is_whitespace(s[j])
                invariant
                    i <= j <= s@.len(),
                    word_len(s@.skip(i as int)) == (j - i) + word_len(s@.skip(j as int)),
                decreases s@.len() - j,
            {
                assert(s@.skip(j as int).drop_first() =~= s@.skip(j + 1));
                j += 1;
            }
            assert(word_len(s@.skip(j as int)) == 0);
            let ghost rest = s@.skip(i as int);
            assert(rest.take(j - i) =~= s@.subrange(i as int, j as int));
            assert(rest.skip(j - i) =~= s@.skip(j as int));
            let w = sub_chars(s, i, j);
            let ghost old_res = res@;
            res.push(w);
            assert(views(res@) =~= views(old_res) + seq![w@]);
            assert(views(res@) + words(s@.skip(j as int)) =~= views(old_res) + (seq![w@] + words(
                s@.skip(j as int),
            )));
            i = j;
        }
    }
    assert(s@.skip(i as int).len() == 0);
    assert(views(res@) + seq![] =~= views(res@));
    res
}

// ───────────────────────── searching ─────────────────────────

/// `pat` occurs in `s` at position `i`.
pub open spec fn occurs_at(s: Seq<char>, pat: Seq<char>, i: int) -> bool {
    0 <= i && i + pat.len() <= s.len() && s.subrange(i, i + pat.len()) == pat
}

/// First position at or after `i` where `pat` occurs in `s`.
pub open spec fn find_from(s: Seq<char>, pat: Seq<char>, i: nat) -> Option<nat>
    decreases s.len() + 1 - i,
{
    if i + pat.len() > s.len() {
        None
    } else if occurs_at(s, pat, i as int) {
        Some(i)
    } else {
        find_from(s, pat, i + 1)
    }
}

/// `str::find`: first position where `pat` occurs in `s`.
pub open spec fn find(s: Seq<char>, pat: Seq<char>) -> Option<nat> {
    find_from(s, pat, 0)
}

/// `str::contains`.
pub open spec fn contains(s: Seq<char>, pat: Seq<char>) -> bool {
    find(s, pat) is Some
}

/// `str::starts_with`.
pub open spec fn starts_with(s: Seq<char>, pat: Seq<char>) -> bool {
    pat.len() <= s.len() && s.take(pat.len() as int) == pat
}

pub proof fn lemma_find_from_spec(s: Seq<char>, pat: Seq<char>, i: nat)
    ensures
        find_from(s, pat, i) matches Some(k) ==> i <= k && occurs_at(s, pat, k as int) && forall|j: int|
            i <= j < k ==> !occurs_at(s, pat, j),
        find_from(s, pat, i) is None ==> forall|j: int| i <= j ==> !occurs_at(s, pat, j),
    decreases s.len() + 1 - i,
{
    if i + pat.len() > s.len() {
    } else if occurs_at(s, pat, i as int) {
    } else {
        lemma_find_from_spec(s, pat, i + 1);
    }
}

/// Whether `pat` occurs at position `i` of `s`.
pub fn occurs_at_exec(s: &[char], pat: &[char], i: usize) -> (res: bool)
    ensures
        res == occurs_at(s@, pat@, i as int),
{
    if i > s.len() || pat.len() > s.len() - i {
        return false;
    }
    let mut k: usize = 0;
    while k < pat.len()
        invariant
            i + pat@.len() <= s@.len(),
            i + pat.len() <= s.len(),
            k <= pat@.len(),
            forall|j: int| 0 <= j < k ==> s@[i + j] == pat@[j],
        decreases pat@.len() - k,
    {
        if s[i + k] != pat[k] {
            assert(s@.subrange(i as int, i + pat@.len())[k as int] != pat@[k as int]);
            return false;
        }
        k += 1;
    }
    assert(s@.subrange(i as int, i + pat@.len()) =~= pat@);
    true
}

/// `str::find`.
pub fn find_exec(s: &[char], pat: &[char]) -> (res: Option<usize>)
    ensures
        res matches Some(k) ==> find(s@, pat@) == Some(k as nat),
        res is None ==> find(s@, pat@) is None,
{
    let mut i: usize = 0;
    while i <= s.len()
        invariant
            i <= s@.len(),
            find(s@, pat@) == find_from(s@, pat@, i as nat),
        decreases s@.len() + 1 - i,
    {
        if pat.len() > s.len() - i {
            return None;
        }
        if occurs_at_exec(s, pat, i) {
            return Some(i);
        }
        if i == s.len() {
            assert(s@.subrange(i as int, i as int) =~= pat@);
            return None;
        }
        i += 1;
    }
    None
}

/// `str::contains`.
pub fn contains_exec(s: &[char], pat: &[char]) -> (res: bool)
    ensures
        res == contains(s@, pat@),
{
    find_exec(s, pat).is_some()
}

/// `str::starts_with`.
pub fn starts_with_exec(s: &[char], pat: &[char]) -> (res: bool)
    ensures
        res == starts_with(s@, pat@),
{
    let r = occurs_at_exec(s, pat, 0);
    proof {
        if pat@.len() <= s@.len() {
            assert(s@.subrange(0, pat@.len() as int) =~= s@.take(pat@.len() as int));
        }
    }
    r
}

/// First index of `c` in `s`.
pub open spec fn index_of_char(s: Seq<char>, c: char) -> Option<nat>
    decreases s.len(),
{
    if s.len() == 0 {
        None
    } else if s[0] == c {
        Some(0)
    } else {
        match index_of_char(s.drop_first(), c) {
            Some(k) => Some(k + 1),
            None => None,
        }
    }
}

pub proof fn lemma_index_of_char(s: Seq<char>, c: char)
    ensures
        index_of_char(s, c) matches Some(k) ==> k < s.len() && s[k as int] == c && forall|j: int|
            0 <= j < k ==> s[j] != c,
        index_of_char(s, c) is None ==> forall|j: int| 0 <= j < s.len() ==> s[j] != c,
    decreases s.len(),
{
    if s.len() > 0 && s[0] != c {
        lemma_index_of_char(s.drop_first(), c);
        if let Some(k) = index_of_char(s.drop_first(), c) {
            assert forall|j: int| 0 <= j < k + 1 implies s[j] != c by {
                if j > 0 {
                    assert(s[j] == s.drop_first()[j - 1]);
                }
            }
        } else {
            assert forall|j: int| 0 <= j < s.len() implies s[j] != c by {
                if j > 0 {
                    assert(s[j] == s.drop_first()[j - 1]);
                }
            }
        }
    }
}

/// If `s[k] == c` and `c` does not occur before `k`, then `k` is the first index of `c`.
pub proof fn lemma_index_of_char_at(s: Seq<char>, c: char, k: int)
    requires
        0 <= k < s.len(),
        s[k] == c,
        forall|j: int| 0 <= j < k ==> s[j] != c,
    ensures
        index_of_char(s, c) == Some(k as nat),
    decreases k,
{
    if k > 0 {
        lemma_index_of_char_at(s.drop_first(), c, k - 1);
    }
}

/// If `c` does not occur in `s`, it has no first index.
pub proof fn lemma_index_of_char_none(s: Seq<char>, c: char)
    requires
        forall|j: int| 0 <= j < s.len() ==> s[j] != c,
    ensures
        index_of_char(s, c) is None,
    decreases s.len(),
{
    if s.len() > 0 {
        lemma_index_of_char_none(s.drop_first(), c);
    }
}

/// First index of `c` in `s`.
pub fn index_of_char_exec(s: &[char], c: char) -> (res: Option<usize>)
    ensures
        res matches Some(k) ==> index_of_char(s@, c) == Some(k as nat),
        res is None ==> index_of_char(s@, c) is None,
{
    let mut i: usize = 0;
    while i < s.len()
        invariant
            i <= s@.len(),
            forall|j: int| 0 <= j < i ==> s@[j] != c,
        decreases s@.len() - i,
    {
        if s[i] == c {
            proof {
                lemma_index_of_char_at(s@, c, i as int);
            }
            return Some(i);
        }
        i += 1;
    }
    proof {
        lemma_index_of_char_none(s@, c);
    }
    None
}

/// Number of occurrences of `c` in `s`.
pub open spec fn count_char(s: Seq<char>, c: char) -> nat
    decreases s.len(),
{
    if s.len() == 0 {
        0
    } else {
        count_char(s.drop_last(), c) + if s.last() == c {
            1nat
        } else {
            0nat
        }
    }
}

// ───────────────────────── lines ─────────────────────────

/// Drop one trailing carriage return.
pub open spec fn strip_cr(s: Seq<char>) -> Seq<char> {
    if s.len() > 0 && s.last() == '\r' {
        s.drop_last()
    } else {
        s
    }
}

/// `str::lines`: split at `\n`; a `\r` right before a `\n` belongs to the line
/// ending; a final line ending does not start another (empty) line.
pub open spec fn split_lines(s: Seq<char>) -> Seq<Seq<char>>
    decreases s.len(),
{
    if s.len() == 0 {
        seq![]
    } else {
        match index_of_char(s, '\n') {
            None => seq![s],
            Some(i) => {
                if i < s.len() {
                    seq![strip_cr(s.take(i as int))] + split_lines(s.skip(i + 1 as int))
                } else {
                    seq![]
                }
            },
        }
    }
}

/// The view of a vector of character vectors.
pub open spec fn views(v: Seq<Vec<char>>) -> Seq<Seq<char>> {
    v.map_values(|x: Vec<char>| x@)
}

fn strip_cr_exec(v: Vec<char>) -> (res: Vec<char>)
    ensures
        res@ == strip_cr(v@),
{
    let mut v = v;
    if v.len() > 0 && v[v.len() - 1] == '\r' {
        v.pop();
    }
    v
}

/// `str::lines` on characters.
pub fn split_lines_exec(s: &[char]) -> (res: Vec<Vec<char>>)
    ensures
        views(res@) == split_lines(s@),
{
    let mut res: Vec<Vec<char>> = Vec::new();
    let mut start: usize = 0;
    let mut i: usize = 0;
    assert(s@.skip(0) =~= s@);
    while i < s.len()
        invariant
            start <= i <= s@.len(),
            split_lines(s@) == views(res@) + split_lines(s@.skip(start as int)),
            forall|j: int| start <= j < i ==> s@[j] != '\n',
        decreases s@.len() - i,
    {
        if s[i] == '\n' {
            let ghost rest = s@.skip(start as int);
            proof {
                assert forall|j: int| 0 <= j < i - start implies rest[j] != '\n' by {
                    assert(rest[j] == s@[start + j]);
                }
                lemma_index_of_char_at(rest, '\n', i - start);
                assert(rest.take(i - start) =~= s@.subrange(start as int, i as int));
                assert(rest.skip(i - start + 1) =~= s@.skip(i + 1));
            }
            let line = sub_chars(s, start, i);
            let line = strip_cr_exec(line);
            let ghost old_res = res@;
            res.push(line);
            proof {
                assert(views(res@) =~= views(old_res) + seq![line@]);
                assert(views(res@) + split_lines(s@.skip(i + 1)) =~= views(old_res) + (seq![
                    line@,
                ] + split_lines(s@.skip(i + 1))));
            }
            start = i + 1;
        }
        i += 1;
    }
    if start < s.len() {
        let ghost rest = s@.skip(start as int);
        proof {
            assert forall|j: int| 0 <= j < rest.len() implies rest[j] != '\n' by {
                assert(rest[j] == s@[start + j]);
            }
            lemma_index_of_char_none(rest, '\n');
        }
        let line = sub_chars(s, start, s.len());
        assert(line@ =~= rest);
        let ghost old_res = res@;
        res.push(line);
        assert(views(res@) =~= views(old_res) + seq![line@]);
    } else {
        assert(s@.skip(start as int).len() == 0);
        assert(views(res@) + seq![] =~= views(res@));
    }
    res
}

// ───────────────────────── joining ─────────────────────────

/// `pieces.join(sep)`: the pieces with `sep` between consecutive ones.
pub open spec fn join_with(pieces: Seq<Seq<char>>, sep: Seq<char>) -> Seq<char>
    decreases pieces.len(),
{
    if pieces.len() == 0 {
        seq![]
    } else if pieces.len() == 1 {
        pieces[0]
    } else {
        join_with(pieces.drop_last(), sep) + sep + pieces.last()
    }
}

/// `pieces.join(sep)` on characters.
pub fn join_with_exec(pieces: &Vec<Vec<char>>, sep: &[char]) -> (res: Vec<char>)
    ensures
        res@ == join_with(views(pieces@), sep@),
{
    let mut out: Vec<char> = Vec::new();
    let mut i: usize = 0;
    let ghost vs = views(pieces@);
    assert(vs.take(0) =~= Seq::<Seq<char>>::empty());
    while i < pieces.len()
        invariant
            vs == views(pieces@),
            vs.len() == pieces@.len(),
            i <= pieces@.len(),
            out@ == join_with(vs.take(i as int), sep@),
        decreases pieces@.len() - i,
    {
        assert(vs.take(i + 1).drop_last() =~= vs.take(i as int));
        assert(vs.take(i + 1).last() == pieces@[i as int]@);
        if i > 0 {
            push_all(&mut out, sep);
        }
        push_all(&mut out, &pieces[i]);
        i += 1;
    }
    assert(vs.take(pieces@.len() as int) =~= vs);
    out
}

/// Append one piece to a list of pieces.
pub fn push_piece(pieces: &mut Vec<Vec<char>>, p: Vec<char>)
    ensures
        views(final(pieces)@) == views(old(pieces)@).push(p@),
{
    pieces.push(p);
    assert(views(pieces@) =~= views(old(pieces)@).push(p@));
}

/// `pieces.join("\n")` as a `String`.
pub fn join_lines(pieces: &Vec<Vec<char>>) -> (res: String)
    ensures
        res@ == join_with(views(pieces@), seq!['\n']),
{
    let sep: Vec<char> = vec!['\n'];
    assert(sep@ =~= seq!['\n']);
    let j = join_with_exec(pieces, &sep);
    string_from_chars(&j)
}

// ───────────────────────── decimal numbers ─────────────────────────

/// The character of one decimal digit.
pub open spec fn digit_char(d: nat) -> char {
    ((48 + d) as u32) as char
}

/// Decimal representation of a natural number (no sign, no leading zeros).
pub open spec fn decimal(n: nat) -> Seq<char>
    decreases n,
{
    if n < 10 {
        seq![digit_char(n)]
    } else {
        decimal(n / 10).push(digit_char(n % 10))
    }
}

/// Decimal representation of an integer, with a leading `-` when negative.
pub open spec fn signed_decimal(n: int) -> Seq<char> {
    if n < 0 {
        seq!['-'] + decimal((-n) as nat)
    } else {
        decimal(n as nat)
    }
}

/// `width - len` zeros (or none) followed by `s`.
pub open spec fn zero_pad(s: Seq<char>, width: nat) -> Seq<char> {
    if s.len() >= width {
        s
    } else {
        Seq::new((width - s.len()) as nat, |_i: int| '0') + s
    }
}

/// `format!("{:0w}", n)` for an integer: zero padding goes after the sign.
pub open spec fn zero_padded(n: int, width: nat) -> Seq<char> {
    if n < 0 {
        seq!['-'] + zero_pad(decimal((-n) as nat), if width >= 1 {
            (width - 1) as nat
        } else {
            0
        })
    } else {
        zero_pad(decimal(n as nat), width)
    }
}

/// `format!("{:>w}", s)`: spaces in front of `s` up to `width` characters.
pub open spec fn right_align(s: Seq<char>, width: nat) -> Seq<char> {
    if s.len() >= width {
        s
    } else {
        Seq::new((width - s.len()) as nat, |_i: int| ' ') + s
    }
}

fn digit_char_exec(d: u64) -> (res: char)
    requires
        d < 10,
    ensures
        res == digit_char(d as nat),
{
    char_from_ascii((48 + d) as u32)
}

/// Append the decimal representation of `n`.
pub fn push_decimal(out: &mut Vec<char>, n: u64)
    ensures
        final(out)@ == old(out)@ + decimal(n as nat),
    decreases n,
{
    if n >= 10 {
        push_decimal(out, n / 10);
    }
    let c = digit_char_exec(n % 10);
    out.push(c);
    proof {
        if n < 10 {
            assert(old(out)@ + decimal(n as nat) =~= old(out)@.push(c));
        } else {
            assert(old(out)@ + decimal(n as nat) =~= (old(out)@ + decimal((n / 10) as nat)).push(c));
        }
    }
}

/// Append the decimal representation of a signed integer.
pub fn push_signed_decimal(out: &mut Vec<char>, n: i64)
    ensures
        final(out)@ == old(out)@ + signed_decimal(n as int),
{
    if n < 0 {
        out.push('-');
        let m: u64 = if n == i64::MIN {
            0x8000_0000_0000_0000u64
        } else {
            (-n) as u64
        };
        push_decimal(out, m);
        assert(old(out)@ + signed_decimal(n as int) =~= old(out)@.push('-') + decimal(m as nat));
    } else {
        push_decimal(out, n as u64);
    }
}

/// Append `width - len` copies of `c`.
fn push_fill(out: &mut Vec<char>, c: char, count: usize)
    ensures
        final(out)@ == old(out)@ + Seq::new(count as nat, |_i: int| c),
{
    let mut i: usize = 0;
    while i < count
        invariant
            i <= count,
            out@ == old(out)@ + Seq::new(i as nat, |_i: int| c),
        decreases count - i,
    {
        out.push(c);
        i += 1;
        assert(out@ =~= old(out)@ + Seq::new(i as nat, |_i: int| c));
    }
}

/// Append `s` padded on the left with zeros to `width` characters.
pub fn push_zero_pad(out: &mut Vec<char>, s: &[char], width: usize)
    ensures
        final(out)@ == old(out)@ + zero_pad(s@, width as nat),
{
    if s.len() < width {
        push_fill(out, '0', width - s.len());
    }
    push_all(out, s);
    proof {
        if s@.len() < width {
            assert(final(out)@ =~= old(out)@ + zero_pad(s@, width as nat));
        } else {
            assert(final(out)@ =~= old(out)@ + zero_pad(s@, width as nat));
        }
    }
}

/// Append `s` right-aligned in a field of `width` characters.
pub fn push_right_align(out: &mut Vec<char>, s: &[char], width: usize)
    ensures
        final(out)@ == old(out)@ + right_align(s@, width as nat),
{
    if s.len() < width {
        push_fill(out, ' ', width - s.len());
    }
    push_all(out, s);
    assert(final(out)@ =~= old(out)@ + right_align(s@, width as nat));
}

/// Append `format!("{:0w}", n)`.
pub fn push_zero_padded(out: &mut Vec<char>, n: i64, width: usize)
    ensures
        final(out)@ == old(out)@ + zero_padded(n as int, width as nat),
{
    let mut digits: Vec<char> = Vec::new();
    if n < 0 {
        let m: u64 = if n == i64::MIN {
            0x8000_0000_0000_0000u64
        } else {
            (-n) as u64
        };
        push_decimal(&mut digits, m);
        assert(digits@ =~= decimal((-n) as nat));
        out.push('-');
        let w = if width >= 1 {
            width - 1
        } else {
            0
        };
        push_zero_pad(out, &digits, w);
        assert(final(out)@ =~= old(out)@ + zero_padded(n as int, width as nat));
    } else {
        push_decimal(&mut digits, n as u64);
        assert(digits@ =~= decimal(n as nat));
        push_zero_pad(out, &digits, width);
    }
}

/// Decimal representation of an unsigned number as characters.
pub fn decimal_chars(n: u64) -> (res: Vec<char>)
    ensures
        res@ == decimal(n as nat),
{
    let mut v: Vec<char> = Vec::new();
    push_decimal(&mut v, n);
    assert(v@ =~= decimal(n as nat));
    v
}

// ───────────────────────── decimal parsing ─────────────────────────

/// Value of a string of ASCII digits.
pub open spec fn digits_value(s: Seq<char>) -> nat
    decreases s.len(),
{
    if s.len() == 0 {
        0
    } else {
        digits_value(s.drop_last()) * 10 + ((s.last() as nat) - 48) as nat
    }
}

/// All characters are ASCII digits.
pub open spec fn all_digits(s: Seq<char>) -> bool {
    forall|i: int| 0 <= i < s.len() ==> is_ascii_digit(#[trigger] s[i])
}

/// The decimal text of `n` is a nonempty string of digits whose value is `n`.
pub proof fn lemma_decimal_value(n: nat)
    ensures
        decimal(n).len() > 0,
        all_digits(decimal(n)),
        digits_value(decimal(n)) == n,
    decreases n,
{
    if n < 10 {
        let c = digit_char(n);
        assert(c as nat == 48 + n);
        assert(decimal(n).drop_last() =~= Seq::<char>::empty());
        assert(decimal(n).last() == c);
        assert(digits_value(decimal(n)) == digits_value(decimal(n).drop_last()) * 10 + ((c as nat) - 48) as nat);
    } else {
        lemma_decimal_value(n / 10);
        let c = digit_char(n % 10);
        assert(c as nat == 48 + n % 10);
        assert(decimal(n).drop_last() =~= decimal(n / 10));
        assert(decimal(n).last() == c);
        assert(digits_value(decimal(n)) == digits_value(decimal(n / 10)) * 10 + ((c as nat) - 48) as nat);
        assert forall|i: int| 0 <= i < decimal(n).len() implies is_ascii_digit(#[trigger] decimal(n)[i]) by {
            if i < decimal(n / 10).len() {
                assert(decimal(n)[i] == decimal(n / 10)[i]);
            }
        }
    }
}

/// A leading zero does not change the value of a string of digits.
pub proof fn lemma_leading_zero(s: Seq<char>)
    ensures
        digits_value(seq!['0'] + s) == digits_value(s),
    decreases s.len(),
{
    assert(('0' as nat) == 48);
    let t = seq!['0'] + s;
    assert(digits_value(t) == digits_value(t.drop_last()) * 10 + ((t.last() as nat) - 48) as nat);
    if s.len() == 0 {
        assert(t.drop_last() =~= Seq::<char>::empty());
        assert(t.last() == '0');
    } else {
        lemma_leading_zero(s.drop_last());
        assert(t.drop_last() =~= seq!['0'] + s.drop_last());
        assert(t.last() == s.last());
        assert(digits_value(s) == digits_value(s.drop_last()) * 10 + ((s.last() as nat) - 48) as nat);
    }
}

/// Leading zeros do not change the value of a string of digits.
pub proof fn lemma_zeros_value(k: nat, s: Seq<char>)
    ensures
        digits_value(Seq::new(k, |_i: int| '0') + s) == digits_value(s),
        all_digits(s) ==> all_digits(Seq::new(k, |_i: int| '0') + s),
    decreases k,
{
    if k > 0 {
        lemma_zeros_value((k - 1) as nat, s);
        let t = Seq::new((k - 1) as nat, |_i: int| '0') + s;
        assert(Seq::new(k, |_i: int| '0') + s =~= seq!['0'] + t);
        lemma_leading_zero(t);
    } else {
        assert(Seq::new(k, |_i: int| '0') + s =~= s);
    }
}

/// The zero-padded decimal text of a natural number is a string of at least
/// `width` digits, and at least one.
pub proof fn lemma_zero_padded_digits(n: nat, width: nat)
    ensures
        all_digits(zero_padded(n as int, width)),
        zero_padded(n as int, width).len() >= width,
        zero_padded(n as int, width).len() > 0,
{
    lemma_decimal_value(n);
    let d = decimal(n);
    if d.len() < width {
        lemma_zeros_value((width - d.len()) as nat, d);
    }
}

/// The zero-padded decimal text of a natural number parses back to it.
pub proof fn lemma_parse_zero_padded(n: nat, width: nat, max: nat)
    requires
        n <= max,
    ensures
        parse_unsigned(zero_padded(n as int, width), max) == Some(n),
{
    lemma_decimal_value(n);
    let d = decimal(n);
    if d.len() < width {
        lemma_zeros_value((width - d.len()) as nat, d);
    }
    let t = zero_padded(n as int, width);
    assert(t.len() > 0);
    assert(is_ascii_digit(t[0]));
}

/// `str::parse` for an unsigned integer type whose maximum is `max`: an optional
/// `+` followed by at least one ASCII digit, with a value no larger than `max`.
pub open spec fn parse_unsigned(s: Seq<char>, max: nat) -> Option<nat> {
    let d = if s.len() > 0 && s[0] == '+' {
        s.drop_first()
    } else {
        s
    };
    if d.len() > 0 && all_digits(d) && digits_value(d) <= max {
        Some(digits_value(d))
    } else {
        None
    }
}

/// `str::parse::<i64>`: an optional sign followed by at least one ASCII digit,
/// within the range of `i64`.
pub open spec fn parse_i64_spec(s: Seq<char>) -> Option<int> {
    if s.len() > 0 && s[0] == '-' {
        let d = s.drop_first();
        if d.len() > 0 && all_digits(d) && digits_value(d) <= 0x8000_0000_0000_0000 {
            Some(-(digits_value(d) as int))
        } else {
            None
        }
    } else {
        match parse_unsigned(s, 0x7fff_ffff_ffff_ffff) {
            Some(v) => Some(v as int),
            None => None,
        }
    }
}

proof fn lemma_digits_value_monotone(s: Seq<char>, k: int)
    requires
        0 <= k <= s.len(),
        all_digits(s),
    ensures
        digits_value(s.take(k)) <= digits_value(s),
    decreases s.len() - k,
{
    if k < s.len() {
        lemma_digits_value_monotone(s, k + 1);
        assert(s.take(k + 1).drop_last() =~= s.take(k));
        assert(is_ascii_digit(s[k]));
    } else {
        assert(s.take(k) =~= s);
    }
}

/// Value of a nonempty all-digit string if it is at most `max`.
fn digits_value_bounded(d: &[char], max: u64) -> (res: Option<u64>)
    ensures
        res matches Some(v) ==> d@.len() > 0 && all_digits(d@) && v == digits_value(d@) && v <= max,
        res is None ==> !(d@.len() > 0 && all_digits(d@) && digits_value(d@) <= max),
{
    if d.len() == 0 {
        return None;
    }
    let mut acc: u128 = 0;
    let mut i: usize = 0;
    assert(d@.take(0) =~= Seq::<char>::empty());
    while i < d.len()
        invariant
            i <= d@.len(),
            acc == digits_value(d@.take(i as int)),
            acc <= max,
            forall|j: int| 0 <= j < i ==> is_ascii_digit(#[trigger] d@[j]),
        decreases d@.len() - i,
    {
        let c = d[i];
        if !('0' <= c && c <= '9') {
            return None;
        }
        let dv: u128 = (c as u32 - 48) as u128;
        assert(acc * 10 <= (max as u128) * 10) by (nonlinear_arith)
            requires
                acc <= max,
        ;
        let next = acc * 10 + dv;
        assert(d@.take(i + 1).drop_last() =~= d@.take(i as int));
        if next > max as u128 {
            proof {
                assert forall|j: int| 0 <= j < i + 1 implies is_ascii_digit(#[trigger] d@[j]) by {}
                if all_digits(d@) {
                    lemma_digits_value_monotone(d@, i + 1);
                }
            }
            return None;
        }
        acc = next;
        i += 1;
    }
    assert(d@.take(d@.len() as int) =~= d@);
    Some(acc as u64)
}

/// `str::parse` for an unsigned integer type whose maximum is `max`.
pub fn parse_unsigned_exec(s: &[char], max: u64) -> (res: Option<u64>)
    ensures
        res matches Some(v) ==> parse_unsigned(s@, max as nat) == Some(v as nat),
        res is None ==> parse_unsigned(s@, max as nat) is None,
{
    if s.len() > 0 && s[0] == '+' {
        let d = sub_chars(s, 1, s.len());
        assert(d@ =~= s@.drop_first());
        digits_value_bounded(&d, max)
    } else {
        digits_value_bounded(s, max)
    }
}

/// `str::parse::<i64>`.
pub fn parse_i64_exec(s: &[char]) -> (res: Option<i64>)
    ensures
        res matches Some(v) ==> parse_i64_spec(s@) == Some(v as int),
        res is None ==> parse_i64_spec(s@) is None,
{
    if s.len() > 0 && s[0] == '-' {
        let d = sub_chars(s, 1, s.len());
        assert(d@ =~= s@.drop_first());
        match digits_value_bounded(&d, 0x8000_0000_0000_0000u64) {
            Some(v) => {
                if v == 0x8000_0000_0000_0000u64 {
                    Some(i64::MIN)
                } else {
                    Some(-(v as i64))
                }
            },
            None => None,
        }
    } else {
        match parse_unsigned_exec(s, 0x7fff_ffff_ffff_ffffu64) {
            Some(v) => Some(v as i64),
            None => None,
        }
    }
}


// ───────────────────────── splitting ─────────────────────────

/// `str::split` on one character.
pub open spec fn split_on(s: Seq<char>, c: char) -> Seq<Seq<char>>
    decreases s.len(),
{
    if s.len() == 0 {
        seq![seq![]]
    } else {
        let p = split_on(s.drop_last(), c);
        if s.last() == c {
            p.push(seq![])
        } else {
            p.update(p.len() - 1, p.last().push(s.last()))
        }
    }
}

pub proof fn lemma_split_on_nonempty(s: Seq<char>, c: char)
    ensures
        split_on(s, c).len() >= 1,
    decreases s.len(),
{
    if s.len() > 0 {
        lemma_split_on_nonempty(s.drop_last(), c);
    }
}

/// `str::split` on one character, as character vectors.
pub fn split_on_exec(s: &[char], c: char) -> (res: Vec<Vec<char>>)
    ensures
        views(res@) == split_on(s@, c),
{
    let mut res: Vec<Vec<char>> = Vec::new();
    res.push(Vec::new());
    let mut i: usize = 0;
    assert(s@.take(0) =~= Seq::<char>::empty());
    assert(views(res@) =~= split_on(s@.take(0), c));
    while i < s.len()
        invariant
            i <= s@.len(),
            views(res@) == split_on(s@.take(i as int), c),
            res@.len() >= 1,
        decreases s@.len() - i,
    {
        assert(s@.take(i + 1).drop_last() =~= s@.take(i as int));
        assert(s@.take(i + 1).last() == s@[i as int]);
        let x = s[i];
        let ghost before = views(res@);
        if x == c {
            res.push(Vec::new());
            assert(views(res@) =~= before.push(seq![]));
        } else {
            let last = res.len() - 1;
            let mut w = res.pop().unwrap();
            w.push(x);
            res.push(w);
            assert(views(res@) =~= before.update(last as int, before.last().push(x)));
        }
        i += 1;
    }
    assert(s@.take(s@.len() as int) =~= s@);
    res
}

} // verus!
