//! Scan cache: per-file results keyed by relative path, validated first by
//! modification time and then by a BLAKE3 hash of the file's content.
//!
//! Where the cache lives on disk and its binary encoding belong to the
//! command-line tool; this module holds the cache's contents and the rules by
//! which an entry is found, replaced and dropped.
use vstd::prelude::*;

use crate::config::{string_views, Config};
use crate::model::{clone_items, item_views, TodoItem};
use crate::pattern::Pattern;
use crate::scanner::{scan_content, scan_content_spec};
use crate::keyed::{distinct_keys, find_key, kept, lemma_kept_distinct, lemma_lookup_after_store, lookup, store, stored};
use crate::text::str_to_string;

verus! {

/// What `blake3::hash` returns for `input` (the 32 bytes of the digest).
pub uninterp spec fn blake3_of(input: Seq<u8>) -> Seq<u8>;

/// `blake3::hash`, as bytes.  The contract names the digest; BLAKE3 digests
/// are 32 bytes long.
#[verifier::external_body]
fn blake3_digest(input: &[u8]) -> (res: [u8; 32])
    ensures
        res@ == blake3_of(input@),
{
    *blake3::hash(input).as_bytes()
}

/// The cached scan of one file.
#[derive(Debug)]
pub struct CacheEntry {
    pub content_hash: [u8; 32],
    pub items: Vec<TodoItem>,
    pub mtime_secs: u64,
    pub mtime_nanos: u32,
}

/// Cached scan results of a tree, valid for one configuration hash.
#[derive(Debug)]
pub struct ScanCache {
    pub config_hash: [u8; 32],
    pub entries: Vec<(String, CacheEntry)>,
}

/// The bytes hashed for a configuration: each tag followed by a zero byte,
/// a one byte, each excluded directory followed by a zero byte, a one byte,
/// each exclude pattern followed by a zero byte.
pub open spec fn config_hash_input(c: Config) -> Seq<u8> {
    terminated(string_views(c.tags@)) + seq![1u8] + terminated(string_views(c.exclude_dirs@)) + seq![1u8]
        + terminated(string_views(c.exclude_patterns@))
}

/// The UTF-8 bytes of each text, each followed by a zero byte.
pub open spec fn terminated(ts: Seq<Seq<char>>) -> Seq<u8>
    decreases ts.len(),
{
    if ts.len() == 0 {
        seq![]
    } else {
        terminated(ts.drop_last()) + vstd::utf8::encode_utf8(ts.last()) + seq![0u8]
    }
}

fn same_digest(a: &[u8; 32], b: &[u8; 32]) -> (res: bool)
    ensures
        res == (a@ == b@),
{
    let mut i: usize = 0;
    while i < 32
        invariant
            i <= 32,
            a@.len() == 32,
            b@.len() == 32,
            forall|k: int| 0 <= k < i ==> a@[k] == b@[k],
        decreases 32 - i,
    {
        if a[i] != b[i] {
            return false;
        }
        i += 1;
    }
    assert(a@ =~= b@);
    true
}

impl ScanCache {
    /// The entries name each path at most once.
    pub open spec fn wf(&self) -> bool {
        distinct_keys(self.entries@)
    }

    /// An empty cache for the given configuration hash.
    pub fn new(config_hash: [u8; 32]) -> (res: ScanCache)
        ensures
            res.config_hash == config_hash,
            res.entries@.len() == 0,
            res.wf(),
    {
        ScanCache { config_hash, entries: Vec::new() }
    }

    /// BLAKE3 hash of the configuration fields that decide what a scan finds:
    /// the tags, the excluded directories and the exclude patterns.
    pub fn config_hash(config: &Config) -> (res: [u8; 32])
        ensures
            res@ == blake3_of(config_hash_input(*config)),
    {
        let mut bytes: Vec<u8> = Vec::new();
        append_terminated(&mut bytes, &config.tags);
        bytes.push(1u8);
        append_terminated(&mut bytes, &config.exclude_dirs);
        bytes.push(1u8);
        append_terminated(&mut bytes, &config.exclude_patterns);
        proof {
            assert(bytes@ =~= config_hash_input(*config));
        }
        blake3_digest(bytes.as_slice())
    }

    /// The cached items of `path` when its recorded modification time is
    /// exactly `mtime_secs` seconds and `mtime_nanos` nanoseconds.
    pub fn check(&self, path: &str, mtime_secs: u64, mtime_nanos: u32) -> (res: Option<&[TodoItem]>)
        ensures
            match lookup(self.entries@, path@) {
                Some(e) => if e.mtime_secs == mtime_secs && e.mtime_nanos == mtime_nanos {
                    res is Some && res->0@ == e.items@
                } else {
                    res is None
                },
                None => res is None,
            },
    {
        match find_key(&self.entries, path) {
            Some(i) => {
                let e = &self.entries[i].1;
                if e.mtime_secs == mtime_secs && e.mtime_nanos == mtime_nanos {
                    Some(e.items.as_slice())
                } else {
                    None
                }
            },
            None => None,
        }
    }

    /// The cached items of `path` when the BLAKE3 hash of `content` equals the
    /// recorded content hash.
    pub fn check_with_content(&self, path: &str, content: &[u8]) -> (res: Option<&[TodoItem]>)
        ensures
            match lookup(self.entries@, path@) {
                Some(e) => if e.content_hash@ == blake3_of(content@) {
                    res is Some && res->0@ == e.items@
                } else {
                    res is None
                },
                None => res is None,
            },
    {
        match find_key(&self.entries, path) {
            Some(i) => {
                let e = &self.entries[i].1;
                let digest = blake3_digest(content);
                if same_digest(&e.content_hash, &digest) {
                    Some(e.items.as_slice())
                } else {
                    None
                }
            },
            None => None,
        }
    }

    /// Store the scan of `path`, replacing any entry it had.
    pub fn insert(&mut self, path: String, content_hash: [u8; 32], items: Vec<TodoItem>, mtime_secs: u64, mtime_nanos: u32)
        requires
            old(self).wf(),
        ensures
            final(self).wf(),
            final(self).config_hash == old(self).config_hash,
            final(self).entries@ == stored(
                old(self).entries@,
                path,
                CacheEntry { content_hash, items, mtime_secs, mtime_nanos },
            ),
    {
        let entry = CacheEntry { content_hash, items, mtime_secs, mtime_nanos };
        store(&mut self.entries, path, entry);
    }

    /// Scan `path`, whose content is `content` and whose modification time is
    /// `mtime_secs` seconds and `mtime_nanos` nanoseconds, through the cache.
    /// When the entry of `path` was recorded for content with the same BLAKE3
    /// hash, its items come back (with `true`: a cache hit) and the entry
    /// takes the new modification time; otherwise `content` is scanned and
    /// the entry holds the new scan.
    pub fn scan_file(&mut self, path: String, content: &str, mtime_secs: u64, mtime_nanos: u32, pattern: &Pattern) -> (res: (Vec<TodoItem>, bool))
        requires
            old(self).wf(),
        ensures
            final(self).wf(),
            final(self).config_hash == old(self).config_hash,
            lookup(final(self).entries@, path@) is Some,
            final(self).entries@ == stored(old(self).entries@, path, lookup(final(self).entries@, path@)->0),
            lookup(final(self).entries@, path@)->0.content_hash@ == blake3_of(vstd::utf8::encode_utf8(content@)),
            lookup(final(self).entries@, path@)->0.mtime_secs == mtime_secs,
            lookup(final(self).entries@, path@)->0.mtime_nanos == mtime_nanos,
            item_views(lookup(final(self).entries@, path@)->0.items@) == item_views(res.0@),
            match lookup(old(self).entries@, path@) {
                Some(e) => if e.content_hash@ == blake3_of(vstd::utf8::encode_utf8(content@)) {
                    res.1 && item_views(res.0@) == item_views(e.items@)
                } else {
                    !res.1 && item_views(res.0@) == scan_content_spec(content@, path@, pattern@).0
                },
                None => !res.1 && item_views(res.0@) == scan_content_spec(content@, path@, pattern@).0,
            },
    {
        let bytes = content.as_bytes();
        let digest = blake3_digest(bytes);
        let (items, hit) = match find_key(&self.entries, path.as_str()) {
            Some(i) => {
                let e = &self.entries[i].1;
                if same_digest(&e.content_hash, &digest) {
                    (clone_items(&e.items), true)
                } else {
                    (scan_content(content, path.as_str(), pattern).items, false)
                }
            },
            None => (scan_content(content, path.as_str(), pattern).items, false),
        };
        let kept_items = clone_items(&items);
        let ghost before = self.entries@;
        let ghost key = path;
        let entry = CacheEntry { content_hash: digest, items: kept_items, mtime_secs, mtime_nanos };
        let ghost ev = entry;
        store(&mut self.entries, path, entry);
        proof {
            lemma_lookup_after_store(before, key, ev, key@);
        }
        (items, hit)
    }

    /// Drop the entries of files that are not among `existing_paths`.
    pub fn prune(&mut self, existing_paths: &Vec<String>)
        requires
            old(self).wf(),
        ensures
            final(self).wf(),
            final(self).config_hash == old(self).config_hash,
            final(self).entries@ == kept(old(self).entries@, string_views(existing_paths@).to_set()),
    {
        let ghost keep = string_views(existing_paths@).to_set();
        let mut src: Vec<(String, CacheEntry)> = Vec::new();
        std::mem::swap(&mut src, &mut self.entries);
        let ghost all = src@;
        let total: usize = src.len();
        let mut out: Vec<(String, CacheEntry)> = Vec::new();
        let mut n: usize = 0;
        while src.len() > 0
            invariant
                all.len() == n + src@.len(),
                all.len() == total,
                src@ == all.skip(n as int),
                out@ == kept(all.take(n as int), keep),
                keep == string_views(existing_paths@).to_set(),
            decreases src@.len(),
        {
            let p = src.remove(0);
            proof {
                assert(all[n as int] == p);
                assert(src@ =~= all.skip(n + 1));
                assert(all.take(n + 1).drop_last() =~= all.take(n as int));
                assert(all.take(n + 1).last() == p);
            }
            if contains_string(existing_paths, p.0.as_str()) {
                out.push(p);
            }
            n += 1;
        }
        assert(all.take(all.len() as int) =~= all);
        self.entries = out;
        proof {
            lemma_kept_distinct(all, keep);
        }
    }
}


/// Whether `paths` holds `p`.
fn contains_string(paths: &Vec<String>, p: &str) -> (res: bool)
    ensures
        res == string_views(paths@).to_set().contains(p@),
{
    let key = str_to_string(p);
    let mut j: usize = 0;
    while j < paths.len()
        invariant
            j <= paths@.len(),
            key@ == p@,
            forall|m: int| 0 <= m < j ==> paths@[m]@ != p@,
        decreases paths@.len() - j,
    {
        if paths[j] == key {
            assert(string_views(paths@)[j as int] == p@);
            return true;
        }
        j += 1;
    }
    assert forall|m: int| 0 <= m < string_views(paths@).len() implies string_views(paths@)[m] != p@ by {
        assert(string_views(paths@)[m] == paths@[m]@);
    }
    false
}

/// Append the UTF-8 bytes of each text, each followed by a zero byte.
fn append_terminated(out: &mut Vec<u8>, ts: &Vec<String>)
    ensures
        final(out)@ == old(out)@ + terminated(string_views(ts@)),
{
    let ghost start = out@;
    let ghost tv = string_views(ts@);
    let mut i: usize = 0;
    while i < ts.len()
        invariant
            i <= ts@.len(),
            tv == string_views(ts@),
            out@ == start + terminated(tv.take(i as int)),
        decreases ts@.len() - i,
    {
        let bytes = ts[i].as_str().as_bytes();
        let ghost before = out@;
        let mut k: usize = 0;
        while k < bytes.len()
            invariant
                k <= bytes@.len(),
                out@ == before + bytes@.take(k as int),
            decreases bytes@.len() - k,
        {
            out.push(bytes[k]);
            assert(bytes@.take(k + 1) =~= bytes@.take(k as int).push(bytes@[k as int]));
            k += 1;
        }
        out.push(0u8);
        proof {
            assert(bytes@.take(bytes@.len() as int) =~= bytes@);
            assert(tv.take(i + 1).drop_last() =~= tv.take(i as int));
            assert(tv[i as int] == ts@[i as int]@);
            assert(out@ =~= start + terminated(tv.take(i + 1)));
        }
        i += 1;
    }
    assert(tv.take(ts@.len() as int) =~= tv);
}

} // verus!
