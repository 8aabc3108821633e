//! The data model: tags, priorities, TODO items and the results of every
//! analysis.
use vstd::prelude::*;

use crate::deadline::Deadline;
use crate::text::{
    all_ascii, ascii_upper, chars_eq, chars_of, lowercase, push_all, push_str, string_from_chars, to_lowercase, to_uppercase,
    trim, trim_chars, uppercase,
};

verus! {

/// The kind of a TODO-style comment.
#[derive(Debug, Clone, Copy, PartialEq, Eq, Hash, Structural)]
pub enum Tag {
    Todo,
    Fixme,
    Hack,
    Xxx,
    Bug,
    Note,
}

/// Upper-case name of a tag.
pub open spec fn tag_name(t: Tag) -> Seq<char> {
    match t {
        Tag::Todo => seq!['T', 'O', 'D', 'O'],
        Tag::Fixme => seq!['F', 'I', 'X', 'M', 'E'],
        Tag::Hack => seq!['H', 'A', 'C', 'K'],
        Tag::Xxx => seq!['X', 'X', 'X'],
        Tag::Bug => seq!['B', 'U', 'G'],
        Tag::Note => seq!['N', 'O', 'T', 'E'],
    }
}

/// Severity rank of a tag, from NOTE (0) to BUG (5).
pub open spec fn tag_severity(t: Tag) -> u8 {
    match t {
        Tag::Note => 0,
        Tag::Todo => 1,
        Tag::Hack => 2,
        Tag::Xxx => 3,
        Tag::Fixme => 4,
        Tag::Bug => 5,
    }
}

/// The tag whose upper-case name is exactly `s`.
pub open spec fn tag_of_name(s: Seq<char>) -> Option<Tag> {
    if s == tag_name(Tag::Todo) {
        Some(Tag::Todo)
    } else if s == tag_name(Tag::Fixme) {
        Some(Tag::Fixme)
    } else if s == tag_name(Tag::Hack) {
        Some(Tag::Hack)
    } else if s == tag_name(Tag::Xxx) {
        Some(Tag::Xxx)
    } else if s == tag_name(Tag::Bug) {
        Some(Tag::Bug)
    } else if s == tag_name(Tag::Note) {
        Some(Tag::Note)
    } else {
        None
    }
}

/// What [`Tag::parse_tag`] returns: the tag named by the upper-case form of `s`.
pub open spec fn tag_from_text(s: Seq<char>) -> Option<Tag> {
    tag_of_name(uppercase(s))
}

/// A tag's name reads back as that tag: parsing the text a tag prints gives
/// the same tag, so a tag survives a round trip through its name.
pub proof fn lemma_tag_name_roundtrip(t: Tag)
    ensures
        tag_from_text(tag_name(t)) == Some(t),
{
    let n = tag_name(t);
    assert(all_ascii(n));
    assert(n.map_values(|c: char| ascii_upper(c)) =~= n);
}

impl Tag {
    /// The tag's upper-case name as characters.
    pub fn name_chars(&self) -> (res: Vec<char>)
        ensures
            res@ == tag_name(*self),
    {
        let v = match self {
            Tag::Todo => vec!['T', 'O', 'D', 'O'],
            Tag::Fixme => vec!['F', 'I', 'X', 'M', 'E'],
            Tag::Hack => vec!['H', 'A', 'C', 'K'],
            Tag::Xxx => vec!['X', 'X', 'X'],
            Tag::Bug => vec!['B', 'U', 'G'],
            Tag::Note => vec!['N', 'O', 'T', 'E'],
        };
        assert(v@ =~= tag_name(*self));
        v
    }

    /// The tag's upper-case name.
    pub fn as_str(&self) -> (res: &'static str)
        ensures
            res@ == tag_name(*self),
    {
        match self {
            Tag::Todo => {
                proof {
                    reveal_strlit("TODO");
                }
                assert("TODO"@ =~= tag_name(*self));
                "TODO"
            },
            Tag::Fixme => {
                proof {
                    reveal_strlit("FIXME");
                }
                assert("FIXME"@ =~= tag_name(*self));
                "FIXME"
            },
            Tag::Hack => {
                proof {
                    reveal_strlit("HACK");
                }
                assert("HACK"@ =~= tag_name(*self));
                "HACK"
            },
            Tag::Xxx => {
                proof {
                    reveal_strlit("XXX");
                }
                assert("XXX"@ =~= tag_name(*self));
                "XXX"
            },
            Tag::Bug => {
                proof {
                    reveal_strlit("BUG");
                }
                assert("BUG"@ =~= tag_name(*self));
                "BUG"
            },
            Tag::Note => {
                proof {
                    reveal_strlit("NOTE");
                }
                assert("NOTE"@ =~= tag_name(*self));
                "NOTE"
            },
        }
    }

    /// The tag's name as a `String` (the `Display` form).
    pub fn to_string(&self) -> (res: String)
        ensures
            res@ == tag_name(*self),
    {
        str_to_owned(self.as_str())
    }

    /// Severity rank, from NOTE (0) to BUG (5).
    pub fn severity(&self) -> (res: u8)
        ensures
            res == tag_severity(*self),
    {
        match self {
            Tag::Note => 0,
            Tag::Todo => 1,
            Tag::Hack => 2,
            Tag::Xxx => 3,
            Tag::Fixme => 4,
            Tag::Bug => 5,
        }
    }

    /// The tag named by `s`, ignoring case (the `FromStr` parse).
    pub fn parse_tag(s: &str) -> (res: Option<Tag>)
        ensures
            res == tag_from_text(s@),
    {
        let cs = chars_of(s);
        Self::parse_tag_chars(&cs)
    }

    /// [`Tag::parse_tag`] on characters.
    pub fn parse_tag_chars(s: &[char]) -> (res: Option<Tag>)
        ensures
            res == tag_from_text(s@),
    {
        let up = to_uppercase(s);
        let todo = Tag::Todo.name_chars();
        let fixme = Tag::Fixme.name_chars();
        let hack = Tag::Hack.name_chars();
        let xxx = Tag::Xxx.name_chars();
        let bug = Tag::Bug.name_chars();
        let note = Tag::Note.name_chars();
        if chars_eq(&up, &todo) {
            Some(Tag::Todo)
        } else if chars_eq(&up, &fixme) {
            Some(Tag::Fixme)
        } else if chars_eq(&up, &hack) {
            Some(Tag::Hack)
        } else if chars_eq(&up, &xxx) {
            Some(Tag::Xxx)
        } else if chars_eq(&up, &bug) {
            Some(Tag::Bug)
        } else if chars_eq(&up, &note) {
            Some(Tag::Note)
        } else {
            None
        }
    }
}

impl core::str::FromStr for Tag {
    type Err = ();

    /// The tag named by `s`, ignoring case; `Err(())` for any other text.
    fn from_str(s: &str) -> (res: Result<Self, Self::Err>)
        ensures
            match tag_from_text(s@) {
                Some(t) => res == Ok::<Tag, ()>(t),
                None => res == Err::<Tag, ()>(()),
            },
    {
        match Tag::parse_tag(s) {
            Some(t) => Ok(t),
            None => Err(()),
        }
    }
}

fn str_to_owned(s: &str) -> (res: String)
    ensures
        res@ == s@,
{
    s.to_owned()
}

/// Urgency of a TODO: none, `!` or `!!` after the tag.
#[derive(Debug, Clone, Copy, PartialEq, Eq, Structural)]
pub enum Priority {
    Normal,
    High,
    Urgent,
}

/// Lower-case name of a priority (`format!("{:?}", p).to_lowercase()`).
pub open spec fn priority_name(p: Priority) -> Seq<char> {
    match p {
        Priority::Normal => seq!['n', 'o', 'r', 'm', 'a', 'l'],
        Priority::High => seq!['h', 'i', 'g', 'h'],
        Priority::Urgent => seq!['u', 'r', 'g', 'e', 'n', 't'],
    }
}

/// The lower-case name of a priority.
pub fn priority_name_chars(p: Priority) -> (res: Vec<char>)
    ensures
        res@ == priority_name(p),
{
    let v = match p {
        Priority::Normal => vec!['n', 'o', 'r', 'm', 'a', 'l'],
        Priority::High => vec!['h', 'i', 'g', 'h'],
        Priority::Urgent => vec!['u', 'r', 'g', 'e', 'n', 't'],
    };
    assert(v@ =~= priority_name(p));
    v
}

/// One TODO-style comment found in a file.
#[derive(Debug, Clone)]
pub struct TodoItem {
    pub file: String,
    pub line: usize,
    pub tag: Tag,
    pub message: String,
    pub author: Option<String>,
    pub issue_ref: Option<String>,
    pub priority: Priority,
    pub deadline: Option<Deadline>,
}

/// Plain view of an optional string.
pub open spec fn opt_view(o: Option<String>) -> Option<Seq<char>> {
    match o {
        Some(s) => Some(s@),
        None => None,
    }
}

/// Plain view of a [`TodoItem`].
pub struct TodoItemView {
    pub file: Seq<char>,
    pub line: usize,
    pub tag: Tag,
    pub message: Seq<char>,
    pub author: Option<Seq<char>>,
    pub issue_ref: Option<Seq<char>>,
    pub priority: Priority,
    pub deadline: Option<Deadline>,
}

impl View for TodoItem {
    type V = TodoItemView;

    open spec fn view(&self) -> TodoItemView {
        TodoItemView {
            file: self.file@,
            line: self.line,
            tag: self.tag,
            message: self.message@,
            author: opt_view(self.author),
            issue_ref: opt_view(self.issue_ref),
            priority: self.priority,
            deadline: self.deadline,
        }
    }
}

/// Views of a sequence of items.
pub open spec fn item_views(items: Seq<TodoItem>) -> Seq<TodoItemView> {
    items.map_values(|t: TodoItem| t@)
}

/// Diff matching key: `file:TAG:message`, the message trimmed and lower-cased.
pub open spec fn match_key_of(v: TodoItemView) -> Seq<char> {
    v.file + seq![':'] + tag_name(v.tag) + seq![':'] + lowercase(trim(v.message))
}

/// Identifier text of the fields of an item: `FILE:TAG:message`, the
/// message trimmed and lower-cased.
pub open spec fn id_text_of(file: Seq<char>, tag: Seq<char>, message: Seq<char>) -> Seq<char> {
    file + seq![':'] + tag + seq![':'] + lowercase(trim(message))
}

/// Stable identifier of an item: `file:TAG:message`, the message trimmed
/// and lower-cased (the same text as its match key).
pub open spec fn id_of(v: TodoItemView) -> Seq<char> {
    id_text_of(v.file, tag_name(v.tag), v.message)
}

/// The identifier text of an item's file, tag name and message (fields that
/// are missing are given as empty text).
pub fn id_text(file: &str, tag: &str, message: &str) -> (res: String)
    ensures
        res@ == id_text_of(file@, tag@, message@),
{
    let msg = chars_of(message);
    let t = trim_chars(&msg);
    let lower = to_lowercase(&t);
    let mut out = chars_of(file);
    out.push(':');
    push_str(&mut out, tag);
    out.push(':');
    push_all(&mut out, &lower);
    assert(out@ =~= id_text_of(file@, tag@, message@));
    string_from_chars(&out)
}

/// An item's id and match key do not depend on its line: a comment moved to
/// another line keeps its identity.
pub proof fn lemma_identity_ignores_line(a: TodoItemView, b: TodoItemView)
    requires
        a.file == b.file,
        a.tag == b.tag,
        a.message == b.message,
    ensures
        id_of(a) == id_of(b),
        match_key_of(a) == match_key_of(b),
{
}

/// Copy of an optional string.
pub fn clone_opt_string(o: &Option<String>) -> (res: Option<String>)
    ensures
        opt_view(res) == opt_view(*o),
{
    match o {
        Some(s) => Some(s.clone()),
        None => None,
    }
}

impl TodoItem {
    /// A copy of the item with the same view.
    pub fn duplicate(&self) -> (res: TodoItem)
        ensures
            res@ == self@,
    {
        TodoItem {
            file: self.file.clone(),
            line: self.line,
            tag: self.tag,
            message: self.message.clone(),
            author: clone_opt_string(&self.author),
            issue_ref: clone_opt_string(&self.issue_ref),
            priority: self.priority,
            deadline: self.deadline,
        }
    }

    /// Matching key for diff comparison (excludes the line number).
    pub fn match_key(&self) -> (res: String)
        ensures
            res@ == match_key_of(self@),
    {
        let msg = chars_of(self.message.as_str());
        let t = trim_chars(&msg);
        let lower = to_lowercase(&t);
        let mut out = chars_of(self.file.as_str());
        out.push(':');
        let name = self.tag.name_chars();
        push_all(&mut out, &name);
        out.push(':');
        push_all(&mut out, &lower);
        assert(out@ =~= match_key_of(self@));
        string_from_chars(&out)
    }

    /// Stable identifier of the item: `file:TAG:message`, the message
    /// trimmed and lower-cased.
    pub fn id(&self) -> (res: String)
        ensures
            res@ == id_of(self@),
    {
        id_text(self.file.as_str(), self.tag.as_str(), self.message.as_str())
    }
}

/// Copy of a vector of items.
pub fn clone_items(items: &Vec<TodoItem>) -> (res: Vec<TodoItem>)
    ensures
        item_views(res@) == item_views(items@),
{
    let mut res: Vec<TodoItem> = Vec::new();
    let mut i: usize = 0;
    while i < items.len()
        invariant
            i <= items@.len(),
            res@.len() == i,
            forall|j: int| 0 <= j < i ==> (#[trigger] res@[j])@ == items@[j]@,
        decreases items@.len() - i,
    {
        let it = items[i].duplicate();
        let ghost old_res = res@;
        res.push(it);
        i += 1;
        proof {
            assert forall|j: int| 0 <= j < i implies (#[trigger] res@[j])@ == items@[j]@ by {
                if j < i - 1 {
                    assert(res@[j] == old_res[j]);
                }
            }
        }
    }
    assert(item_views(res@) =~= item_views(items@));
    res
}

/// Items found by a scan, and how many files were read.
#[derive(Debug)]
pub struct ScanResult {
    pub items: Vec<TodoItem>,
    pub ignored_items: Vec<TodoItem>,
    pub files_scanned: usize,
}

#[derive(Debug, Clone, Copy, PartialEq, Eq, Structural)]
pub enum DiffStatus {
    Added,
    Removed,
}

#[derive(Debug, Clone)]
pub struct DiffEntry {
    pub status: DiffStatus,
    pub item: TodoItem,
}

#[derive(Debug)]
pub struct DiffResult {
    pub entries: Vec<DiffEntry>,
    pub added_count: usize,
    pub removed_count: usize,
    pub base_ref: String,
}

#[derive(Debug)]
pub struct CheckResult {
    pub passed: bool,
    pub total: usize,
    pub violations: Vec<CheckViolation>,
}

#[derive(Debug)]
pub struct CheckViolation {
    pub rule: String,
    pub message: String,
}

#[derive(Debug)]
pub struct StatsResult {
    pub total_items: usize,
    pub total_files: usize,
    pub tag_counts: Vec<(Tag, usize)>,
    pub priority_counts: PriorityCounts,
    pub author_counts: Vec<(String, usize)>,
    pub hotspot_files: Vec<(String, usize)>,
    pub trend: Option<TrendInfo>,
}

#[derive(Debug)]
pub struct PriorityCounts {
    pub normal: usize,
    pub high: usize,
    pub urgent: usize,
}

#[derive(Debug)]
pub struct TrendInfo {
    pub added: usize,
    pub removed: usize,
    pub base_ref: String,
}

#[derive(Debug, Clone)]
pub struct BlameInfo {
    pub author: String,
    pub email: String,
    pub date: String,
    pub age_days: u64,
    pub commit: String,
}

#[derive(Debug, Clone)]
pub struct BlameEntry {
    pub item: TodoItem,
    pub blame: BlameInfo,
    pub stale: bool,
}

#[derive(Debug)]
pub struct BlameResult {
    pub entries: Vec<BlameEntry>,
    pub total: usize,
    pub avg_age_days: u64,
    pub stale_count: usize,
    pub stale_threshold_days: u64,
}

#[derive(Debug)]
pub struct SearchResult {
    pub query: String,
    pub exact: bool,
    pub items: Vec<TodoItem>,
    pub match_count: usize,
    pub file_count: usize,
}

#[derive(Debug, Clone)]
pub struct LintViolation {
    pub rule: String,
    pub message: String,
    pub file: String,
    pub line: usize,
    pub suggestion: Option<String>,
}

#[derive(Debug)]
pub struct LintResult {
    pub passed: bool,
    pub total_items: usize,
    pub violation_count: usize,
    pub violations: Vec<LintViolation>,
}

#[derive(Debug, Clone)]
pub struct FileUpdate {
    pub added: Vec<TodoItem>,
    pub removed: Vec<TodoItem>,
}

#[derive(Debug, Clone)]
pub struct WatchEvent {
    pub timestamp: String,
    pub file: String,
    pub added: Vec<TodoItem>,
    pub removed: Vec<TodoItem>,
    pub tag_summary: Vec<(String, usize)>,
    pub total: usize,
    pub total_delta: i64,
}

#[derive(Debug, Clone)]
pub struct CleanViolation {
    pub rule: String,
    pub message: String,
    pub file: String,
    pub line: usize,
    pub issue_ref: Option<String>,
    pub duplicate_of: Option<String>,
}

#[derive(Debug)]
pub struct CleanResult {
    pub passed: bool,
    pub total_items: usize,
    pub stale_count: usize,
    pub duplicate_count: usize,
    pub violations: Vec<CleanViolation>,
}

#[derive(Debug)]
pub struct ReportResult {
    pub generated_at: String,
    pub summary: ReportSummary,
    pub tag_counts: Vec<(Tag, usize)>,
    pub priority_counts: PriorityCounts,
    pub author_counts: Vec<(String, usize)>,
    pub hotspot_files: Vec<(String, usize)>,
    pub history: Vec<HistoryPoint>,
    pub age_histogram: Vec<AgeBucket>,
    pub items: Vec<TodoItem>,
}

#[derive(Debug)]
pub struct ReportSummary {
    pub total_items: usize,
    pub total_files: usize,
    pub files_scanned: usize,
    pub urgent_count: usize,
    pub high_count: usize,
    pub stale_count: usize,
    pub avg_age_days: u64,
}

#[derive(Debug, Clone)]
pub struct HistoryPoint {
    pub commit: String,
    pub date: String,
    pub count: usize,
}

#[derive(Debug, Clone)]
pub struct AgeBucket {
    pub label: String,
    pub count: usize,
}

#[derive(Debug, Clone)]
pub struct ClaudeTask {
    pub subject: String,
    pub description: String,
    pub active_form: String,
    pub metadata: ClaudeTaskMetadata,
}

#[derive(Debug, Clone)]
pub struct ClaudeTaskMetadata {
    pub todox_file: String,
    pub todox_line: usize,
    pub todox_tag: String,
    pub todox_priority: String,
    pub todox_author: Option<String>,
    pub todox_issue_ref: Option<String>,
    pub todox_match_key: String,
}

#[derive(Debug)]
pub struct TasksResult {
    pub tasks: Vec<ClaudeTask>,
    pub total: usize,
    pub output_dir: Option<String>,
}

/// Annotation severity of an item in CI output.
#[derive(Debug, Clone, Copy, PartialEq, Eq, Structural)]
pub enum Severity {
    Error,
    Warning,
    Notice,
}

/// Severity of an item: urgent items and BUG/FIXME are errors, NOTE is a
/// notice, the other tags are warnings.
pub open spec fn severity_of(v: TodoItemView) -> Severity {
    if v.priority == Priority::Urgent {
        Severity::Error
    } else {
        match v.tag {
            Tag::Bug | Tag::Fixme => Severity::Error,
            Tag::Todo | Tag::Hack | Tag::Xxx => Severity::Warning,
            Tag::Note => Severity::Notice,
        }
    }
}

/// Rank of a severity: notice 0, warning 1, error 2.
pub open spec fn severity_rank(s: Severity) -> int {
    match s {
        Severity::Notice => 0,
        Severity::Warning => 1,
        Severity::Error => 2,
    }
}

/// Law: an item's severity follows its tag's severity rank.  An urgent item
/// is always an error; otherwise the two most severe tags (BUG, FIXME) are
/// errors, the least severe (NOTE) alone is a notice, and every tag in
/// between (TODO, HACK, XXX) is a warning.  Of two items of the same
/// priority, the one with the more severe tag is never at a lower level.
pub proof fn lemma_severity_by_rank(a: TodoItemView, b: TodoItemView)
    ensures
        a.priority == Priority::Urgent ==> severity_of(a) == Severity::Error,
        a.priority != Priority::Urgent ==> (severity_of(a) == Severity::Error <==> tag_severity(a.tag) >= 4),
        severity_of(a) == Severity::Notice <==> (tag_severity(a.tag) == 0 && a.priority != Priority::Urgent),
        a.priority != Priority::Urgent ==> (severity_of(a) == Severity::Warning <==> (1 <= tag_severity(a.tag)
            <= 3)),
        a.priority == b.priority && tag_severity(a.tag) <= tag_severity(b.tag) ==> severity_rank(severity_of(a))
            <= severity_rank(severity_of(b)),
        severity_of(a) == Severity::Notice <==> (a.tag == Tag::Note && a.priority != Priority::Urgent),
        a.priority != Priority::Urgent && (a.tag == Tag::Todo || a.tag == Tag::Hack || a.tag == Tag::Xxx)
            ==> severity_of(a) == Severity::Warning,
{
}

/// GitHub Actions level name of a severity.
pub open spec fn github_level(s: Severity) -> Seq<char> {
    match s {
        Severity::Error => seq!['e', 'r', 'r', 'o', 'r'],
        Severity::Warning => seq!['w', 'a', 'r', 'n', 'i', 'n', 'g'],
        Severity::Notice => seq!['n', 'o', 't', 'i', 'c', 'e'],
    }
}

/// SARIF level name of a severity.
pub open spec fn sarif_level(s: Severity) -> Seq<char> {
    match s {
        Severity::Error => seq!['e', 'r', 'r', 'o', 'r'],
        Severity::Warning => seq!['w', 'a', 'r', 'n', 'i', 'n', 'g'],
        Severity::Notice => seq!['n', 'o', 't', 'e'],
    }
}

impl Severity {
    /// Severity of an item (see [`severity_of`]).
    pub fn from_item(item: &TodoItem) -> (res: Severity)
        ensures
            res == severity_of(item@),
    {
        if item.priority == Priority::Urgent {
            return Severity::Error;
        }
        match item.tag {
            Tag::Bug | Tag::Fixme => Severity::Error,
            Tag::Todo | Tag::Hack | Tag::Xxx => Severity::Warning,
            Tag::Note => Severity::Notice,
        }
    }

    /// Level name used by GitHub Actions workflow commands.
    pub fn as_github_actions_str(&self) -> (res: &'static str)
        ensures
            res@ == github_level(*self),
    {
        match self {
            Severity::Error => {
                proof {
                    reveal_strlit("error");
                }
                assert("error"@ =~= github_level(*self));
                "error"
            },
            Severity::Warning => {
                proof {
                    reveal_strlit("warning");
                }
                assert("warning"@ =~= github_level(*self));
                "warning"
            },
            Severity::Notice => {
                proof {
                    reveal_strlit("notice");
                }
                assert("notice"@ =~= github_level(*self));
                "notice"
            },
        }
    }

    /// Level name used by SARIF.
    pub fn as_sarif_level(&self) -> (res: &'static str)
        ensures
            res@ == sarif_level(*self),
    {
        match self {
            Severity::Error => {
                proof {
                    reveal_strlit("error");
                }
                assert("error"@ =~= sarif_level(*self));
                "error"
            },
            Severity::Warning => {
                proof {
                    reveal_strlit("warning");
                }
                assert("warning"@ =~= sarif_level(*self));
                "warning"
            },
            Severity::Notice => {
                proof {
                    reveal_strlit("note");
                }
                assert("note"@ =~= sarif_level(*self));
                "note"
            },
        }
    }
}

/// Kind of monorepo workspace.
#[derive(Debug, Clone, Copy, PartialEq, Eq, Structural)]
pub enum WorkspaceKind {
    Cargo,
    Npm,
    Pnpm,
    Nx,
    GoWork,
    Manual,
}

/// Display name of a workspace kind.
pub open spec fn workspace_kind_name(k: WorkspaceKind) -> Seq<char> {
    match k {
        WorkspaceKind::Cargo => seq!['c', 'a', 'r', 'g', 'o'],
        WorkspaceKind::Npm => seq!['n', 'p', 'm'],
        WorkspaceKind::Pnpm => seq!['p', 'n', 'p', 'm'],
        WorkspaceKind::Nx => seq!['n', 'x'],
        WorkspaceKind::GoWork => seq!['g', 'o'],
        WorkspaceKind::Manual => seq!['m', 'a', 'n', 'u', 'a', 'l'],
    }
}

impl WorkspaceKind {
    /// The display name (`cargo`, `npm`, `pnpm`, `nx`, `go`, `manual`).
    pub fn to_string(&self) -> (res: String)
        ensures
            res@ == workspace_kind_name(*self),
    {
        let v = match self {
            WorkspaceKind::Cargo => vec!['c', 'a', 'r', 'g', 'o'],
            WorkspaceKind::Npm => vec!['n', 'p', 'm'],
            WorkspaceKind::Pnpm => vec!['p', 'n', 'p', 'm'],
            WorkspaceKind::Nx => vec!['n', 'x'],
            WorkspaceKind::GoWork => vec!['g', 'o'],
            WorkspaceKind::Manual => vec!['m', 'a', 'n', 'u', 'a', 'l'],
        };
        assert(v@ =~= workspace_kind_name(*self));
        string_from_chars(&v)
    }
}

#[derive(Debug, Clone)]
pub struct PackageInfo {
    pub name: String,
    pub path: String,
    pub kind: WorkspaceKind,
}

#[derive(Debug, Clone)]
pub struct WorkspaceInfo {
    pub kind: WorkspaceKind,
    pub packages: Vec<PackageInfo>,
}

#[derive(Debug, Clone, Copy, PartialEq, Eq, Structural)]
pub enum PackageStatus {
    InLimit,
    Over,
    Uncapped,
}

#[derive(Debug, Clone)]
pub struct PackageScanSummary {
    pub name: String,
    pub path: String,
    pub todo_count: usize,
    pub max: Option<usize>,
    pub status: PackageStatus,
}

#[derive(Debug)]
pub struct WorkspaceResult {
    pub packages: Vec<PackageScanSummary>,
    pub total_todos: usize,
    pub total_packages: usize,
}

} // verus!
