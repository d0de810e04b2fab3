//! Small pieces of the Git view: file-name → syntax language, which file
//! system events matter to a repository, view modes and change letters.

use std::path::Path;

use vstd::prelude::*;

use crate::text::{ascii_lower_chars, ascii_lower_seq, chars_eq_str, chars_of, copy_range, join, str_views};

verus! {

// ===== Syntax language =====

/// The last part of a path, after its last `/` or `\`.
pub open spec fn file_name(path: Seq<char>) -> Seq<char>
    decreases path.len(),
{
    if path.len() == 0 {
        path
    } else if path.last() == '/' || path.last() == '\\' {
        Seq::empty()
    } else {
        file_name(path.drop_last()).push(path.last())
    }
}

/// What follows the last `.` of a name, if it has one.
pub open spec fn extension(name: Seq<char>) -> Option<Seq<char>>
    decreases name.len(),
{
    if name.len() == 0 {
        None
    } else if name.last() == '.' {
        Some(Seq::empty())
    } else {
        match extension(name.drop_last()) {
            Some(e) => Some(e.push(name.last())),
            None => None,
        }
    }
}

/// The highlighting language of a lower-case extension.
pub open spec fn lang_of_ext(e: Seq<char>) -> Option<Seq<char>> {
    if e == "rs"@ {
        Some("rust"@)
    } else if e == "go"@ {
        Some("go"@)
    } else if e == "py"@ {
        Some("python"@)
    } else if e == "json"@ {
        Some("json"@)
    } else if e == "js"@ || e == "jsx"@ || e == "mjs"@ {
        Some("javascript"@)
    } else if e == "ts"@ || e == "tsx"@ {
        Some("typescript"@)
    } else if e == "toml"@ {
        Some("toml"@)
    } else if e == "yaml"@ || e == "yml"@ {
        Some("yaml"@)
    } else if e == "sql"@ {
        Some("sql"@)
    } else if e == "md"@ {
        Some("markdown"@)
    } else if e == "sh"@ || e == "bash"@ {
        Some("bash"@)
    } else if e == "c"@ || e == "h"@ {
        Some("c"@)
    } else if e == "cpp"@ || e == "cc"@ || e == "hpp"@ {
        Some("cpp"@)
    } else if e == "java"@ {
        Some("java"@)
    } else {
        None
    }
}

/// The language of a path: by the extension of its file name, in any case.
pub open spec fn lang_of_path(path: Seq<char>) -> Option<Seq<char>> {
    match extension(file_name(path)) {
        Some(e) => lang_of_ext(ascii_lower_seq(e)),
        None => None,
    }
}

/// Index just past the last character of `s[..end]` that satisfies the
/// separator test, or 0.
fn name_start(s: &[char]) -> (k: usize)
    ensures
        k <= s@.len(),
        file_name(s@) == s@.subrange(k as int, s@.len() as int),
{
    let mut k: usize = s.len();
    while k > 0 && s[k - 1] != '/' && s[k - 1] != '\\'
        invariant
            k <= s@.len(),
            forall|j: int| k <= j < s@.len() ==> s@[j] != '/' && s@[j] != '\\',
        decreases k,
    {
        k -= 1;
    }
    proof {
        lemma_file_name_at(s@, k as int);
    }
    k
}

/// The file name is everything after the last separator.
proof fn lemma_file_name_at(s: Seq<char>, k: int)
    requires
        0 <= k <= s.len(),
        forall|j: int| k <= j < s.len() ==> s[j] != '/' && s[j] != '\\',
        k == 0 || s[k - 1] == '/' || s[k - 1] == '\\',
    ensures
        file_name(s) == s.subrange(k, s.len() as int),
    decreases s.len(),
{
    if s.len() == k {
        if k > 0 {
            assert(s.subrange(k, k) =~= Seq::<char>::empty());
        } else {
            assert(s.subrange(0, 0) =~= s);
        }
    } else {
        let t = s.drop_last();
        lemma_file_name_at(t, k);
        assert(s.subrange(k, s.len() as int) =~= t.subrange(k, t.len() as int).push(s.last()));
    }
}

/// The extension is everything after the last dot.
proof fn lemma_extension_at(s: Seq<char>, k: int)
    requires
        0 <= k <= s.len(),
        forall|j: int| k <= j < s.len() ==> s[j] != '.',
        k == 0 || s[k - 1] == '.',
    ensures
        k == 0 ==> extension(s) is None,
        k > 0 ==> extension(s) == Some(s.subrange(k, s.len() as int)),
    decreases s.len(),
{
    if s.len() == k {
        if k > 0 {
            assert(s.subrange(k, k) =~= Seq::<char>::empty());
        }
    } else {
        let t = s.drop_last();
        lemma_extension_at(t, k);
        if k > 0 {
            assert(s.subrange(k, s.len() as int) =~= t.subrange(k, t.len() as int).push(s.last()));
        }
    }
}

/// The highlighting language for a file path, by extension; `None` for a
/// name without one or an extension not in the table.
pub fn lang_for_path(path: &str) -> (r: Option<&'static str>)
    ensures
        match r {
            Some(l) => lang_of_path(path@) == Some(l@),
            None => lang_of_path(path@) is None,
        },
{
    let cs = chars_of(path);
    let k = name_start(cs.as_slice());
    let name = copy_range(cs.as_slice(), k, cs.len());
    let mut d: usize = name.len();
    while d > 0 && name[d - 1] != '.'
        invariant
            d <= name@.len(),
            forall|j: int| d <= j < name@.len() ==> name@[j] != '.',
        decreases d,
    {
        d -= 1;
    }
    proof {
        lemma_extension_at(name@, d as int);
    }
    if d == 0 {
        return None;
    }
    let ext = copy_range(name.as_slice(), d, name.len());
    let l = ascii_lower_chars(ext.as_slice());
    let e = l.as_slice();
    if chars_eq_str(e, "rs") {
        Some("rust")
    } else if chars_eq_str(e, "go") {
        Some("go")
    } else if chars_eq_str(e, "py") {
        Some("python")
    } else if chars_eq_str(e, "json") {
        Some("json")
    } else if chars_eq_str(e, "js") || chars_eq_str(e, "jsx") || chars_eq_str(e, "mjs") {
        Some("javascript")
    } else if chars_eq_str(e, "ts") || chars_eq_str(e, "tsx") {
        Some("typescript")
    } else if chars_eq_str(e, "toml") {
        Some("toml")
    } else if chars_eq_str(e, "yaml") || chars_eq_str(e, "yml") {
        Some("yaml")
    } else if chars_eq_str(e, "sql") {
        Some("sql")
    } else if chars_eq_str(e, "md") {
        Some("markdown")
    } else if chars_eq_str(e, "sh") || chars_eq_str(e, "bash") {
        Some("bash")
    } else if chars_eq_str(e, "c") || chars_eq_str(e, "h") {
        Some("c")
    } else if chars_eq_str(e, "cpp") || chars_eq_str(e, "cc") || chars_eq_str(e, "hpp") {
        Some("cpp")
    } else if chars_eq_str(e, "java") {
        Some("java")
    } else {
        None
    }
}

// ===== Watched paths =====

/// Whether a change matters, from the components of the path below the
/// repository root (`None` when the path is not below it): anything outside
/// `.git` matters; inside `.git` only the index, `HEAD`, refs and the
/// markers of an operation in progress do.
pub open spec fn relevant(comps: Option<Seq<Seq<char>>>) -> bool {
    match comps {
        None => true,
        Some(c) => if c.len() == 0 {
            false
        } else if c[0] != ".git"@ {
            true
        } else if c.len() < 2 {
            false
        } else {
            let s = c[1];
            s == "index"@ || s == "HEAD"@ || s == "ORIG_HEAD"@ || s == "MERGE_HEAD"@ || s
                == "CHERRY_PICK_HEAD"@ || s == "REVERT_HEAD"@ || s == "refs"@ || s == "rebase-merge"@
                || s == "rebase-apply"@
        },
    }
}

/// Decides whether a change matters from the components below the root.
pub fn relevant_components(comps: Option<Vec<String>>) -> (r: bool)
    ensures
        r == relevant(
            match comps {
                Some(c) => Some(str_views(c@)),
                None => None,
            },
        ),
{
    let c = match comps {
        None => return true,
        Some(c) => c,
    };
    if c.len() == 0 {
        return false;
    }
    let first = chars_of(c[0].as_str());
    if !chars_eq_str(first.as_slice(), ".git") {
        return true;
    }
    if c.len() < 2 {
        return false;
    }
    let sc = chars_of(c[1].as_str());
    let s = sc.as_slice();
    chars_eq_str(s, "index") || chars_eq_str(s, "HEAD") || chars_eq_str(s, "ORIG_HEAD")
        || chars_eq_str(s, "MERGE_HEAD") || chars_eq_str(s, "CHERRY_PICK_HEAD") || chars_eq_str(
        s,
        "REVERT_HEAD",
    ) || chars_eq_str(s, "refs") || chars_eq_str(s, "rebase-merge") || chars_eq_str(
        s,
        "rebase-apply",
    )
}

/// The views of the components handed back for a path.
pub open spec fn comps_view(c: Option<Vec<String>>) -> Option<Seq<Seq<char>>> {
    match c {
        Some(v) => Some(str_views(v@)),
        None => None,
    }
}

/// A plain path segment: not empty, not `.` or `..`, without `/` or `\`.
pub open spec fn plain_segment(s: Seq<char>) -> bool {
    &&& s.len() > 0
    &&& s != "."@
    &&& s != ".."@
    &&& !s.contains('/')
    &&& !s.contains('\\')
}

/// Every segment of `cs` is plain.
pub open spec fn plain_segments(cs: Seq<Seq<char>>) -> bool {
    forall|i: int| 0 <= i < cs.len() ==> plain_segment(#[trigger] cs[i])
}

/// An absolute path written plainly: `/` and one or more plain segments
/// separated by single `/`.
pub open spec fn plain_abs_path(p: Seq<char>) -> bool {
    exists|rs: Seq<Seq<char>>|
        rs.len() > 0 && plain_segments(rs) && p == seq!['/'] + #[trigger] join(rs, '/')
}

/// The path `root` followed by the segments `cs`, each after a `/`.
pub open spec fn path_below(root: Seq<char>, cs: Seq<Seq<char>>) -> Seq<char> {
    if cs.len() == 0 {
        root
    } else {
        root + seq!['/'] + join(cs, '/')
    }
}

/// The components of `path` below `root`, each as (lossy) text; `None`
/// when `path` is not below `root`.
///
/// Trusted: calls `Path::strip_prefix` and `Path::components`. How a path
/// splits in general depends on the platform (separators, prefixes), so the
/// contract claims only what the documentation gives on every platform: a
/// plainly written absolute root followed by plain segments, each after a
/// single `/`, has exactly those segments as its components below the root
/// (none when the path is the root itself). Other paths are left unsaid.
#[verifier::external_body]
fn components_below(root: &str, path: &str) -> (r: Option<Vec<String>>)
    ensures
        forall|cs: Seq<Seq<char>>|
            plain_abs_path(root@) && plain_segments(cs) && #[trigger] path_below(root@, cs)
                == path@ ==> comps_view(r) == Some(cs),
{
    Path::new(path).strip_prefix(Path::new(root)).ok().map(
        |rel| rel.components().map(|c| c.as_os_str().to_string_lossy().into_owned()).collect(),
    )
}

/// Whether a file system event at `path` in the repository at `root`
/// should refresh the view: the rule [`relevant`] applied to the components
/// of `path` below `root`.
pub fn is_relevant(root: &str, path: &str) -> (r: bool)
    ensures
        forall|cs: Seq<Seq<char>>|
            plain_abs_path(root@) && plain_segments(cs) && #[trigger] path_below(root@, cs)
                == path@ ==> r == relevant(Some(cs)),
{
    let comps = components_below(root, path);
    let ghost cv = comps_view(comps);
    let r = relevant_components(comps);
    proof {
        assert(r == relevant(cv));
    }
    r
}


// ===== Modes and letters =====

/// What the left panel lists.
#[derive(Debug, Clone, Copy, PartialEq, Eq, Structural)]
pub enum FilesViewMode {
    Project,
    Changes,
    Stash,
}

impl FilesViewMode {
    /// The tooltip of the mode's button.
    pub fn label(self) -> (r: &'static str)
        ensures
            r@ == match self {
                FilesViewMode::Project => "项目文件"@,
                FilesViewMode::Changes => "本地变更"@,
                FilesViewMode::Stash => "暂存堆栈"@,
            },
    {
        match self {
            FilesViewMode::Project => "项目文件",
            FilesViewMode::Changes => "本地变更",
            FilesViewMode::Stash => "暂存堆栈",
        }
    }

    /// The id suffix of the mode's button.
    pub fn id_str(self) -> (r: &'static str)
        ensures
            r@ == match self {
                FilesViewMode::Project => "project"@,
                FilesViewMode::Changes => "changes"@,
                FilesViewMode::Stash => "stash"@,
            },
    {
        match self {
            FilesViewMode::Project => "project",
            FilesViewMode::Changes => "changes",
            FilesViewMode::Stash => "stash",
        }
    }
}

/// Commits loaded per history page.
pub const HISTORY_PAGE_SIZE: usize = 100;

/// How much of a file a diff shows.
#[derive(Debug, Clone, Copy, PartialEq, Eq, Structural)]
pub enum DiffViewMode {
    /// Three lines of context.
    Standard,
    /// The whole file.
    FullFile,
}

impl DiffViewMode {
    /// The unified context asked of git: 3, or 999999 for the whole file.
    pub fn context_lines(self) -> (r: u32)
        ensures
            r == match self {
                DiffViewMode::Standard => 3u32,
                DiffViewMode::FullFile => 999_999u32,
            },
    {
        match self {
            DiffViewMode::Standard => 3,
            DiffViewMode::FullFile => 999_999,
        }
    }

    /// The other mode.
    pub fn toggled(self) -> (r: DiffViewMode)
        ensures
            r != self,
            r.toggled_spec() == self,
    {
        match self {
            DiffViewMode::Standard => DiffViewMode::FullFile,
            DiffViewMode::FullFile => DiffViewMode::Standard,
        }
    }

    /// The other mode.
    pub open spec fn toggled_spec(self) -> DiffViewMode {
        match self {
            DiffViewMode::Standard => DiffViewMode::FullFile,
            DiffViewMode::FullFile => DiffViewMode::Standard,
        }
    }
}

/// How a file changed.
#[derive(Debug, Clone, Copy, PartialEq, Eq, Structural)]
pub enum FileChangeKind {
    Modified,
    Added,
    Deleted,
    Renamed,
    Copied,
    TypeChanged,
    Untracked,
    Conflicted,
}

/// The status letter of a change.
pub open spec fn change_letter(kind: Option<FileChangeKind>) -> Seq<char> {
    match kind {
        Some(FileChangeKind::Modified) => "M"@,
        Some(FileChangeKind::Added) => "A"@,
        Some(FileChangeKind::Deleted) => "D"@,
        Some(FileChangeKind::Renamed) => "R"@,
        Some(FileChangeKind::Copied) => "C"@,
        Some(FileChangeKind::TypeChanged) => "T"@,
        Some(FileChangeKind::Untracked) => "?"@,
        Some(FileChangeKind::Conflicted) => "U"@,
        None => " "@,
    }
}

/// The status letter shown before a file (`M`, `A`, `D`, `R`, `C`, `T`, `?`, `U`).
pub fn code_to_letter(kind: Option<FileChangeKind>) -> (r: &'static str)
    ensures
        r@ == change_letter(kind),
{
    match kind {
        Some(FileChangeKind::Modified) => "M",
        Some(FileChangeKind::Added) => "A",
        Some(FileChangeKind::Deleted) => "D",
        Some(FileChangeKind::Renamed) => "R",
        Some(FileChangeKind::Copied) => "C",
        Some(FileChangeKind::TypeChanged) => "T",
        Some(FileChangeKind::Untracked) => "?",
        Some(FileChangeKind::Conflicted) => "U",
        None => " ",
    }
}

} // verus!
