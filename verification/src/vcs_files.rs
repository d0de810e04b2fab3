//! Opened files of the Git view: the tab list and which tab shows, and the
//! content snapshot of a project file (size cap, binary detection, lines).

use vstd::prelude::*;
use vstd::utf8::{decode_utf8, valid_utf8};

use crate::diff::{FileDiff, GroupKind};
use crate::text::{chars_of, push_str, split_chars, split_on, str_views, string_of, views};
use crate::vcs_common::FileChangeKind;

verus! {

// ===== File content =====

/// Files larger than this are shown cut to their first bytes.
pub const PF_FILE_MAX_BYTES: u64 = 4194304;

/// Bytes looked at to tell a binary file.
pub const BINARY_PROBE_BYTES: usize = 8192;

/// Whether a file of `total_size` bytes is cut.
pub fn is_truncated(total_size: u64) -> (r: bool)
    ensures
        r == (total_size > PF_FILE_MAX_BYTES),
{
    total_size > PF_FILE_MAX_BYTES
}

/// A file read on a worker thread, before it is shown.
#[derive(Debug)]
pub struct RawFileContent {
    pub path: String,
    /// The lines (split at `\n`); empty for a binary or unreadable file.
    pub lines: Vec<String>,
    pub truncated: bool,
    pub binary: bool,
    /// Why it could not be read.
    pub error: Option<String>,
}

/// The text `String::from_utf8_lossy` makes of the bytes.
pub uninterp spec fn lossy_text(bytes: Seq<u8>) -> Seq<char>;

/// Decodes bytes as UTF-8, invalid sequences replaced by U+FFFD.
///
/// Trusted: calls `String::from_utf8_lossy`; the contract names the text,
/// which depends on the bytes alone, and states what its documentation
/// says of valid input: the text is the decoded bytes.
#[verifier::external_body]
fn lossy_decode(bytes: &[u8]) -> (r: String)
    ensures
        r@ == lossy_text(bytes@),
        valid_utf8(bytes@) ==> r@ == decode_utf8(bytes@),
{
    String::from_utf8_lossy(bytes).into_owned()
}

/// Whether the first [`BINARY_PROBE_BYTES`] bytes hold a NUL byte.
pub open spec fn looks_binary(bytes: Seq<u8>) -> bool {
    exists|i: int| 0 <= i < bytes.len() && i < BINARY_PROBE_BYTES && bytes[i] == 0
}

/// The content made of the bytes read from `path`: nothing for a binary
/// file, else the lossy text split at `\n`.
pub fn content_from_bytes(path: &str, bytes: &[u8], truncated: bool) -> (r: RawFileContent)
    ensures
        r.path@ == path@,
        r.error is None,
        r.binary == looks_binary(bytes@),
        r.binary ==> r.lines@.len() == 0 && !r.truncated,
        !r.binary ==> str_views(r.lines@) == split_on(lossy_text(bytes@), '\n') && r.truncated
            == truncated,
{
    let head = if bytes.len() < BINARY_PROBE_BYTES {
        bytes.len()
    } else {
        BINARY_PROBE_BYTES
    };
    let mut i: usize = 0;
    while i < head
        invariant
            i <= head,
            head <= bytes@.len(),
            head <= BINARY_PROBE_BYTES,
            head == bytes@.len() || head == BINARY_PROBE_BYTES,
            forall|j: int| 0 <= j < i ==> bytes@[j] != 0,
        decreases head - i,
    {
        if bytes[i] == 0 {
            assert(i < BINARY_PROBE_BYTES && bytes@[i as int] == 0);
            return RawFileContent {
                path: String::from_str(path),
                lines: Vec::new(),
                truncated: false,
                binary: true,
                error: None,
            };
        }
        i += 1;
    }
    let text = lossy_decode(bytes);
    let parts = split_chars(chars_of(text.as_str()).as_slice(), '\n');
    let mut lines: Vec<String> = Vec::new();
    let mut k: usize = 0;
    while k < parts.len()
        invariant
            k <= parts@.len(),
            str_views(lines@) == views(parts@).take(k as int),
        decreases parts@.len() - k,
    {
        let s = string_of(parts[k].as_slice());
        let ghost before = lines@;
        lines.push(s);
        proof {
            assert(str_views(lines@) =~= str_views(before).push(s@));
            assert(views(parts@).take(k + 1) =~= views(parts@).take(k as int).push(parts@[k as int]@));
        }
        k += 1;
    }
    proof {
        assert(views(parts@).take(parts@.len() as int) =~= views(parts@));
    }
    RawFileContent { path: String::from_str(path), lines, truncated, binary: false, error: None }
}

/// A file that could not be read: no lines, with the reason.
pub fn content_failure(path: &str, error: String) -> (r: RawFileContent)
    ensures
        r.path@ == path@,
        r.lines@.len() == 0,
        !r.truncated,
        !r.binary,
        r.error == Some(error),
{
    RawFileContent { path: String::from_str(path), lines: Vec::new(), truncated: false, binary: false, error: Some(error) }
}

/// `prefix` followed by `e`.
fn prefixed(prefix: &str, e: &str) -> (r: String)
    ensures
        r@ == prefix@ + e@,
{
    let mut v: Vec<char> = Vec::new();
    push_str(&mut v, prefix);
    push_str(&mut v, e);
    string_of(v.as_slice())
}

/// The reason shown when the file's metadata could not be read.
pub fn access_error(e: &str) -> (r: String)
    ensures
        r@ == "无法访问文件: "@ + e@,
{
    prefixed("无法访问文件: ", e)
}

/// The reason shown when the path is not a regular file.
pub fn not_regular_error() -> (r: String)
    ensures
        r@ == "不是普通文件（可能是软链接 / 设备文件）"@,
{
    String::from_str("不是普通文件（可能是软链接 / 设备文件）")
}

/// The reason shown when the file could not be read.
pub fn read_error(e: &str) -> (r: String)
    ensures
        r@ == "读取文件失败: "@ + e@,
{
    prefixed("读取文件失败: ", e)
}

/// A file as shown.
#[derive(Debug)]
pub struct FileContentSnapshot {
    pub path: String,
    pub lines: Vec<String>,
    /// Characters in the longest line.
    pub max_chars: usize,
    pub truncated: bool,
    pub binary: bool,
    pub error: Option<String>,
}

/// The longest line of `ls`, in characters (0 when there is none).
pub open spec fn longest(ls: Seq<Seq<char>>) -> nat
    decreases ls.len(),
{
    if ls.len() == 0 {
        0
    } else {
        let m = longest(ls.drop_last());
        if ls.last().len() > m {
            ls.last().len()
        } else {
            m
        }
    }
}

/// Turns a read file into the snapshot that is shown, measuring its longest line.
pub fn finalize_file_snapshot(raw: RawFileContent) -> (r: FileContentSnapshot)
    ensures
        r.path == raw.path,
        r.lines == raw.lines,
        r.max_chars as nat == longest(str_views(raw.lines@)),
        r.truncated == raw.truncated,
        r.binary == raw.binary,
        r.error == raw.error,
{
    let ghost lv = str_views(raw.lines@);
    let mut m: usize = 0;
    let mut i: usize = 0;
    proof {
        assert(lv.take(0) =~= Seq::<Seq<char>>::empty());
    }
    while i < raw.lines.len()
        invariant
            i <= raw.lines@.len(),
            lv == str_views(raw.lines@),
            m as nat == longest(lv.take(i as int)),
        decreases raw.lines@.len() - i,
    {
        proof {
            assert(lv.take(i + 1).drop_last() =~= lv.take(i as int));
            assert(lv.take(i + 1).last() == raw.lines@[i as int]@);
        }
        let n = chars_of(raw.lines[i].as_str()).len();
        if n > m {
            m = n;
        }
        i += 1;
    }
    proof {
        assert(lv.take(raw.lines@.len() as int) =~= lv);
    }
    FileContentSnapshot {
        path: raw.path,
        lines: raw.lines,
        max_chars: m,
        truncated: raw.truncated,
        binary: raw.binary,
        error: raw.error,
    }
}

// ===== File tabs =====

/// Where a file tab comes from.
#[derive(Debug)]
pub enum FileTabSource {
    /// A local change, with its group.
    Changes(GroupKind),
    /// A file of the project tree.
    ProjectFiles,
    /// A file of a commit.
    Commit { commit_id: String, change_kind: Option<FileChangeKind> },
}

/// An open file tab.
#[derive(Debug)]
pub struct FileTab {
    pub path: String,
    pub source: FileTabSource,
    /// The diff fetched for it (changes and commits).
    pub cached_diff: Option<FileDiff>,
    /// The content read for it (project files).
    pub cached_content: Option<FileContentSnapshot>,
}

/// Which cached data the main area shows for the active tab.
#[derive(Debug, Clone, Copy, PartialEq, Eq, Structural)]
pub enum ShownData {
    Diff,
    Content,
}

/// The selection state that follows from the active tab.
#[derive(Debug)]
pub struct TabFocus {
    /// The selected changed file and its group (changes tabs).
    pub selected_file: Option<(String, GroupKind)>,
    /// The data on show, taken from the tab's cache.
    pub shown: ShownData,
    /// The diff is still to be fetched.
    pub loading_diff: bool,
    /// The selected project file (project tabs).
    pub selected_pf_path: Option<String>,
    /// The content is still to be read.
    pub loading_file_content: bool,
    /// The selected commit file (commit tabs).
    pub selected_commit_file: Option<String>,
}

/// What showing `tab` selects: a changes tab selects its file and waits for
/// its diff (only staged and unstaged files have one); a project tab selects
/// its path and waits for its content; a commit tab selects its file and
/// waits for its diff.
pub open spec fn focus_ok(tab: FileTab, f: TabFocus) -> bool {
    match tab.source {
        FileTabSource::Changes(k) => {
            &&& f.selected_file matches Some((p, g)) && p@ == tab.path@ && g == k
            &&& f.shown == ShownData::Diff
            &&& f.loading_diff == (tab.cached_diff is None && (k == GroupKind::Staged || k
                == GroupKind::Unstaged))
            &&& f.selected_pf_path is None
            &&& !f.loading_file_content
            &&& f.selected_commit_file is None
        },
        FileTabSource::ProjectFiles => {
            &&& f.selected_file is None
            &&& f.shown == ShownData::Content
            &&& !f.loading_diff
            &&& f.selected_pf_path matches Some(p) && p@ == tab.path@
            &&& f.loading_file_content == tab.cached_content is None
            &&& f.selected_commit_file is None
        },
        FileTabSource::Commit { .. } => {
            &&& f.selected_file is None
            &&& f.shown == ShownData::Diff
            &&& f.loading_diff == tab.cached_diff is None
            &&& f.selected_pf_path is None
            &&& !f.loading_file_content
            &&& f.selected_commit_file matches Some(p) && p@ == tab.path@
        },
    }
}

/// The selection that follows from showing `tab`.
pub fn tab_focus(tab: &FileTab) -> (f: TabFocus)
    ensures
        focus_ok(*tab, f),
{
    match &tab.source {
        FileTabSource::Changes(k) => TabFocus {
            selected_file: Some((tab.path.clone(), *k)),
            shown: ShownData::Diff,
            loading_diff: tab.cached_diff.is_none() && (*k == GroupKind::Staged || *k
                == GroupKind::Unstaged),
            selected_pf_path: None,
            loading_file_content: false,
            selected_commit_file: None,
        },
        FileTabSource::ProjectFiles => TabFocus {
            selected_file: None,
            shown: ShownData::Content,
            loading_diff: false,
            selected_pf_path: Some(tab.path.clone()),
            loading_file_content: tab.cached_content.is_none(),
            selected_commit_file: None,
        },
        FileTabSource::Commit { .. } => TabFocus {
            selected_file: None,
            shown: ShownData::Diff,
            loading_diff: tab.cached_diff.is_none(),
            selected_pf_path: None,
            loading_file_content: false,
            selected_commit_file: Some(tab.path.clone()),
        },
    }
}

/// The open file tabs and the one on show.
#[derive(Debug)]
pub struct FileTabs {
    pub tabs: Vec<FileTab>,
    pub active: Option<usize>,
}

/// The tab on show after tab `idx` of `len` closes: the one before it when
/// it was the one on show (the first when it was first), one step left when
/// it came after, none when no tab is left.
pub open spec fn active_after_close(active: Option<usize>, idx: nat, len: nat) -> Option<usize> {
    if len <= 1 {
        None
    } else {
        Some(
            match active {
                Some(i) => if i == idx {
                    if idx == 0 {
                        0usize
                    } else {
                        (idx - 1) as usize
                    }
                } else if i > idx {
                    (i - 1) as usize
                } else {
                    i
                },
                None => 0usize,
            },
        )
    }
}

impl FileTabs {
    /// The tab on show exists.
    pub open spec fn wf(&self) -> bool {
        self.active matches Some(i) ==> i < self.tabs@.len()
    }

    /// No open tabs.
    pub fn new() -> (r: FileTabs)
        ensures
            r.wf(),
            r.tabs@.len() == 0,
            r.active is None,
    {
        FileTabs { tabs: Vec::new(), active: None }
    }

    /// Closes tab `idx` (nothing happens past the end) and picks the tab on
    /// show as [`active_after_close`] says; returns the selection that follows
    /// from it, `None` when no tab is left or nothing was closed.
    pub fn close_file_tab(&mut self, idx: usize) -> (f: Option<TabFocus>)
        requires
            old(self).wf(),
        ensures
            final(self).wf(),
            idx >= old(self).tabs@.len() ==> f is None && final(self).tabs@ == old(self).tabs@
                && final(self).active == old(self).active,
            idx < old(self).tabs@.len() ==> {
                &&& final(self).tabs@ == old(self).tabs@.remove(idx as int)
                &&& final(self).active == active_after_close(
                    old(self).active,
                    idx as nat,
                    old(self).tabs@.len(),
                )
                &&& match final(self).active {
                    Some(a) => f matches Some(x) && focus_ok(final(self).tabs@[a as int], x),
                    None => f is None,
                }
            },
    {
        if idx >= self.tabs.len() {
            return None;
        }
        let len = self.tabs.len();
        self.tabs.remove(idx);
        if self.tabs.len() == 0 {
            self.active = None;
            return None;
        }
        let new_idx: usize = match self.active {
            Some(i) => if i == idx {
                if idx == 0 {
                    0
                } else {
                    idx - 1
                }
            } else if i > idx {
                i - 1
            } else {
                i
            },
            None => 0,
        };
        self.active = Some(new_idx);
        Some(tab_focus(&self.tabs[new_idx]))
    }

    /// Shows tab `idx`; returns the selection that follows.
    pub fn activate(&mut self, idx: usize) -> (f: TabFocus)
        requires
            old(self).wf(),
            idx < old(self).tabs@.len(),
        ensures
            final(self).wf(),
            final(self).tabs@ == old(self).tabs@,
            final(self).active == Some(idx),
            focus_ok(final(self).tabs@[idx as int], f),
    {
        self.active = Some(idx);
        tab_focus(&self.tabs[idx])
    }
}

} // verus!
