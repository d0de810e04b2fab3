//! The tabs of a Redis connection: a fixed key-detail tab, then command and
//! Pub/Sub tabs that can be opened and closed; and the texts of the
//! confirmation dialogs.

use vstd::prelude::*;

use crate::text::{
    chars_of, copy_range, dec, parse_uint, parse_uint_chars, push_chars, push_dec, push_str,
    string_of,
};

verus! {

// ===== Dialog texts =====

/// `s` cut to `max` characters with `…` after it when it is longer.
pub open spec fn truncated(s: Seq<char>, max: nat) -> Seq<char> {
    if s.len() <= max {
        s
    } else {
        s.take(max as int).push('…')
    }
}

/// A dialog text is at most one character longer than its limit: a text that
/// fits is shown whole, a longer one as its first `max` characters and `…`.
pub proof fn lemma_truncated_fits(s: Seq<char>, max: nat)
    ensures
        truncated(s, max).len() <= max + 1,
        s.len() <= max ==> truncated(s, max) == s,
        s.len() > max ==> truncated(s, max).take(max as int) == s.take(max as int)
            && truncated(s, max).last() == '…',
{
    if s.len() > max {
        assert(truncated(s, max).take(max as int) =~= s.take(max as int));
    }
}

/// Cuts `s` to `max_chars` characters for a dialog, marking a cut with `…`.
pub fn truncate_for_dialog(s: &str, max_chars: usize) -> (r: String)
    ensures
        r@ == truncated(s@, max_chars as nat),
{
    let cs = chars_of(s);
    if cs.len() <= max_chars {
        return String::from_str(s);
    }
    let mut p = copy_range(cs.as_slice(), 0, max_chars);
    p.push('…');
    proof {
        assert(p@ =~= s@.take(max_chars as int).push('…'));
    }
    string_of(p.as_slice())
}

/// What a delete confirmation is about.
#[derive(Debug)]
pub enum DeleteTarget {
    /// A whole key.
    Key(String),
    /// A field of a hash.
    HashField(String),
    /// A list element, by value, shown with its position.
    ListElement(String, usize),
    /// A member of a set.
    SetMember(String),
    /// A member of a sorted set.
    ZSetMember(String),
    /// An entry of a stream, by id.
    StreamEntry(String),
}

/// Title and text of the dialog that confirms deleting `t`; the named item
/// is cut to 80 characters.
pub open spec fn delete_prompt_text(t: DeleteTarget) -> (Seq<char>, Seq<char>) {
    match t {
        DeleteTarget::Key(k) => (
            "删除 Key？"@,
            "将永久删除 key「"@ + truncated(k@, 80) + "」，此操作不可撤销。"@,
        ),
        DeleteTarget::HashField(f) => (
            "删除 Hash 字段？"@,
            "将删除字段「"@ + truncated(f@, 80) + "」，此操作不可撤销。"@,
        ),
        DeleteTarget::ListElement(v, i) => (
            "删除 List 元素？"@,
            "将删除序号 "@ + dec(i as nat) + " 的元素「"@ + truncated(v@, 80)
                + "」（按值首匹配，仅删 1 个），此操作不可撤销。"@,
        ),
        DeleteTarget::SetMember(m) => (
            "删除 Set 成员？"@,
            "将删除成员「"@ + truncated(m@, 80) + "」，此操作不可撤销。"@,
        ),
        DeleteTarget::ZSetMember(m) => (
            "删除 ZSet 成员？"@,
            "将删除成员「"@ + truncated(m@, 80) + "」，此操作不可撤销。"@,
        ),
        DeleteTarget::StreamEntry(id) => (
            "删除 Stream 条目？"@,
            "将删除条目「"@ + truncated(id@, 80) + "」，此操作不可撤销。"@,
        ),
    }
}

/// `head`, the item cut to 80 characters, `tail`.
fn framed(head: &str, item: &str, tail: &str) -> (r: String)
    ensures
        r@ == head@ + truncated(item@, 80) + tail@,
{
    let mut v: Vec<char> = Vec::new();
    push_str(&mut v, head);
    let t = truncate_for_dialog(item, 80);
    push_str(&mut v, t.as_str());
    push_str(&mut v, tail);
    string_of(v.as_slice())
}

/// The title and text of the dialog that confirms a delete.
pub fn delete_prompt(t: &DeleteTarget) -> (r: (String, String))
    ensures
        (r.0@, r.1@) == delete_prompt_text(*t),
{
    match t {
        DeleteTarget::Key(k) => (
            String::from_str("删除 Key？"),
            framed("将永久删除 key「", k.as_str(), "」，此操作不可撤销。"),
        ),
        DeleteTarget::HashField(f) => (
            String::from_str("删除 Hash 字段？"),
            framed("将删除字段「", f.as_str(), "」，此操作不可撤销。"),
        ),
        DeleteTarget::ListElement(v, i) => {
            let mut head: Vec<char> = Vec::new();
            push_str(&mut head, "将删除序号 ");
            push_dec(&mut head, *i as u64);
            push_str(&mut head, " 的元素「");
            let t = truncate_for_dialog(v.as_str(), 80);
            push_str(&mut head, t.as_str());
            push_str(&mut head, "」（按值首匹配，仅删 1 个），此操作不可撤销。");
            (String::from_str("删除 List 元素？"), string_of(head.as_slice()))
        },
        DeleteTarget::SetMember(m) => (
            String::from_str("删除 Set 成员？"),
            framed("将删除成员「", m.as_str(), "」，此操作不可撤销。"),
        ),
        DeleteTarget::ZSetMember(m) => (
            String::from_str("删除 ZSet 成员？"),
            framed("将删除成员「", m.as_str(), "」，此操作不可撤销。"),
        ),
        DeleteTarget::StreamEntry(id) => (
            String::from_str("删除 Stream 条目？"),
            framed("将删除条目「", id.as_str(), "」，此操作不可撤销。"),
        ),
    }
}

/// The text of the dialog that confirms a dangerous command.
pub open spec fn danger_prompt_text(raw: Seq<char>) -> Seq<char> {
    "命令 `"@ + raw + "` 可能造成数据丢失或服务影响。\n确定执行？"@
}

/// The question asked before a dangerous command runs.
pub fn danger_prompt(raw: &str) -> (r: String)
    ensures
        r@ == danger_prompt_text(raw@),
{
    let mut v: Vec<char> = Vec::new();
    push_str(&mut v, "命令 `");
    push_str(&mut v, raw);
    push_str(&mut v, "` 可能造成数据丢失或服务影响。\n确定执行？");
    string_of(v.as_slice())
}

/// The database a connection opens on: its configured number when that is a
/// `u8`, else 0.
pub open spec fn initial_db_of(database: Option<Seq<char>>) -> nat {
    match database {
        Some(d) => match parse_uint(d, 255) {
            Some(n) => n,
            None => 0,
        },
        None => 0,
    }
}

/// The database a connection opens on.
pub fn initial_db(database: Option<&str>) -> (r: u8)
    ensures
        r as nat == initial_db_of(
            match database {
                Some(d) => Some(d@),
                None => None,
            },
        ),
{
    match database {
        Some(d) => {
            let cs = chars_of(d);
            match parse_uint_chars(cs.as_slice(), 255) {
                Some(n) => n as u8,
                None => 0,
            }
        },
        None => 0,
    }
}

// ===== Tabs =====

/// The kind of a tool tab.
#[derive(Debug, Clone, Copy, PartialEq, Eq, Structural)]
pub enum ToolKind {
    Cli,
    PubSub,
}

/// A tool tab: its kind and its number.
#[derive(Debug, Clone, Copy, PartialEq, Eq, Structural)]
pub struct ToolTab {
    pub kind: ToolKind,
    pub id: u64,
}

/// The tab on show: the key detail, or a tool tab by position.
#[derive(Debug, Clone, Copy, PartialEq, Eq, Structural)]
pub enum ActiveTab {
    Detail,
    Tool(usize),
}

/// `CLI {id}` or `Pub/Sub {id}`.
pub open spec fn tool_label_text(t: ToolTab) -> Seq<char> {
    match t.kind {
        ToolKind::Cli => "CLI "@ + dec(t.id as nat),
        ToolKind::PubSub => "Pub/Sub "@ + dec(t.id as nat),
    }
}

impl ToolTab {
    /// The tab title.
    pub fn label(&self) -> (r: String)
        ensures
            r@ == tool_label_text(*self),
    {
        let mut v: Vec<char> = Vec::new();
        match self.kind {
            ToolKind::Cli => push_str(&mut v, "CLI "),
            ToolKind::PubSub => push_str(&mut v, "Pub/Sub "),
        }
        push_dec(&mut v, self.id);
        string_of(v.as_slice())
    }

    /// The glyph before the title.
    pub fn icon_glyph(&self) -> (r: &'static str)
        ensures
            r@ == match self.kind {
                ToolKind::Cli => "▶"@,
                ToolKind::PubSub => "📡"@,
            },
    {
        match self.kind {
            ToolKind::Cli => "▶",
            ToolKind::PubSub => "📡",
        }
    }
}

/// The title of the key-detail tab: the key on show, or `Key 详情`.
pub open spec fn detail_label_text(current_key: Option<Seq<char>>) -> Seq<char> {
    match current_key {
        Some(k) => k,
        None => "Key 详情"@,
    }
}

/// The title of the key-detail tab.
pub fn detail_label(current_key: Option<&str>) -> (r: String)
    ensures
        r@ == detail_label_text(
            match current_key {
                Some(k) => Some(k@),
                None => None,
            },
        ),
{
    match current_key {
        Some(k) => String::from_str(k),
        None => String::from_str("Key 详情"),
    }
}

/// What the close-tab shortcut does.
#[derive(Debug, Clone, Copy, PartialEq, Eq, Structural)]
pub enum CloseTabOutcome {
    /// A tool tab was closed.
    ClosedTool(usize),
    /// The key-detail tab lets go of its key.
    ClearKey,
    /// Nothing to close here: the shortcut goes on to the window.
    Propagate,
}

/// The tool tabs of a connection and the tab on show.
#[derive(Debug)]
pub struct SessionTabs {
    pub tools: Vec<ToolTab>,
    pub active: ActiveTab,
    /// The number the next tool tab gets.
    pub next_tool_id: u64,
}

/// Where the active tab goes when tool tab `idx` of `len` is closed: the one
/// before it when it was the active one (the first one, or the detail tab,
/// when there is none before), one step left when it was after it.
pub open spec fn active_after_close(active: ActiveTab, idx: nat, len: nat) -> ActiveTab {
    match active {
        ActiveTab::Detail => ActiveTab::Detail,
        ActiveTab::Tool(a) => if a == idx {
            if idx == 0 {
                if len <= 1 {
                    ActiveTab::Detail
                } else {
                    ActiveTab::Tool(0)
                }
            } else {
                ActiveTab::Tool((idx - 1) as usize)
            }
        } else if a > idx {
            ActiveTab::Tool((a - 1) as usize)
        } else {
            ActiveTab::Tool(a)
        },
    }
}

impl SessionTabs {
    /// Tab numbers are positive, below the next one and never repeat.
    pub open spec fn wf(&self) -> bool {
        &&& self.next_tool_id >= 1
        &&& forall|i: int|
            0 <= i < self.tools@.len() ==> 1 <= #[trigger] self.tools@[i].id < self.next_tool_id
        &&& forall|i: int, j: int|
            0 <= i < j < self.tools@.len() ==> self.tools@[i].id != self.tools@[j].id
    }

    /// No tool tabs; the detail tab is on show; numbering starts at 1.
    pub fn new() -> (r: SessionTabs)
        ensures
            r.wf(),
            r.tools@.len() == 0,
            r.active == ActiveTab::Detail,
            r.next_tool_id == 1,
    {
        SessionTabs { tools: Vec::new(), active: ActiveTab::Detail, next_tool_id: 1 }
    }

    /// Opens a tool tab of `kind` after the others and shows it; returns its
    /// position. Numbers run out only after `u64::MAX - 1` tabs.
    pub fn open_tool(&mut self, kind: ToolKind) -> (idx: usize)
        requires
            old(self).wf(),
            old(self).next_tool_id < u64::MAX,
        ensures
            final(self).wf(),
            idx == old(self).tools@.len(),
            final(self).tools@ == old(self).tools@.push(
                ToolTab { kind, id: old(self).next_tool_id },
            ),
            final(self).next_tool_id == old(self).next_tool_id + 1,
            final(self).active == ActiveTab::Tool(idx),
    {
        let id = self.next_tool_id;
        self.next_tool_id = self.next_tool_id + 1;
        self.tools.push(ToolTab { kind, id });
        let idx = self.tools.len() - 1;
        self.active = ActiveTab::Tool(idx);
        proof {
            let o = old(self).tools@;
            assert forall|i: int| 0 <= i < self.tools@.len() implies 1 <= #[trigger] self.tools@[i].id
                < self.next_tool_id by {
                if i < o.len() {
                    assert(self.tools@[i] == o[i]);
                }
            }
            assert forall|i: int, j: int|
                0 <= i < j < self.tools@.len() implies self.tools@[i].id != self.tools@[j].id by {
                assert(self.tools@[i] == o[i]);
                if j < o.len() {
                    assert(self.tools@[j] == o[j]);
                }
            }
        }
        idx
    }

    /// Closes tool tab `idx` (nothing happens for a position past the end)
    /// and moves the active tab as [`active_after_close`] says.
    pub fn close_tool_tab(&mut self, idx: usize)
        requires
            old(self).wf(),
        ensures
            final(self).wf(),
            final(self).next_tool_id == old(self).next_tool_id,
            idx >= old(self).tools@.len() ==> *final(self) == *old(self),
            idx < old(self).tools@.len() ==> {
                &&& final(self).tools@ == old(self).tools@.remove(idx as int)
                &&& final(self).active == active_after_close(
                    old(self).active,
                    idx as nat,
                    old(self).tools@.len(),
                )
            },
    {
        if idx >= self.tools.len() {
            return;
        }
        let len = self.tools.len();
        self.tools.remove(idx);
        self.active = match self.active {
            ActiveTab::Detail => ActiveTab::Detail,
            ActiveTab::Tool(a) => {
                if a == idx {
                    if idx == 0 {
                        if self.tools.len() == 0 {
                            ActiveTab::Detail
                        } else {
                            ActiveTab::Tool(0)
                        }
                    } else {
                        ActiveTab::Tool(idx - 1)
                    }
                } else if a > idx {
                    ActiveTab::Tool(a - 1)
                } else {
                    ActiveTab::Tool(a)
                }
            },
        };
        proof {
            let o = old(self).tools@;
            assert forall|i: int, j: int|
                0 <= i < j < self.tools@.len() implies self.tools@[i].id != self.tools@[j].id by {
                let oi = if i < idx {
                    i
                } else {
                    i + 1
                };
                let oj = if j < idx {
                    j
                } else {
                    j + 1
                };
                assert(self.tools@[i] == o[oi]);
                assert(self.tools@[j] == o[oj]);
            }
            assert forall|i: int| 0 <= i < self.tools@.len() implies 1 <= #[trigger] self.tools@[i].id
                < self.next_tool_id by {
                if i < idx {
                    assert(self.tools@[i] == o[i]);
                } else {
                    assert(self.tools@[i] == o[i + 1]);
                }
            }
        }
    }

    /// Shows `target`; returns whether the tab on show changed.
    pub fn select_active(&mut self, target: ActiveTab) -> (changed: bool)
        requires
            old(self).wf(),
        ensures
            final(self).wf(),
            final(self).tools@ == old(self).tools@,
            final(self).next_tool_id == old(self).next_tool_id,
            final(self).active == target,
            changed == (old(self).active != target),
    {
        if self.active == target {
            return false;
        }
        self.active = target;
        true
    }

    /// The close-tab shortcut: closes the tool tab on show; on the detail tab
    /// it lets go of the key when one is shown, and otherwise passes on.
    pub fn close_tab_action(&mut self, detail_has_key: bool) -> (r: CloseTabOutcome)
        requires
            old(self).wf(),
        ensures
            final(self).wf(),
            match old(self).active {
                ActiveTab::Tool(i) => {
                    &&& r == CloseTabOutcome::ClosedTool(i)
                    &&& i < old(self).tools@.len() ==> {
                        &&& final(self).tools@ == old(self).tools@.remove(i as int)
                        &&& final(self).active == active_after_close(
                            old(self).active,
                            i as nat,
                            old(self).tools@.len(),
                        )
                    }
                    &&& i >= old(self).tools@.len() ==> *final(self) == *old(self)
                },
                ActiveTab::Detail => {
                    &&& r == if detail_has_key {
                        CloseTabOutcome::ClearKey
                    } else {
                        CloseTabOutcome::Propagate
                    }
                    &&& *final(self) == *old(self)
                },
            },
    {
        match self.active {
            ActiveTab::Tool(i) => {
                self.close_tool_tab(i);
                CloseTabOutcome::ClosedTool(i)
            },
            ActiveTab::Detail => if detail_has_key {
                CloseTabOutcome::ClearKey
            } else {
                CloseTabOutcome::Propagate
            },
        }
    }

    /// The tool tabs that follow the database of the connection: the command tabs.
    pub fn cli_positions(&self) -> (r: Vec<usize>)
        ensures
            forall|k: int| 0 <= k < r@.len() ==> r@[k] < self.tools@.len() && self.tools@[r@[k] as int].kind
                == ToolKind::Cli,
            forall|i: int|
                0 <= i < self.tools@.len() && self.tools@[i].kind == ToolKind::Cli ==> r@.contains(
                    i as usize,
                ),
            forall|a: int, b: int| 0 <= a < b < r@.len() ==> r@[a] < r@[b],
    {
        let mut r: Vec<usize> = Vec::new();
        let mut i: usize = 0;
        while i < self.tools.len()
            invariant
                i <= self.tools@.len(),
                forall|k: int| 0 <= k < r@.len() ==> r@[k] < i && self.tools@[r@[k] as int].kind
                    == ToolKind::Cli,
                forall|j: int|
                    0 <= j < i && self.tools@[j].kind == ToolKind::Cli ==> r@.contains(j as usize),
                forall|a: int, b: int| 0 <= a < b < r@.len() ==> r@[a] < r@[b],
            decreases self.tools@.len() - i,
        {
            if self.tools[i].kind == ToolKind::Cli {
                let ghost before = r@;
                r.push(i);
                proof {
                    assert forall|j: int|
                        0 <= j < i + 1 && self.tools@[j].kind == ToolKind::Cli implies r@.contains(
                        j as usize,
                    ) by {
                        if j < i {
                            let k = choose|k: int| 0 <= k < before.len() && before[k] == j as usize;
                            assert(r@[k] == j as usize);
                        } else {
                            assert(r@[before.len() as int] == i);
                        }
                    }
                }
            } else {
                proof {
                    assert forall|j: int|
                        0 <= j < i + 1 && self.tools@[j].kind == ToolKind::Cli implies r@.contains(
                        j as usize,
                    ) by {
                    }
                }
            }
            i += 1;
        }
        r
    }
}

} // verus!
