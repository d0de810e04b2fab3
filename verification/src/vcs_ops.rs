//! Decisions of the Git view before and after its commands run: which
//! remote a pull or push goes to, history paging, commit messages, and the
//! labels of the toolbar and side lists.

use vstd::prelude::*;

use crate::text::{
    chars_of, dec, push_dec, push_str, split_once, split_once_chars, string_of, trim, trim_chars,
};
use crate::vcs_confirm::RemoteOp;
use crate::vcs_search::{opt_view, parse_search_query, search_query, search_query_ok};

verus! {

// ===== Pull and push =====

/// Where a pull or push goes.
#[derive(Debug)]
pub struct RemotePlan {
    /// The remote: from the upstream of the branch, or `origin`.
    pub remote: String,
    /// The branch on the remote.
    pub remote_branch: String,
    /// The local branch (`HEAD`).
    pub local_branch: String,
    /// The branch has no upstream yet: a push sets it (`-u`).
    pub set_upstream: bool,
    /// A forced push (`--force-with-lease`).
    pub force_lease: bool,
}

/// What a sync plan is: `(remote, remote branch, local branch, set upstream, force)`.
pub type PlanView = (Seq<char>, Seq<char>, Seq<char>, bool, bool);

/// The plan of a sync from the `HEAD` branch (none when detached) and its
/// upstream (`remote/branch`, split at the first `/`): without an upstream it
/// goes to `origin` and the same branch name, and a pull is refused.
pub open spec fn remote_plan(op: RemoteOp, head: Option<Seq<char>>, upstream: Option<Seq<char>>) -> Result<PlanView, Seq<char>> {
    match head {
        None => Err("当前为 detached HEAD，无法 push/pull"@),
        Some(local) => if op == RemoteOp::Pull && upstream is None {
            Err("当前分支没有上游分支：先点 Push（会自动设置 upstream）再 Pull"@)
        } else {
            let (r, b) = match upstream {
                Some(u) => match split_once(u, '/') {
                    Some((r, b)) => (r, b),
                    None => ("origin"@, local),
                },
                None => ("origin"@, local),
            };
            Ok((r, b, local, upstream is None, op == RemoteOp::PushForce))
        },
    }
}

/// Plans a fetch, pull or push.
pub fn plan_remote_op(op: RemoteOp, head: Option<&str>, upstream: Option<&str>) -> (r: Result<
    RemotePlan,
    String,
>)
    ensures
        match r {
            Ok(p) => remote_plan(
                op,
                opt_str(head),
                opt_str(upstream),
            ) == Ok::<PlanView, Seq<char>>(
                (p.remote@, p.remote_branch@, p.local_branch@, p.set_upstream, p.force_lease),
            ),
            Err(e) => remote_plan(op, opt_str(head), opt_str(upstream)) == Err::<
                PlanView,
                Seq<char>,
            >(e@),
        },
{
    let local = match head {
        None => return Err(String::from_str("当前为 detached HEAD，无法 push/pull")),
        Some(h) => h,
    };
    if op == RemoteOp::Pull && upstream.is_none() {
        return Err(String::from_str("当前分支没有上游分支：先点 Push（会自动设置 upstream）再 Pull"));
    }
    let split = match upstream {
        Some(u) => split_once_chars(chars_of(u).as_slice(), '/'),
        None => None,
    };
    let (remote, remote_branch) = match split {
        Some((a, b)) => (string_of(a.as_slice()), string_of(b.as_slice())),
        None => (String::from_str("origin"), String::from_str(local)),
    };
    Ok(
        RemotePlan {
            remote,
            remote_branch,
            local_branch: String::from_str(local),
            set_upstream: upstream.is_none(),
            force_lease: op == RemoteOp::PushForce,
        },
    )
}

/// The view of an optional text.
pub open spec fn opt_str(o: Option<&str>) -> Option<Seq<char>> {
    match o {
        Some(s) => Some(s@),
        None => None,
    }
}

/// The name of a sync as its `Debug` text.
pub open spec fn remote_op_name(op: RemoteOp) -> Seq<char> {
    match op {
        RemoteOp::Fetch => "Fetch"@,
        RemoteOp::Pull => "Pull"@,
        RemoteOp::Push => "Push"@,
        RemoteOp::PushForce => "PushForce"@,
    }
}

/// The message of a failed sync: its name, `失败：` and the error.
pub fn remote_op_failure(op: RemoteOp, e: &str) -> (r: String)
    ensures
        r@ == remote_op_name(op) + " 失败："@ + e@,
{
    let mut v: Vec<char> = Vec::new();
    match op {
        RemoteOp::Fetch => push_str(&mut v, "Fetch"),
        RemoteOp::Pull => push_str(&mut v, "Pull"),
        RemoteOp::Push => push_str(&mut v, "Push"),
        RemoteOp::PushForce => push_str(&mut v, "PushForce"),
    }
    push_str(&mut v, " 失败：");
    push_str(&mut v, e);
    string_of(v.as_slice())
}

// ===== History =====

/// Commits per history page.
pub const HISTORY_PAGE_SIZE: usize = 100;

/// What a history page asks of `git log`.
#[derive(Debug)]
pub struct LogQuery {
    pub skip: usize,
    pub limit: usize,
    pub path_filter: Option<String>,
    pub grep: Option<String>,
    pub author: Option<String>,
    pub since: Option<String>,
}

/// The query of the page that starts at `skip`, for the trimmed search text
/// and the path filter.
pub fn log_query(search: &str, skip: usize, path_filter: Option<String>) -> (r: LogQuery)
    requires
        search_query_ok(trim(search@)),
    ensures
        r.skip == skip,
        r.limit == HISTORY_PAGE_SIZE,
        r.path_filter == path_filter,
        (opt_view(r.grep), opt_view(r.author), opt_view(r.since)) == search_query(trim(search@)),
{
    let t = string_of(trim_chars(chars_of(search).as_slice()).as_slice());
    let (grep, author, since) = parse_search_query(t.as_str());
    LogQuery { skip, limit: HISTORY_PAGE_SIZE, path_filter, grep, author, since }
}

/// Takes in a loaded page: the first page replaces the list, later ones
/// extend it; returns whether more may follow (a full page came).
pub fn merge_history_page<T>(list: &mut Vec<T>, page: Vec<T>, skip: usize) -> (more: bool)
    ensures
        skip == 0 ==> final(list)@ == page@,
        skip != 0 ==> final(list)@ == old(list)@ + page@,
        more == (page@.len() >= HISTORY_PAGE_SIZE),
{
    let got = page.len();
    if skip == 0 {
        *list = page;
    } else {
        let mut page = page;
        list.append(&mut page);
    }
    got >= HISTORY_PAGE_SIZE
}

// ===== Commit =====

/// The message to commit: the trimmed text; blank is refused unless the
/// last commit is amended.
pub open spec fn commit_message_of(raw: Seq<char>, amend: bool) -> Result<Seq<char>, Seq<char>> {
    if trim(raw).len() == 0 && !amend {
        Err("commit message 不能为空"@)
    } else {
        Ok(trim(raw))
    }
}

/// Checks the commit message.
pub fn commit_message(raw: &str, amend: bool) -> (r: Result<String, String>)
    ensures
        match r {
            Ok(m) => commit_message_of(raw@, amend) == Ok::<Seq<char>, Seq<char>>(m@),
            Err(e) => commit_message_of(raw@, amend) == Err::<Seq<char>, Seq<char>>(e@),
        },
{
    let t = trim_chars(chars_of(raw).as_slice());
    if t.len() == 0 && !amend {
        return Err(String::from_str("commit message 不能为空"));
    }
    Ok(string_of(t.as_slice()))
}

// ===== Labels =====

/// `prefix` then `n`.
fn with_count(prefix: &str, n: u64) -> (r: String)
    ensures
        r@ == prefix@ + dec(n as nat),
{
    let mut v: Vec<char> = Vec::new();
    push_str(&mut v, prefix);
    push_dec(&mut v, n);
    string_of(v.as_slice())
}

/// The `HEAD` badge: the branch name (or `(detached)`), then `↑ahead` and
/// `↓behind` pills for counts above 0 (unknown counts are 0).
pub open spec fn head_badge_text(branch: Option<Seq<char>>, ahead: Option<u64>, behind: Option<u64>) -> (Seq<char>, Option<Seq<char>>, Option<Seq<char>>) {
    let a = match ahead {
        Some(x) => x,
        None => 0,
    };
    let b = match behind {
        Some(x) => x,
        None => 0,
    };
    (
        match branch {
            Some(n) => n,
            None => "(detached)"@,
        },
        if a > 0 {
            Some("↑"@ + dec(a as nat))
        } else {
            None
        },
        if b > 0 {
            Some("↓"@ + dec(b as nat))
        } else {
            None
        },
    )
}

/// The texts of the `HEAD` badge.
pub fn head_badge(branch: Option<&str>, ahead: Option<u64>, behind: Option<u64>) -> (r: (
    String,
    Option<String>,
    Option<String>,
))
    ensures
        (r.0@, opt_view(r.1), opt_view(r.2)) == head_badge_text(opt_str(branch), ahead, behind),
{
    let name = match branch {
        Some(n) => String::from_str(n),
        None => String::from_str("(detached)"),
    };
    let a = match ahead {
        Some(x) => x,
        None => 0,
    };
    let b = match behind {
        Some(x) => x,
        None => 0,
    };
    let up = if a > 0 {
        Some(with_count("↑", a))
    } else {
        None
    };
    let down = if b > 0 {
        Some(with_count("↓", b))
    } else {
        None
    };
    (name, up, down)
}

/// The pull and push entries of the Git menu: `Pull ↓n` and `Push ↑n` when
/// there is something to pull or push.
pub open spec fn sync_labels_text(ahead: u64, behind: u64) -> (Seq<char>, Seq<char>) {
    (
        if behind > 0 {
            "Pull ↓"@ + dec(behind as nat)
        } else {
            "Pull"@
        },
        if ahead > 0 {
            "Push ↑"@ + dec(ahead as nat)
        } else {
            "Push"@
        },
    )
}

/// The pull and push entries of the Git menu.
pub fn sync_labels(ahead: u64, behind: u64) -> (r: (String, String))
    ensures
        (r.0@, r.1@) == sync_labels_text(ahead, behind),
{
    let pull = if behind > 0 {
        with_count("Pull ↓", behind)
    } else {
        String::from_str("Pull")
    };
    let push = if ahead > 0 {
        with_count("Push ↑", ahead)
    } else {
        String::from_str("Push")
    };
    (pull, push)
}

/// The address line of a remote: the fetch URL, and the push URL when it has one.
pub open spec fn remote_url_text(fetch: Seq<char>, push: Option<Seq<char>>) -> Seq<char> {
    match push {
        Some(p) => fetch + " (push: "@ + p + ")"@,
        None => fetch,
    }
}

/// The address line of a remote row.
pub fn remote_display_url(fetch: &str, push: Option<&str>) -> (r: String)
    ensures
        r@ == remote_url_text(fetch@, opt_str(push)),
{
    match push {
        Some(p) => {
            let mut v: Vec<char> = Vec::new();
            push_str(&mut v, fetch);
            push_str(&mut v, " (push: ");
            push_str(&mut v, p);
            push_str(&mut v, ")");
            string_of(v.as_slice())
        },
        None => String::from_str(fetch),
    }
}

/// The kind of a tag.
#[derive(Debug, Clone, Copy, PartialEq, Eq, Structural)]
pub enum TagKind {
    Annotated,
    Lightweight,
}

/// The letter after a tag name: `A` or `L`, in brackets.
pub fn tag_kind_label(kind: TagKind) -> (r: String)
    ensures
        r@ == "("@ + (match kind {
            TagKind::Annotated => "A"@,
            TagKind::Lightweight => "L"@,
        }) + ")"@,
{
    let mut v: Vec<char> = Vec::new();
    push_str(&mut v, "(");
    match kind {
        TagKind::Annotated => push_str(&mut v, "A"),
        TagKind::Lightweight => push_str(&mut v, "L"),
    }
    push_str(&mut v, ")");
    string_of(v.as_slice())
}

/// The second line of a tag row: its message, else the short commit hash.
pub fn tag_detail(message: Option<&str>, short_hash: &str) -> (r: String)
    ensures
        r@ == match message {
            Some(m) => m@,
            None => short_hash@,
        },
{
    match message {
        Some(m) => String::from_str(m),
        None => String::from_str(short_hash),
    }
}

/// The name of stash `idx`: `stash@{idx}`.
pub fn stash_label(idx: usize) -> (r: String)
    ensures
        r@ == "stash@{"@ + dec(idx as nat) + "}"@,
{
    let mut v: Vec<char> = Vec::new();
    push_str(&mut v, "stash@{");
    push_dec(&mut v, idx as u64);
    push_str(&mut v, "}");
    string_of(v.as_slice())
}

/// `prefix` followed by `e`: the error texts of failed commands
/// (`加载历史失败：`, `提交失败：`, `操作失败：`, `拉取 diff 失败：`).
pub fn failure_text(prefix: &str, e: &str) -> (r: String)
    ensures
        r@ == prefix@ + e@,
{
    let mut v: Vec<char> = Vec::new();
    push_str(&mut v, prefix);
    push_str(&mut v, e);
    string_of(v.as_slice())
}

} // verus!
