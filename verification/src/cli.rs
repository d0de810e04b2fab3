//! The command panel: a typed command line is split into words, dangerous
//! commands are held back for confirmation, replies are printed the way
//! `redis-cli` prints them, and the panel keeps its history.

use vstd::prelude::*;

use crate::text::{
    lemma_dec_digits, lemma_split_join, split_on, all_ws, ascii_lower_seq, ascii_upper_seq, is_ascii_text, lemma_trim_ascii, lemma_trim_padded,
    lemma_trim_upper, chars_eq, chars_of, dec, dec_int, join, join_chars, join_with, join_with_str, push_chars, push_dec,
    push_dec_i64, push_str, starts_with, starts_with_str, str_views, string_of, to_uppercase_chars,
    trim, trim_chars, unicode_upper, views, words, words_of,
};

verus! {

/// One field of a stream entry: name and value.
#[derive(Debug)]
pub struct StreamEntry {
    /// The entry id, such as `1700000000000-0`.
    pub id: String,
    /// The fields of the entry, in order.
    pub fields: Vec<(String, String)>,
}

/// A reply of the server as the panel prints it. Nested values are held as
/// the preview texts that are printed for them.
#[derive(Debug)]
pub enum RedisValue {
    Nil,
    Text(String),
    Int(i64),
    /// A double, held as its decimal text.
    Float(String),
    Bool(bool),
    Bytes(Vec<u8>),
    /// A list reply: the preview of each element.
    List(Vec<String>),
    /// A set reply: the preview of each member.
    PlainSet(Vec<String>),
    /// An array reply: the preview of each item.
    Array(Vec<String>),
    /// A hash reply: each field with the preview of its value.
    Hash(Vec<(String, String)>),
    /// A sorted-set reply: the preview of each member with its score text.
    ZSet(Vec<(String, String)>),
    Stream(Vec<StreamEntry>),
}

/// `1) a`, `2) b`, ...: the items numbered from 1.
pub open spec fn numbered(items: Seq<String>) -> Seq<Seq<char>> {
    Seq::new(items.len(), |i: int| dec((i + 1) as nat) + ") "@ + items[i]@)
}

/// `a: b` for each pair, or `a (b)` when `paren` holds.
pub open spec fn pair_rows(pairs: Seq<(String, String)>, paren: bool) -> Seq<Seq<char>> {
    Seq::new(
        pairs.len(),
        |i: int|
            if paren {
                pairs[i].0@ + " ("@ + pairs[i].1@ + ")"@
            } else {
                pairs[i].0@ + ": "@ + pairs[i].1@
            },
    )
}

/// The field rows of a stream entry: four spaces, `name=value`.
pub open spec fn field_rows(fields: Seq<(String, String)>) -> Seq<Seq<char>> {
    Seq::new(fields.len(), |i: int| "    "@ + fields[i].0@ + "="@ + fields[i].1@)
}

/// A stream entry: its id on a line, then its field rows.
pub open spec fn entry_text(e: StreamEntry) -> Seq<char> {
    e.id@ + "\n"@ + join(field_rows(e.fields@), '\n')
}

/// The text of a reply, as `redis-cli` shows it.
pub open spec fn response_text(v: RedisValue) -> Seq<char> {
    match v {
        RedisValue::Nil => "(nil)"@,
        RedisValue::Text(s) => s@,
        RedisValue::Int(i) => "(integer) "@ + dec_int(i as int),
        RedisValue::Float(f) => "(double) "@ + f@,
        RedisValue::Bool(b) => "(boolean) "@ + if b {
            "true"@
        } else {
            "false"@
        },
        RedisValue::Bytes(b) => "(binary) ["@ + dec(b@.len()) + " bytes]"@,
        RedisValue::List(items) => join(numbered(items@), '\n'),
        RedisValue::PlainSet(items) => join(numbered(items@), '\n'),
        RedisValue::Array(items) => join(numbered(items@), '\n'),
        RedisValue::Hash(pairs) => join(pair_rows(pairs@, false), '\n'),
        RedisValue::ZSet(pairs) => join(pair_rows(pairs@, true), '\n'),
        RedisValue::Stream(entries) => join_with(
            Seq::new(entries@.len(), |i: int| entry_text(entries@[i])),
            "\n\n"@,
        ),
    }
}

/// A list, set or array reply prints alike: one line per item, in order,
/// line `i` reading `{i}) item` counted from 1, lines separated by `\n` (when
/// no item holds a line break of its own).
pub proof fn lemma_item_replies_one_per_line(v: Vec<String>)
    requires
        v@.len() >= 1,
        forall|i: int| 0 <= i < v@.len() ==> !(#[trigger] v@[i])@.contains('\n'),
    ensures
        response_text(RedisValue::List(v)) == response_text(RedisValue::Array(v)),
        response_text(RedisValue::PlainSet(v)) == response_text(RedisValue::Array(v)),
        split_on(response_text(RedisValue::List(v)), '\n').len() == v@.len(),
        forall|i: int|
            0 <= i < v@.len() ==> #[trigger] split_on(response_text(RedisValue::List(v)), '\n')[i]
                == dec((i + 1) as nat) + ") "@ + v@[i]@,
{
    let ls = numbered(v@);
    assert forall|i: int| 0 <= i < ls.len() implies !(#[trigger] ls[i]).contains('\n') by {
        let d = dec((i + 1) as nat);
        lemma_dec_digits((i + 1) as nat);
        reveal_strlit(") ");
        if ls[i].contains('\n') {
            let k = choose|k: int| 0 <= k < ls[i].len() && ls[i][k] == '\n';
            assert(ls[i] == d + ") "@ + v@[i]@);
            if k < d.len() {
                assert(ls[i][k] == d[k]);
            } else if k < d.len() + 2 {
                assert(ls[i][k] == ") "@[k - d.len()]);
            } else {
                assert(ls[i][k] == v@[i]@[k - d.len() - 2]);
                assert(v@[i]@.contains('\n'));
            }
        }
    }
    lemma_split_join(ls, '\n');
}

/// The numbered item lines.
fn numbered_rows(items: &Vec<String>) -> (r: Vec<Vec<char>>)
    ensures
        views(r@) == numbered(items@),
{
    let mut rows: Vec<Vec<char>> = Vec::new();
    let mut i: usize = 0;
    while i < items.len()
        invariant
            i <= items@.len(),
            views(rows@) == numbered(items@).take(i as int),
        decreases items@.len() - i,
    {
        let mut row: Vec<char> = Vec::new();
        push_dec(&mut row, (i + 1) as u64);
        push_str(&mut row, ") ");
        push_str(&mut row, items[i].as_str());
        let ghost before = rows@;
        rows.push(row);
        proof {
            assert(views(rows@) =~= views(before).push(row@));
            assert(numbered(items@).take(i + 1) =~= numbered(items@).take(i as int).push(row@));
        }
        i += 1;
    }
    proof {
        assert(numbered(items@).take(items@.len() as int) =~= numbered(items@));
    }
    rows
}

/// The pair lines.
fn pair_lines_of(pairs: &Vec<(String, String)>, paren: bool) -> (r: Vec<Vec<char>>)
    ensures
        views(r@) == pair_rows(pairs@, paren),
{
    let mut rows: Vec<Vec<char>> = Vec::new();
    let mut i: usize = 0;
    while i < pairs.len()
        invariant
            i <= pairs@.len(),
            views(rows@) == pair_rows(pairs@, paren).take(i as int),
        decreases pairs@.len() - i,
    {
        let mut row: Vec<char> = Vec::new();
        push_str(&mut row, pairs[i].0.as_str());
        if paren {
            push_str(&mut row, " (");
            push_str(&mut row, pairs[i].1.as_str());
            push_str(&mut row, ")");
        } else {
            push_str(&mut row, ": ");
            push_str(&mut row, pairs[i].1.as_str());
        }
        let ghost before = rows@;
        rows.push(row);
        proof {
            assert(views(rows@) =~= views(before).push(row@));
            assert(pair_rows(pairs@, paren).take(i + 1) =~= pair_rows(pairs@, paren).take(
                i as int,
            ).push(row@));
        }
        i += 1;
    }
    proof {
        assert(pair_rows(pairs@, paren).take(pairs@.len() as int) =~= pair_rows(pairs@, paren));
    }
    rows
}

/// The text of one stream entry.
fn entry_chars(e: &StreamEntry) -> (r: Vec<char>)
    ensures
        r@ == entry_text(*e),
{
    let mut rows: Vec<Vec<char>> = Vec::new();
    let mut i: usize = 0;
    while i < e.fields.len()
        invariant
            i <= e.fields@.len(),
            views(rows@) == field_rows(e.fields@).take(i as int),
        decreases e.fields@.len() - i,
    {
        let mut row: Vec<char> = Vec::new();
        push_str(&mut row, "    ");
        push_str(&mut row, e.fields[i].0.as_str());
        push_str(&mut row, "=");
        push_str(&mut row, e.fields[i].1.as_str());
        let ghost before = rows@;
        rows.push(row);
        proof {
            assert(views(rows@) =~= views(before).push(row@));
            assert(field_rows(e.fields@).take(i + 1) =~= field_rows(e.fields@).take(i as int).push(
                row@,
            ));
        }
        i += 1;
    }
    proof {
        assert(field_rows(e.fields@).take(e.fields@.len() as int) =~= field_rows(e.fields@));
    }
    let body = join_chars(&rows, '\n');
    let mut out: Vec<char> = chars_of(e.id.as_str());
    push_str(&mut out, "\n");
    push_chars(&mut out, body.as_slice());
    out
}

/// Formats a reply as multi-line text, as `redis-cli` prints it.
pub fn format_response(v: &RedisValue) -> (r: String)
    ensures
        r@ == response_text(*v),
{
    let mut out: Vec<char> = Vec::new();
    match v {
        RedisValue::Nil => push_str(&mut out, "(nil)"),
        RedisValue::Text(s) => push_str(&mut out, s.as_str()),
        RedisValue::Int(i) => {
            push_str(&mut out, "(integer) ");
            push_dec_i64(&mut out, *i);
        },
        RedisValue::Float(f) => {
            push_str(&mut out, "(double) ");
            push_str(&mut out, f.as_str());
        },
        RedisValue::Bool(b) => {
            push_str(&mut out, "(boolean) ");
            if *b {
                push_str(&mut out, "true");
            } else {
                push_str(&mut out, "false");
            }
        },
        RedisValue::Bytes(b) => {
            push_str(&mut out, "(binary) [");
            push_dec(&mut out, b.len() as u64);
            push_str(&mut out, " bytes]");
        },
        RedisValue::List(items) => {
            let rows = numbered_rows(items);
            out = join_chars(&rows, '\n');
        },
        RedisValue::PlainSet(items) => {
            let rows = numbered_rows(items);
            out = join_chars(&rows, '\n');
        },
        RedisValue::Array(items) => {
            let rows = numbered_rows(items);
            out = join_chars(&rows, '\n');
        },
        RedisValue::Hash(pairs) => {
            let rows = pair_lines_of(pairs, false);
            out = join_chars(&rows, '\n');
        },
        RedisValue::ZSet(pairs) => {
            let rows = pair_lines_of(pairs, true);
            out = join_chars(&rows, '\n');
        },
        RedisValue::Stream(entries) => {
            let ghost want = Seq::new(entries@.len(), |i: int| entry_text(entries@[i]));
            let mut parts: Vec<Vec<char>> = Vec::new();
            let mut i: usize = 0;
            while i < entries.len()
                invariant
                    i <= entries@.len(),
                    want == Seq::new(entries@.len(), |i: int| entry_text(entries@[i])),
                    views(parts@) == want.take(i as int),
                decreases entries@.len() - i,
            {
                let t = entry_chars(&entries[i]);
                let ghost before = parts@;
                parts.push(t);
                proof {
                    assert(views(parts@) =~= views(before).push(t@));
                    assert(want.take(i + 1) =~= want.take(i as int).push(t@));
                }
                i += 1;
            }
            proof {
                assert(want.take(entries@.len() as int) =~= want);
            }
            out = join_with_str(&parts, "\n\n");
        },
    }
    proof {
        assert(out@ =~= response_text(*v));
    }
    string_of(out.as_slice())
}

// ===== Dangerous commands =====

/// The command prefixes that are confirmed before they run.
pub open spec fn dangerous_prefixes() -> Seq<Seq<char>> {
    seq![
        "FLUSHDB"@,
        "FLUSHALL"@,
        "CONFIG SET"@,
        "DEBUG"@,
        "SHUTDOWN"@,
        "KEYS"@,
        "CLIENT KILL"@,
        "SCRIPT KILL"@,
    ]
}

/// The trimmed command, upper-cased, starts with a dangerous prefix.
pub open spec fn dangerous(raw: Seq<char>) -> bool {
    exists|i: int|
        0 <= i < dangerous_prefixes().len() && starts_with(
            unicode_upper(trim(raw)),
            #[trigger] dangerous_prefixes()[i],
        )
}

/// The trimmed command, ASCII upper-cased, starts with a dangerous prefix.
pub open spec fn ascii_dangerous(raw: Seq<char>) -> bool {
    exists|i: int|
        0 <= i < dangerous_prefixes().len() && starts_with(
            ascii_upper_seq(trim(raw)),
            #[trigger] dangerous_prefixes()[i],
        )
}

/// On ASCII commands the check ignores letter case and surrounding
/// whitespace: two commands that differ only in the case of their letters
/// are both dangerous or both not, and so are a command and the command
/// padded with whitespace.
pub proof fn lemma_dangerous_ignores_case_and_padding(
    s: Seq<char>,
    t: Seq<char>,
    p: Seq<char>,
    q: Seq<char>,
)
    requires
        ascii_upper_seq(s) == ascii_upper_seq(t),
        all_ws(p),
        all_ws(q),
    ensures
        ascii_dangerous(s) == ascii_dangerous(t),
        ascii_dangerous(ascii_lower_seq(s)) == ascii_dangerous(s),
        ascii_dangerous(p + s + q) == ascii_dangerous(s),
{
    lemma_trim_upper(s);
    lemma_trim_upper(t);
    let l = ascii_lower_seq(s);
    assert(ascii_upper_seq(l) =~= ascii_upper_seq(s));
    lemma_trim_upper(l);
    lemma_trim_padded(p, s, q);
}

/// Whether the command `raw` needs a confirmation (prefix match, any case).
pub fn is_dangerous(raw: &str) -> (r: bool)
    ensures
        r == dangerous(raw@),
        is_ascii_text(raw@) ==> r == ascii_dangerous(raw@),
{
    let t = trim_chars(chars_of(raw).as_slice());
    let up = to_uppercase_chars(t.as_slice());
    let u = up.as_slice();
    let ghost d = dangerous_prefixes();
    let ghost uv = unicode_upper(trim(raw@));
    assert(u@ == uv);
    proof {
        if is_ascii_text(raw@) {
            lemma_trim_ascii(raw@);
            assert(uv == ascii_upper_seq(trim(raw@)));
        }
    }
    let r = starts_with_str(u, "FLUSHDB") || starts_with_str(u, "FLUSHALL") || starts_with_str(
        u,
        "CONFIG SET",
    ) || starts_with_str(u, "DEBUG") || starts_with_str(u, "SHUTDOWN") || starts_with_str(u, "KEYS")
        || starts_with_str(u, "CLIENT KILL") || starts_with_str(u, "SCRIPT KILL");
    proof {
        if r {
            if starts_with(uv, "FLUSHDB"@) {
                assert(starts_with(uv, d[0]));
            } else if starts_with(uv, "FLUSHALL"@) {
                assert(starts_with(uv, d[1]));
            } else if starts_with(uv, "CONFIG SET"@) {
                assert(starts_with(uv, d[2]));
            } else if starts_with(uv, "DEBUG"@) {
                assert(starts_with(uv, d[3]));
            } else if starts_with(uv, "SHUTDOWN"@) {
                assert(starts_with(uv, d[4]));
            } else if starts_with(uv, "KEYS"@) {
                assert(starts_with(uv, d[5]));
            } else if starts_with(uv, "CLIENT KILL"@) {
                assert(starts_with(uv, d[6]));
            } else {
                assert(starts_with(uv, d[7]));
            }
        } else {
            assert forall|i: int| 0 <= i < d.len() implies !starts_with(uv, #[trigger] d[i]) by {
                if i == 0 {
                } else if i == 1 {
                } else if i == 2 {
                } else if i == 3 {
                } else if i == 4 {
                } else if i == 5 {
                } else if i == 6 {
                } else {
                }
            }
        }
    }
    r
}

// ===== Submitting a command =====

/// What the panel does with a submitted command line.
#[derive(Debug)]
pub enum SubmitAction {
    /// Nothing to run: the line is blank.
    Ignore,
    /// Ask before running the dangerous command `(raw, argv)`.
    Confirm(String, Vec<String>),
    /// Run the command `(raw, argv)`.
    Run(String, Vec<String>),
}

/// The trimmed line and its words, held back when dangerous.
pub open spec fn submit_plan(input: Seq<char>) -> Option<(bool, Seq<char>, Seq<Seq<char>>)> {
    let raw = trim(input);
    if raw.len() == 0 || words(raw).len() == 0 {
        None
    } else {
        Some((dangerous(raw), raw, words(raw)))
    }
}

/// Decides what a submitted line does: the trimmed line is split at
/// whitespace (no quoting); a dangerous one waits for confirmation.
pub fn submit_action(input: &str) -> (r: SubmitAction)
    ensures
        match r {
            SubmitAction::Ignore => submit_plan(input@) is None,
            SubmitAction::Confirm(raw, argv) => submit_plan(input@) == Some(
                (true, raw@, str_views(argv@)),
            ),
            SubmitAction::Run(raw, argv) => submit_plan(input@) == Some(
                (false, raw@, str_views(argv@)),
            ),
        },
{
    let t = trim_chars(chars_of(input).as_slice());
    if t.len() == 0 {
        return SubmitAction::Ignore;
    }
    let ws = words_of(t.as_slice());
    if ws.len() == 0 {
        return SubmitAction::Ignore;
    }
    let mut argv: Vec<String> = Vec::new();
    let mut i: usize = 0;
    while i < ws.len()
        invariant
            i <= ws@.len(),
            str_views(argv@) == views(ws@).take(i as int),
        decreases ws@.len() - i,
    {
        let s = string_of(ws[i].as_slice());
        let ghost before = argv@;
        argv.push(s);
        proof {
            assert(str_views(argv@) =~= str_views(before).push(s@));
            assert(views(ws@).take(i + 1) =~= views(ws@).take(i as int).push(ws@[i as int]@));
        }
        i += 1;
    }
    proof {
        assert(views(ws@).take(ws@.len() as int) =~= views(ws@));
    }
    let raw = string_of(t.as_slice());
    let d = is_dangerous(raw.as_str());
    if d {
        SubmitAction::Confirm(raw, argv)
    } else {
        SubmitAction::Run(raw, argv)
    }
}

// ===== History =====

/// Adds `raw` to the recalled commands unless it repeats the latest one.
pub open spec fn recall_push(h: Seq<Seq<char>>, raw: Seq<char>) -> Seq<Seq<char>> {
    if h.len() > 0 && h.last() == raw {
        h
    } else {
        h.push(raw)
    }
}

/// No command of `h` equals the one just before it.
pub open spec fn no_adjacent_repeats(h: Seq<Seq<char>>) -> bool {
    forall|i: int| 0 < i < h.len() ==> #[trigger] h[i] != h[i - 1]
}

/// The recall list never holds the same command twice in a row, and after a
/// command is sent it is the latest one to recall.
pub proof fn lemma_recall_no_repeats(h: Seq<Seq<char>>, raw: Seq<char>)
    requires
        no_adjacent_repeats(h),
    ensures
        no_adjacent_repeats(recall_push(h, raw)),
        recall_push(h, raw).last() == raw,
        recall_push(h, raw).len() <= h.len() + 1,
{
    let r = recall_push(h, raw);
    if !(h.len() > 0 && h.last() == raw) {
        assert forall|i: int| 0 < i < r.len() implies #[trigger] r[i] != r[i - 1] by {
            if i < h.len() {
                assert(r[i] == h[i] && r[i - 1] == h[i - 1]);
            }
        }
    }
}

/// The state of a reply block.
#[derive(Debug)]
pub enum ResponseKind {
    /// The reply text.
    Reply(String),
    /// The error message.
    Failed(String),
    /// Sent, no reply yet.
    Pending,
}

/// One command and its reply.
#[derive(Debug)]
pub struct HistoryEntry {
    pub command: String,
    pub response: ResponseKind,
    pub elapsed_ms: u64,
}

/// The command list and reply blocks of a panel.
#[derive(Debug)]
pub struct CliHistory {
    /// Command and reply blocks, oldest first.
    pub entries: Vec<HistoryEntry>,
    /// Commands for recall; no two in a row are equal.
    pub commands: Vec<String>,
    /// The recalled position, if the user is browsing.
    pub recall_idx: Option<usize>,
}

impl CliHistory {
    /// An empty history.
    pub fn new() -> (r: CliHistory)
        ensures
            r.entries@.len() == 0,
            r.commands@.len() == 0,
            r.recall_idx is None,
    {
        CliHistory { entries: Vec::new(), commands: Vec::new(), recall_idx: None }
    }

    /// Records that `raw` was sent: it joins the recall list unless it repeats
    /// the latest command, recall stops, and a pending block is added. Returns
    /// the index of that block.
    pub fn start(&mut self, raw: &str) -> (idx: usize)
        ensures
            idx == old(self).entries@.len(),
            final(self).entries@.len() == old(self).entries@.len() + 1,
            forall|j: int| 0 <= j < idx ==> final(self).entries@[j] == old(self).entries@[j],
            final(self).entries@[idx as int].command@ == raw@,
            final(self).entries@[idx as int].response is Pending,
            final(self).entries@[idx as int].elapsed_ms == 0,
            str_views(final(self).commands@) == recall_push(str_views(old(self).commands@), raw@),
            final(self).recall_idx is None,
    {
        let n = self.commands.len();
        let repeat = n > 0 && chars_eq(
            chars_of(self.commands[n - 1].as_str()).as_slice(),
            chars_of(raw).as_slice(),
        );
        if !repeat {
            let ghost before = self.commands@;
            self.commands.push(String::from_str(raw));
            proof {
                assert(str_views(self.commands@) =~= str_views(before).push(raw@));
            }
        } else {
            proof {
                assert(str_views(self.commands@).last() == self.commands@[n - 1]@);
            }
        }
        self.recall_idx = None;
        let idx = self.entries.len();
        self.entries.push(
            HistoryEntry {
                command: String::from_str(raw),
                response: ResponseKind::Pending,
                elapsed_ms: 0,
            },
        );
        idx
    }

    /// Stores the reply (or error text) of block `idx`, if there is such a block.
    pub fn finish(&mut self, idx: usize, elapsed_ms: u64, reply: Result<String, String>)
        ensures
            final(self).commands@ == old(self).commands@,
            final(self).recall_idx == old(self).recall_idx,
            final(self).entries@.len() == old(self).entries@.len(),
            forall|j: int|
                0 <= j < old(self).entries@.len() && j != idx ==> final(self).entries@[j]
                    == old(self).entries@[j],
            idx < old(self).entries@.len() ==> {
                &&& final(self).entries@[idx as int].command == old(self).entries@[idx as int].command
                &&& final(self).entries@[idx as int].elapsed_ms == elapsed_ms
                &&& match reply {
                    Ok(t) => final(self).entries@[idx as int].response == ResponseKind::Reply(t),
                    Err(e) => final(self).entries@[idx as int].response == ResponseKind::Failed(e),
                }
            },
    {
        if idx < self.entries.len() {
            let response = match reply {
                Ok(t) => ResponseKind::Reply(t),
                Err(e) => ResponseKind::Failed(e),
            };
            let command = self.entries[idx].command.clone();
            self.entries.set(idx, HistoryEntry { command, response, elapsed_ms });
        }
    }

    /// Removes every reply block; the recall list stays.
    pub fn clear(&mut self)
        ensures
            final(self).entries@.len() == 0,
            final(self).commands@ == old(self).commands@,
            final(self).recall_idx == old(self).recall_idx,
    {
        self.entries.clear();
    }
}

/// `{ms} ms` under a finished block, nothing under a pending one.
pub open spec fn elapsed_text(e: HistoryEntry) -> Seq<char> {
    match e.response {
        ResponseKind::Pending => Seq::empty(),
        _ => dec(e.elapsed_ms as nat) + " ms"@,
    }
}

/// The time shown under a block.
pub fn elapsed_label(e: &HistoryEntry) -> (r: String)
    ensures
        r@ == elapsed_text(*e),
{
    let mut v: Vec<char> = Vec::new();
    match e.response {
        ResponseKind::Pending => {},
        _ => {
            push_dec(&mut v, e.elapsed_ms);
            push_str(&mut v, " ms");
        },
    }
    string_of(v.as_slice())
}

} // verus!
