//! The server monitor: `INFO` text split into sections, the sampled memory
//! and throughput figures, `CLIENT LIST` and `SLOWLOG GET` replies, and the
//! big-key ranking.

use vstd::prelude::*;

use crate::cli::RedisValue;
use crate::key_tree::RedisType;
use crate::text::{
    lemma_dec_value, lemma_trim_dec,
    chars_eq_str, chars_of, copy_range, dec, join, join_chars, lines, lines_of, parse_uint,
    parse_uint_chars, push_dec, push_str, split_once, split_once_chars, starts_with,
    starts_with_str, str_views, string_of, trim, trim_chars, trim_end_char, trim_end_char_chars,
    views, words, words_of,
};

verus! {

// ===== INFO sections =====

/// One `# Name` section of an `INFO` reply with its `key:value` lines.
#[derive(Debug)]
pub struct InfoSection {
    pub name: String,
    pub pairs: Vec<(String, String)>,
}

/// A section as plain texts.
pub open spec fn section_view(s: InfoSection) -> (Seq<char>, Seq<(Seq<char>, Seq<char>)>) {
    (s.name@, s.pairs@.map_values(|p: (String, String)| (p.0@, p.1@)))
}

/// Sections finished so far and the one being filled.
pub type InfoState = (Seq<(Seq<char>, Seq<(Seq<char>, Seq<char>)>)>, Option<(Seq<char>, Seq<(Seq<char>, Seq<char>)>)>);

/// A heading line: `# ` and the section name.
pub open spec fn is_heading(l: Seq<char>) -> bool {
    l.len() >= 2 && l[0] == '#' && l[1] == ' '
}

/// One line of `INFO` text: blank lines are skipped, a heading starts a new
/// section named by the trimmed rest, a `key:value` line (split at the first
/// colon) joins the open section; other lines, and lines before the first
/// heading, are ignored.
pub open spec fn info_step(st: InfoState, line: Seq<char>) -> InfoState {
    let l = trim_end_char(line, '\r');
    if l.len() == 0 {
        st
    } else if is_heading(l) {
        let done = match st.1 {
            Some(s) => st.0.push(s),
            None => st.0,
        };
        (done, Some((trim(l.subrange(2, l.len() as int)), Seq::empty())))
    } else {
        match st.1 {
            Some(sec) => match split_once(l, ':') {
                Some((k, v)) => (st.0, Some((sec.0, sec.1.push((k, v))))),
                None => st,
            },
            None => st,
        }
    }
}

/// The state after the lines `ls`.
pub open spec fn info_fold(ls: Seq<Seq<char>>) -> InfoState
    decreases ls.len(),
{
    if ls.len() == 0 {
        (Seq::empty(), None)
    } else {
        info_step(info_fold(ls.drop_last()), ls.last())
    }
}

/// The sections of an `INFO` reply, in order.
pub open spec fn info_sections(text: Seq<char>) -> Seq<(Seq<char>, Seq<(Seq<char>, Seq<char>)>)> {
    let st = info_fold(lines(text));
    match st.1 {
        Some(s) => st.0.push(s),
        None => st.0,
    }
}

/// The sections of a vector, as plain texts.
pub open spec fn sections_view(v: Seq<InfoSection>) -> Seq<(Seq<char>, Seq<(Seq<char>, Seq<char>)>)> {
    v.map_values(|s: InfoSection| section_view(s))
}

/// The open section, as plain texts.
pub open spec fn open_view(c: Option<InfoSection>) -> Option<(Seq<char>, Seq<(Seq<char>, Seq<char>)>)> {
    match c {
        Some(s) => Some(section_view(s)),
        None => None,
    }
}

/// Splits an `INFO` reply into its sections.
pub fn parse_info(text: &str) -> (r: Vec<InfoSection>)
    ensures
        sections_view(r@) == info_sections(text@),
{
    let cs = chars_of(text);
    let ls = lines_of(cs.as_slice());
    let ghost lv = views(ls@);
    let mut sections: Vec<InfoSection> = Vec::new();
    let mut current: Option<InfoSection> = None;
    let mut i: usize = 0;
    proof {
        assert(lv.take(0) =~= Seq::<Seq<char>>::empty());
        assert(sections_view(sections@) =~= Seq::<(Seq<char>, Seq<(Seq<char>, Seq<char>)>)>::empty());
    }
    while i < ls.len()
        invariant
            i <= ls@.len(),
            lv == views(ls@),
            lv == lines(text@),
            (sections_view(sections@), open_view(current)) == info_fold(lv.take(i as int)),
        decreases ls@.len() - i,
    {
        proof {
            assert(lv.take(i + 1).drop_last() =~= lv.take(i as int));
            assert(lv.take(i + 1).last() == ls@[i as int]@);
        }
        let l = trim_end_char_chars(ls[i].as_slice(), '\r');
        if l.len() == 0 {
        } else if l.len() >= 2 && l[0] == '#' && l[1] == ' ' {
            let rest = copy_range(l.as_slice(), 2, l.len());
            let name = trim_chars(rest.as_slice());
            let ghost before = sections@;
            match current {
                Some(s) => {
                    sections.push(s);
                    proof {
                        assert(sections_view(sections@) =~= sections_view(before).push(
                            section_view(s),
                        ));
                    }
                },
                None => {},
            }
            current = Some(InfoSection { name: string_of(name.as_slice()), pairs: Vec::new() });
            proof {
                assert(open_view(current) == Some(
                    (trim(l@.subrange(2, l@.len() as int)), Seq::<(Seq<char>, Seq<char>)>::empty()),
                )) by {
                    assert(rest@ =~= l@.subrange(2, l@.len() as int));
                    let c = current.unwrap();
                    assert(c.pairs@.map_values(|p: (String, String)| (p.0@, p.1@)) =~= Seq::<
                        (Seq<char>, Seq<char>),
                    >::empty());
                }
            }
        } else {
            match current {
                Some(mut sec) => {
                    match split_once_chars(l.as_slice(), ':') {
                        Some((k, v)) => {
                            let ghost old_pairs = sec.pairs@;
                            let ks = string_of(k.as_slice());
                            let vs = string_of(v.as_slice());
                            sec.pairs.push((ks, vs));
                            proof {
                                assert(sec.pairs@.map_values(|p: (String, String)| (p.0@, p.1@))
                                    =~= old_pairs.map_values(|p: (String, String)| (p.0@, p.1@)).push(
                                    (k@, v@),
                                ));
                            }
                        },
                        None => {},
                    }
                    current = Some(sec);
                },
                None => {},
            }
        }
        i += 1;
    }
    proof {
        assert(lv.take(ls@.len() as int) =~= lv);
    }
    match current {
        Some(s) => {
            let ghost before = sections@;
            sections.push(s);
            proof {
                assert(sections_view(sections@) =~= sections_view(before).push(section_view(s)));
            }
        },
        None => {},
    }
    sections
}

// ===== Sampled figures =====

/// One sample of the trend charts.
#[derive(Debug, Clone, Copy, PartialEq, Eq, Structural)]
pub struct MetricSample {
    /// `used_memory`, in bytes.
    pub memory_bytes: u64,
    /// `instantaneous_ops_per_sec`.
    pub qps: u64,
}

/// The value after a `name:` prefix: the trimmed rest as a `u64`, or 0 when
/// it is not one.
pub open spec fn field_value(rest: Seq<char>) -> nat {
    match parse_uint(trim(rest), 0xffff_ffff_ffff_ffff) {
        Some(n) => n,
        None => 0,
    }
}

/// The memory and throughput read from the lines `ls`; the last line with
/// the prefix `used_memory:` or `instantaneous_ops_per_sec:` wins, and 0 where
/// there is none.
pub open spec fn metrics_fold(ls: Seq<Seq<char>>) -> (nat, nat)
    decreases ls.len(),
{
    if ls.len() == 0 {
        (0, 0)
    } else {
        let prev = metrics_fold(ls.drop_last());
        let l = trim_end_char(ls.last(), '\r');
        if starts_with(l, "used_memory:"@) {
            (field_value(l.subrange("used_memory:"@.len() as int, l.len() as int)), prev.1)
        } else if starts_with(l, "instantaneous_ops_per_sec:"@) {
            (prev.0, field_value(l.subrange("instantaneous_ops_per_sec:"@.len() as int, l.len() as int)))
        } else {
            prev
        }
    }
}

/// The memory sample is the number on the last `used_memory:` line: a line
/// `used_memory:{n}` sets it to `n` and keeps the throughput, and every line
/// that does not start with exactly `used_memory:` (such as
/// `used_memory_peak:...`) leaves it as it was. [`parse_metrics`] returns
/// what these lines give.
pub proof fn lemma_memory_from_used_memory_line(ls: Seq<Seq<char>>, n: u64, l: Seq<char>)
    ensures
        metrics_fold(ls.push("used_memory:"@ + dec(n as nat))) == (n as nat, metrics_fold(ls).1),
        !starts_with(trim_end_char(l, '\r'), "used_memory:"@) ==> metrics_fold(ls.push(l)).0
            == metrics_fold(ls).0,
{
    reveal_strlit("used_memory:");
    reveal_strlit("instantaneous_ops_per_sec:");
    let d = dec(n as nat);
    let line = "used_memory:"@ + d;
    lemma_trim_dec(n as nat);
    lemma_dec_value(n as nat);
    assert(ls.push(line).drop_last() =~= ls);
    assert(ls.push(l).drop_last() =~= ls);
    assert(line.last() == d.last());
    assert(trim_end_char(line, '\r') == line);
    assert(line.subrange(0, 12) =~= "used_memory:"@);
    assert(line.subrange(12, line.len() as int) =~= d);
    assert(d[0] != '+');
}

/// The value after the first `k` characters of `l`.
fn value_after(l: &[char], k: usize) -> (r: u64)
    requires
        k <= l@.len(),
    ensures
        r as nat == field_value(l@.subrange(k as int, l@.len() as int)),
{
    let rest = copy_range(l, k, l.len());
    let t = trim_chars(rest.as_slice());
    match parse_uint_chars(t.as_slice(), 0xffff_ffff_ffff_ffff) {
        Some(n) => n,
        None => 0,
    }
}

/// Reads used memory and operations per second from an `INFO` reply.
pub fn parse_metrics(info_text: &str) -> (r: MetricSample)
    ensures
        (r.memory_bytes as nat, r.qps as nat) == metrics_fold(lines(info_text@)),
{
    let cs = chars_of(info_text);
    let ls = lines_of(cs.as_slice());
    let ghost lv = views(ls@);
    let mut memory_bytes: u64 = 0;
    let mut qps: u64 = 0;
    let mut i: usize = 0;
    proof {
        reveal_strlit("used_memory:");
        reveal_strlit("instantaneous_ops_per_sec:");
        assert(lv.take(0) =~= Seq::<Seq<char>>::empty());
    }
    while i < ls.len()
        invariant
            i <= ls@.len(),
            lv == views(ls@),
            "used_memory:"@.len() == 12,
            "instantaneous_ops_per_sec:"@.len() == 26,
            (memory_bytes as nat, qps as nat) == metrics_fold(lv.take(i as int)),
        decreases ls@.len() - i,
    {
        proof {
            assert(lv.take(i + 1).drop_last() =~= lv.take(i as int));
            assert(lv.take(i + 1).last() == ls@[i as int]@);
        }
        let l = trim_end_char_chars(ls[i].as_slice(), '\r');
        if starts_with_str(l.as_slice(), "used_memory:") {
            memory_bytes = value_after(l.as_slice(), 12);
        } else if starts_with_str(l.as_slice(), "instantaneous_ops_per_sec:") {
            qps = value_after(l.as_slice(), 26);
        }
        i += 1;
    }
    proof {
        assert(lv.take(ls@.len() as int) =~= lv);
    }
    MetricSample { memory_bytes, qps }
}

// ===== Trend history =====

/// Samples kept for the trend charts: five minutes at one every five seconds.
pub const SAMPLE_CAP: usize = 60;

/// The latest samples, oldest first, at most [`SAMPLE_CAP`] of them.
#[derive(Debug)]
pub struct MetricsHistory {
    pub samples: Vec<MetricSample>,
}

/// `s` after a sample `x` arrives: the oldest one leaves once the history is full.
pub open spec fn window_push(s: Seq<MetricSample>, x: MetricSample) -> Seq<MetricSample> {
    if s.len() >= SAMPLE_CAP {
        s.drop_first().push(x)
    } else {
        s.push(x)
    }
}

/// The history after the samples `xs` arrive at `s`, in order.
pub open spec fn window_fold(s: Seq<MetricSample>, xs: Seq<MetricSample>) -> Seq<MetricSample>
    decreases xs.len(),
{
    if xs.len() == 0 {
        s
    } else {
        window_push(window_fold(s, xs.drop_last()), xs.last())
    }
}

impl MetricsHistory {
    /// The history is never longer than its capacity.
    pub open spec fn wf(&self) -> bool {
        self.samples@.len() <= SAMPLE_CAP
    }

    /// An empty history.
    pub fn new() -> (r: MetricsHistory)
        ensures
            r.wf(),
            r.samples@.len() == 0,
    {
        MetricsHistory { samples: Vec::new() }
    }

    /// Adds a sample, dropping the oldest one when the history is full.
    pub fn push(&mut self, x: MetricSample)
        requires
            old(self).wf(),
        ensures
            final(self).wf(),
            final(self).samples@ == window_push(old(self).samples@, x),
    {
        if self.samples.len() >= SAMPLE_CAP {
            self.samples.remove(0);
        }
        self.samples.push(x);
        proof {
            if old(self).samples@.len() >= SAMPLE_CAP {
                assert(self.samples@ =~= old(self).samples@.drop_first().push(x));
            }
        }
    }

    /// The highest memory figure, and 1 when there is none above 0 (the
    /// chart scale).
    pub fn memory_scale(&self) -> (r: u64)
        ensures
            r >= 1,
            forall|i: int| 0 <= i < self.samples@.len() ==> self.samples@[i].memory_bytes <= r,
            r == 1 || exists|i: int|
                0 <= i < self.samples@.len() && self.samples@[i].memory_bytes == r,
    {
        let mut m: u64 = 1;
        let mut i: usize = 0;
        while i < self.samples.len()
            invariant
                i <= self.samples@.len(),
                m >= 1,
                forall|j: int| 0 <= j < i ==> self.samples@[j].memory_bytes <= m,
                m == 1 || exists|j: int| 0 <= j < i && self.samples@[j].memory_bytes == m,
            decreases self.samples@.len() - i,
        {
            if self.samples[i].memory_bytes > m {
                m = self.samples[i].memory_bytes;
            }
            i += 1;
        }
        m
    }

    /// The highest throughput figure, and 1 when there is none above 0.
    pub fn qps_scale(&self) -> (r: u64)
        ensures
            r >= 1,
            forall|i: int| 0 <= i < self.samples@.len() ==> self.samples@[i].qps <= r,
            r == 1 || exists|i: int| 0 <= i < self.samples@.len() && self.samples@[i].qps == r,
    {
        let mut m: u64 = 1;
        let mut i: usize = 0;
        while i < self.samples.len()
            invariant
                i <= self.samples@.len(),
                m >= 1,
                forall|j: int| 0 <= j < i ==> self.samples@[j].qps <= m,
                m == 1 || exists|j: int| 0 <= j < i && self.samples@[j].qps == m,
            decreases self.samples@.len() - i,
        {
            if self.samples[i].qps > m {
                m = self.samples[i].qps;
            }
            i += 1;
        }
        m
    }

    /// The newest sample, or zeros when there is none.
    pub fn latest(&self) -> (r: MetricSample)
        ensures
            self.samples@.len() == 0 ==> r == (MetricSample { memory_bytes: 0, qps: 0 }),
            self.samples@.len() > 0 ==> r == self.samples@.last(),
    {
        if self.samples.len() == 0 {
            MetricSample { memory_bytes: 0, qps: 0 }
        } else {
            self.samples[self.samples.len() - 1]
        }
    }
}

/// A history keeps exactly the newest samples: after any samples arrive at
/// an empty history it holds the last [`SAMPLE_CAP`] of them (all of them
/// when fewer arrived), oldest first.
pub proof fn lemma_window_keeps_latest(xs: Seq<MetricSample>)
    ensures
        window_fold(Seq::empty(), xs) == xs.skip(
            if xs.len() > SAMPLE_CAP {
                xs.len() - SAMPLE_CAP
            } else {
                0
            },
        ),
        window_fold(Seq::empty(), xs).len() <= SAMPLE_CAP,
    decreases xs.len(),
{
    if xs.len() == 0 {
        assert(xs.skip(0) =~= xs);
    } else {
        let p = xs.drop_last();
        lemma_window_keeps_latest(p);
        let k: int = if p.len() > SAMPLE_CAP {
            p.len() - SAMPLE_CAP
        } else {
            0
        };
        let w = p.skip(k);
        if w.len() >= SAMPLE_CAP {
            assert(w.drop_first().push(xs.last()) =~= xs.skip(xs.len() - SAMPLE_CAP));
        } else {
            assert(w.push(xs.last()) =~= xs.skip(0));
        }
    }
}

// ===== Clients =====

/// A client of a `CLIENT LIST` reply.
#[derive(Debug)]
pub struct ClientInfo {
    pub id: u64,
    pub addr: String,
    pub name: String,
    pub age_sec: u64,
    pub idle_sec: u64,
    pub cmd: String,
    pub db: u32,
}

/// A client as plain values: `(id, addr, name, age, idle, cmd, db)`.
pub type ClientFields = (nat, Seq<char>, Seq<char>, nat, nat, Seq<char>, nat);

/// A client record as plain values.
pub open spec fn client_view(c: ClientInfo) -> ClientFields {
    (c.id as nat, c.addr@, c.name@, c.age_sec as nat, c.idle_sec as nat, c.cmd@, c.db as nat)
}

/// A number field: the value as an integer no larger than `max`, else 0.
pub open spec fn uint_or_zero(v: Seq<char>, max: nat) -> nat {
    match parse_uint(v, max) {
        Some(n) => n,
        None => 0,
    }
}

/// A client after one `key=value` word (split at the first `=`); other
/// words and unknown keys change nothing.
pub open spec fn client_step(c: ClientFields, w: Seq<char>) -> ClientFields {
    match split_once(w, '=') {
        None => c,
        Some((k, v)) => if k == "id"@ {
            (uint_or_zero(v, 0xffff_ffff_ffff_ffff), c.1, c.2, c.3, c.4, c.5, c.6)
        } else if k == "addr"@ {
            (c.0, v, c.2, c.3, c.4, c.5, c.6)
        } else if k == "name"@ {
            (c.0, c.1, v, c.3, c.4, c.5, c.6)
        } else if k == "age"@ {
            (c.0, c.1, c.2, uint_or_zero(v, 0xffff_ffff_ffff_ffff), c.4, c.5, c.6)
        } else if k == "idle"@ {
            (c.0, c.1, c.2, c.3, uint_or_zero(v, 0xffff_ffff_ffff_ffff), c.5, c.6)
        } else if k == "cmd"@ {
            (c.0, c.1, c.2, c.3, c.4, v, c.6)
        } else if k == "db"@ {
            (c.0, c.1, c.2, c.3, c.4, c.5, uint_or_zero(v, 0xffff_ffff))
        } else {
            c
        },
    }
}

/// The client read from the words `ws`, starting from zeros and empty texts.
pub open spec fn client_fold(ws: Seq<Seq<char>>) -> ClientFields
    decreases ws.len(),
{
    if ws.len() == 0 {
        (0, Seq::empty(), Seq::empty(), 0, 0, Seq::empty(), 0)
    } else {
        client_step(client_fold(ws.drop_last()), ws.last())
    }
}

/// The clients of the lines `ls`: one per line whose id is above 0.
pub open spec fn clients_fold(ls: Seq<Seq<char>>) -> Seq<ClientFields>
    decreases ls.len(),
{
    if ls.len() == 0 {
        Seq::empty()
    } else {
        let r = clients_fold(ls.drop_last());
        let c = client_fold(words(ls.last()));
        if c.0 > 0 {
            r.push(c)
        } else {
            r
        }
    }
}

/// Reads one line of `CLIENT LIST`.
fn client_of_line(line: &[char]) -> (r: ClientInfo)
    ensures
        client_view(r) == client_fold(words(line@)),
{
    let ws = words_of(line);
    let ghost wv = views(ws@);
    let mut c = ClientInfo {
        id: 0,
        addr: String::new(),
        name: String::new(),
        age_sec: 0,
        idle_sec: 0,
        cmd: String::new(),
        db: 0,
    };
    let mut i: usize = 0;
    proof {
        assert(wv.take(0) =~= Seq::<Seq<char>>::empty());
        assert(client_view(c) == client_fold(wv.take(0)));
    }
    while i < ws.len()
        invariant
            i <= ws@.len(),
            wv == views(ws@),
            wv == words(line@),
            client_view(c) == client_fold(wv.take(i as int)),
        decreases ws@.len() - i,
    {
        proof {
            assert(wv.take(i + 1).drop_last() =~= wv.take(i as int));
            assert(wv.take(i + 1).last() == ws@[i as int]@);
        }
        match split_once_chars(ws[i].as_slice(), '=') {
            None => {},
            Some((k, v)) => {
                let kk = k.as_slice();
                if chars_eq_str(kk, "id") {
                    c.id = match parse_uint_chars(v.as_slice(), 0xffff_ffff_ffff_ffff) {
                        Some(n) => n,
                        None => 0,
                    };
                } else if chars_eq_str(kk, "addr") {
                    c.addr = string_of(v.as_slice());
                } else if chars_eq_str(kk, "name") {
                    c.name = string_of(v.as_slice());
                } else if chars_eq_str(kk, "age") {
                    c.age_sec = match parse_uint_chars(v.as_slice(), 0xffff_ffff_ffff_ffff) {
                        Some(n) => n,
                        None => 0,
                    };
                } else if chars_eq_str(kk, "idle") {
                    c.idle_sec = match parse_uint_chars(v.as_slice(), 0xffff_ffff_ffff_ffff) {
                        Some(n) => n,
                        None => 0,
                    };
                } else if chars_eq_str(kk, "cmd") {
                    c.cmd = string_of(v.as_slice());
                } else if chars_eq_str(kk, "db") {
                    c.db = match parse_uint_chars(v.as_slice(), 0xffff_ffff) {
                        Some(n) => n as u32,
                        None => 0,
                    };
                }
            },
        }
        i += 1;
    }
    proof {
        assert(wv.take(ws@.len() as int) =~= wv);
    }
    c
}

/// The clients of a `CLIENT LIST` reply: one per line with an id above 0.
pub fn parse_clients(text: &str) -> (r: Vec<ClientInfo>)
    ensures
        r@.map_values(|c: ClientInfo| client_view(c)) == clients_fold(lines(text@)),
{
    let cs = chars_of(text);
    let ls = lines_of(cs.as_slice());
    let ghost lv = views(ls@);
    let mut out: Vec<ClientInfo> = Vec::new();
    let mut i: usize = 0;
    proof {
        assert(lv.take(0) =~= Seq::<Seq<char>>::empty());
        assert(out@.map_values(|c: ClientInfo| client_view(c)) =~= Seq::<ClientFields>::empty());
    }
    while i < ls.len()
        invariant
            i <= ls@.len(),
            lv == views(ls@),
            out@.map_values(|c: ClientInfo| client_view(c)) == clients_fold(lv.take(i as int)),
        decreases ls@.len() - i,
    {
        proof {
            assert(lv.take(i + 1).drop_last() =~= lv.take(i as int));
            assert(lv.take(i + 1).last() == ls@[i as int]@);
        }
        let c = client_of_line(ls[i].as_slice());
        if c.id > 0 {
            let ghost before = out@;
            let ghost cv = client_view(c);
            out.push(c);
            proof {
                assert(out@.map_values(|c: ClientInfo| client_view(c)) =~= before.map_values(
                    |c: ClientInfo| client_view(c),
                ).push(cv));
            }
        }
        i += 1;
    }
    proof {
        assert(lv.take(ls@.len() as int) =~= lv);
    }
    out
}

/// The command that disconnects client `id`.
pub fn kill_client_argv(id: u64) -> (r: Vec<String>)
    ensures
        str_views(r@) == seq!["CLIENT"@, "KILL"@, "ID"@, dec(id as nat)],
{
    let mut d: Vec<char> = Vec::new();
    push_dec(&mut d, id);
    let mut v: Vec<String> = Vec::new();
    v.push(String::from_str("CLIENT"));
    v.push(String::from_str("KILL"));
    v.push(String::from_str("ID"));
    v.push(string_of(d.as_slice()));
    proof {
        assert(str_views(v@) =~= seq!["CLIENT"@, "KILL"@, "ID"@, dec(id as nat)]);
    }
    v
}

/// Drops client `id` from the list after it was disconnected; the others
/// keep their order.
pub fn forget_client(clients: &mut Vec<ClientInfo>, id: u64)
    ensures
        final(clients)@ == old(clients)@.filter(|c: ClientInfo| c.id != id),
{
    let ghost orig = clients@;
    let mut kept: Vec<ClientInfo> = Vec::new();
    let mut rest: Vec<ClientInfo> = Vec::new();
    std::mem::swap(&mut rest, clients);
    assert(rest@ == orig);
    let total = rest.len();
    assert(orig.len() == total);
    let mut i: usize = 0;
    proof {
        assert(orig.take(0) =~= Seq::<ClientInfo>::empty());
        assert(orig.take(0).filter(|c: ClientInfo| c.id != id) =~= Seq::<ClientInfo>::empty());
    }
    while rest.len() > 0
        invariant
            i + rest@.len() == orig.len(),
            orig.len() <= usize::MAX,
            rest@ == orig.skip(i as int),
            kept@ == orig.take(i as int).filter(|c: ClientInfo| c.id != id),
        decreases rest@.len(),
    {
        let c = rest.remove(0);
        proof {
            assert(c == orig[i as int]);
            assert(orig.take(i + 1).drop_last() =~= orig.take(i as int));
            assert(rest@ =~= orig.skip(i + 1));
            reveal(Seq::filter);
            assert(orig.take(i + 1) =~= orig.take(i as int).push(c));
            assert(orig.take(i + 1).last() == c);
        }
        if c.id != id {
            kept.push(c);
        }
        i += 1;
    }
    proof {
        assert(orig.take(i as int) =~= orig);
    }
    *clients = kept;
}

// ===== Slow log =====

/// One field of a `SLOWLOG GET` entry as the panel reads it.
#[derive(Debug)]
pub enum SlowField {
    /// An integer, with the preview text of the value.
    Int(i64, String),
    /// An array: the preview of each item.
    Array(Vec<String>),
    /// Any other value: its preview text.
    Scalar(String),
}

/// One entry of a `SLOWLOG GET` reply.
#[derive(Debug)]
pub enum SlowlogItem {
    /// An array entry with its fields.
    Fields(Vec<SlowField>),
    /// Anything else.
    NotArray,
}

/// A `SLOWLOG GET` reply.
#[derive(Debug)]
pub enum SlowlogReply {
    /// An array reply with its entries.
    Entries(Vec<SlowlogItem>),
    /// Anything else.
    NotArray,
}

/// A slow log entry.
#[derive(Debug)]
pub struct SlowEntry {
    pub id: i64,
    pub timestamp: i64,
    pub duration_us: i64,
    pub command: String,
}

/// An integer field, or 0.
pub open spec fn slow_int(f: SlowField) -> i64 {
    match f {
        SlowField::Int(i, _) => i,
        _ => 0,
    }
}

/// The command field: array items joined by spaces, else the preview.
pub open spec fn slow_command(f: SlowField) -> Seq<char> {
    match f {
        SlowField::Array(items) => join(str_views(items@), ' '),
        SlowField::Int(_, p) => p@,
        SlowField::Scalar(p) => p@,
    }
}

/// The entries of a reply: each array entry of four fields or more gives
/// `(id, timestamp, duration, command)`; other entries are skipped.
pub open spec fn slowlog_fold(items: Seq<SlowlogItem>) -> Seq<(i64, i64, i64, Seq<char>)>
    decreases items.len(),
{
    if items.len() == 0 {
        Seq::empty()
    } else {
        let r = slowlog_fold(items.drop_last());
        match items.last() {
            SlowlogItem::Fields(p) => if p@.len() < 4 {
                r
            } else {
                r.push((slow_int(p@[0]), slow_int(p@[1]), slow_int(p@[2]), slow_command(p@[3])))
            },
            SlowlogItem::NotArray => r,
        }
    }
}

/// The entries of a `SLOWLOG GET` reply; nothing unless it is an array.
pub open spec fn slowlog_entries(v: SlowlogReply) -> Seq<(i64, i64, i64, Seq<char>)> {
    match v {
        SlowlogReply::Entries(items) => slowlog_fold(items@),
        SlowlogReply::NotArray => Seq::empty(),
    }
}

/// A slow log entry as plain values.
pub open spec fn slow_view(e: SlowEntry) -> (i64, i64, i64, Seq<char>) {
    (e.id, e.timestamp, e.duration_us, e.command@)
}

/// The integer of a field, or 0.
fn field_int(f: &SlowField) -> (r: i64)
    ensures
        r == slow_int(*f),
{
    match f {
        SlowField::Int(i, _) => *i,
        _ => 0,
    }
}

/// The command text of a field.
fn field_command(f: &SlowField) -> (r: String)
    ensures
        r@ == slow_command(*f),
{
    match f {
        SlowField::Array(items) => {
            let mut parts: Vec<Vec<char>> = Vec::new();
            let mut i: usize = 0;
            while i < items.len()
                invariant
                    i <= items@.len(),
                    views(parts@) == str_views(items@).take(i as int),
                decreases items@.len() - i,
            {
                let c = chars_of(items[i].as_str());
                let ghost before = parts@;
                parts.push(c);
                proof {
                    assert(views(parts@) =~= views(before).push(c@));
                    assert(str_views(items@).take(i + 1) =~= str_views(items@).take(i as int).push(
                        items@[i as int]@,
                    ));
                }
                i += 1;
            }
            proof {
                assert(str_views(items@).take(items@.len() as int) =~= str_views(items@));
            }
            let j = join_chars(&parts, ' ');
            string_of(j.as_slice())
        },
        SlowField::Int(_, p) => p.clone(),
        SlowField::Scalar(p) => p.clone(),
    }
}

/// The entries of a `SLOWLOG GET` reply.
pub fn parse_slowlog(v: &SlowlogReply) -> (r: Vec<SlowEntry>)
    ensures
        r@.map_values(|e: SlowEntry| slow_view(e)) == slowlog_entries(*v),
{
    let mut out: Vec<SlowEntry> = Vec::new();
    let items = match v {
        SlowlogReply::Entries(a) => a,
        SlowlogReply::NotArray => {
            proof {
                assert(out@.map_values(|e: SlowEntry| slow_view(e)) =~= Seq::<
                    (i64, i64, i64, Seq<char>),
                >::empty());
            }
            return out;
        },
    };
    let mut i: usize = 0;
    proof {
        assert(items@.take(0) =~= Seq::<SlowlogItem>::empty());
        assert(out@.map_values(|e: SlowEntry| slow_view(e)) =~= Seq::<(i64, i64, i64, Seq<char>)>::empty());
    }
    while i < items.len()
        invariant
            i <= items@.len(),
            out@.map_values(|e: SlowEntry| slow_view(e)) == slowlog_fold(items@.take(i as int)),
        decreases items@.len() - i,
    {
        proof {
            assert(items@.take(i + 1).drop_last() =~= items@.take(i as int));
            assert(items@.take(i + 1).last() == items@[i as int]);
        }
        match &items[i] {
            SlowlogItem::Fields(p) => {
                if p.len() >= 4 {
                    let e = SlowEntry {
                        id: field_int(&p[0]),
                        timestamp: field_int(&p[1]),
                        duration_us: field_int(&p[2]),
                        command: field_command(&p[3]),
                    };
                    let ghost before = out@;
                    let ghost ev = slow_view(e);
                    out.push(e);
                    proof {
                        assert(out@.map_values(|e: SlowEntry| slow_view(e)) =~= before.map_values(
                            |e: SlowEntry| slow_view(e),
                        ).push(ev));
                    }
                }
            },
            SlowlogItem::NotArray => {},
        }
        i += 1;
    }
    proof {
        assert(items@.take(items@.len() as int) =~= items@);
    }
    out
}

// ===== Big keys =====

/// A key with its memory use, as the big-key scan ranks it.
#[derive(Debug)]
pub struct BigKeyResult {
    pub key: String,
    pub key_type: RedisType,
    pub size_bytes: u64,
}

/// The size a `MEMORY USAGE` reply gives: a non-negative integer, else none
/// (the key expired, or the server lacks the command).
pub open spec fn usage_bytes(v: RedisValue) -> Option<u64> {
    match v {
        RedisValue::Int(n) => if n >= 0 {
            Some(n as u64)
        } else {
            None
        },
        _ => None,
    }
}

/// The size of a key from its `MEMORY USAGE` reply.
pub fn memory_usage(v: &RedisValue) -> (r: Option<u64>)
    ensures
        r == usage_bytes(*v),
{
    match v {
        RedisValue::Int(n) => if *n >= 0 {
            Some(*n as u64)
        } else {
            None
        },
        _ => None,
    }
}

/// Progress is shown after every fiftieth key.
pub open spec fn progress_due_at(scanned: nat) -> bool {
    scanned % 50 == 0
}

/// Whether the progress is shown after `scanned` keys.
pub fn progress_due(scanned: usize) -> (r: bool)
    ensures
        r == progress_due_at(scanned as nat),
{
    scanned % 50 == 0
}

/// Where a result of size `x` goes in a ranking: after every leading entry
/// at least as large.
pub open spec fn rank_pos(s: Seq<BigKeyResult>, x: u64) -> int
    decreases s.len(),
{
    if s.len() == 0 {
        0
    } else if s[0].size_bytes >= x {
        1 + rank_pos(s.drop_first(), x)
    } else {
        0
    }
}

/// The results ranked by size, largest first; equal sizes keep the order in
/// which they came (a stable sort).
pub open spec fn rank(s: Seq<BigKeyResult>) -> Seq<BigKeyResult>
    decreases s.len(),
{
    if s.len() == 0 {
        Seq::empty()
    } else {
        let r = rank(s.drop_last());
        r.insert(rank_pos(r, s.last().size_bytes), s.last())
    }
}

/// `rank_pos` is the first index whose size is below `x`.
pub proof fn lemma_rank_pos(s: Seq<BigKeyResult>, x: u64, p: int)
    requires
        0 <= p <= s.len(),
        forall|j: int| 0 <= j < p ==> s[j].size_bytes >= x,
        p == s.len() || s[p].size_bytes < x,
    ensures
        rank_pos(s, x) == p,
    decreases p,
{
    if p > 0 {
        let t = s.drop_first();
        assert forall|j: int| 0 <= j < p - 1 implies t[j].size_bytes >= x by {
            assert(t[j] == s[j + 1]);
        }
        lemma_rank_pos(t, x, p - 1);
    }
}

/// `rank_pos` stays within the sequence.
pub proof fn lemma_rank_pos_bounds(s: Seq<BigKeyResult>, x: u64)
    ensures
        0 <= rank_pos(s, x) <= s.len(),
        forall|j: int| 0 <= j < rank_pos(s, x) ==> s[j].size_bytes >= x,
        rank_pos(s, x) < s.len() ==> s[rank_pos(s, x)].size_bytes < x,
    decreases s.len(),
{
    if s.len() > 0 && s[0].size_bytes >= x {
        let t = s.drop_first();
        lemma_rank_pos_bounds(t, x);
        assert forall|j: int| 0 <= j < rank_pos(s, x) implies s[j].size_bytes >= x by {
            if j > 0 {
                assert(s[j] == t[j - 1]);
            }
        }
    }
}

/// Ranks the scanned keys by size, largest first, keeping the scan order
/// among equal sizes.
pub fn rank_bigkeys(results: Vec<BigKeyResult>) -> (r: Vec<BigKeyResult>)
    ensures
        r@ == rank(results@),
{
    let ghost orig = results@;
    let mut rest = results;
    let mut out: Vec<BigKeyResult> = Vec::new();
    let total = rest.len();
    let mut i: usize = 0;
    proof {
        assert(orig.take(0) =~= Seq::<BigKeyResult>::empty());
    }
    while rest.len() > 0
        invariant
            i + rest@.len() == orig.len(),
            orig.len() == total,
            rest@ == orig.skip(i as int),
            out@ == rank(orig.take(i as int)),
            out@.len() == i,
        decreases rest@.len(),
    {
        let e = rest.remove(0);
        proof {
            assert(e == orig[i as int]);
            assert(orig.take(i + 1).drop_last() =~= orig.take(i as int));
            assert(orig.take(i + 1).last() == e);
            assert(rest@ =~= orig.skip(i + 1));
        }
        let x = e.size_bytes;
        let mut p: usize = 0;
        while p < out.len() && out[p].size_bytes >= x
            invariant
                p <= out@.len(),
                forall|j: int| 0 <= j < p ==> out@[j].size_bytes >= x,
            decreases out@.len() - p,
        {
            p += 1;
        }
        proof {
            lemma_rank_pos(out@, x, p as int);
        }
        out.insert(p, e);
        i += 1;
    }
    proof {
        assert(orig.take(i as int) =~= orig);
    }
    out
}

/// A ranking is ordered by size, largest first, and holds exactly the
/// results it was made from.
pub proof fn lemma_rank_sorted_perm(s: Seq<BigKeyResult>)
    ensures
        forall|i: int, j: int|
            0 <= i < j < rank(s).len() ==> rank(s)[i].size_bytes >= rank(s)[j].size_bytes,
        rank(s).to_multiset() == s.to_multiset(),
    decreases s.len(),
{
    if s.len() > 0 {
        let t = s.drop_last();
        lemma_rank_sorted_perm(t);
        let r = rank(t);
        let x = s.last();
        lemma_rank_pos_bounds(r, x.size_bytes);
        let p = rank_pos(r, x.size_bytes);
        let n = r.insert(p, x);
        assert forall|i: int, j: int| 0 <= i < j < n.len() implies n[i].size_bytes >= n[j].size_bytes by {
            if j < p {
                assert(n[i] == r[i] && n[j] == r[j]);
            } else if j == p {
                assert(n[j] == x);
                assert(n[i] == r[i]);
            } else if i < p {
                assert(n[i] == r[i]);
                assert(n[j] == r[j - 1]);
                if j - 1 >= p {
                    assert(r[p].size_bytes < x.size_bytes);
                }
            } else if i == p {
                assert(n[i] == x);
                assert(n[j] == r[j - 1]);
                assert(r[p].size_bytes < x.size_bytes);
                assert(r[p].size_bytes >= r[j - 1].size_bytes);
            } else {
                assert(n[i] == r[i - 1] && n[j] == r[j - 1]);
            }
        }
        assert(n =~= r.take(p) + seq![x] + r.skip(p));
        assert(r =~= r.take(p) + r.skip(p));
        vstd::seq_lib::lemma_multiset_commutative(r.take(p), r.skip(p));
        vstd::seq_lib::lemma_multiset_commutative(r.take(p) + seq![x], r.skip(p));
        vstd::seq_lib::lemma_multiset_commutative(r.take(p), seq![x]);
        assert(s =~= t.push(x));
        t.to_multiset_ensures();
        assert(seq![x].to_multiset() =~= vstd::multiset::Multiset::empty().insert(x)) by {
            assert(seq![x] =~= Seq::<BigKeyResult>::empty().push(x));
            Seq::<BigKeyResult>::empty().to_multiset_ensures();
        }
        assert(n.to_multiset() =~= s.to_multiset());
        assert(rank(s) == n);
    } else {
        assert(rank(s) =~= s);
    }
}

// ===== The big-key scan =====

/// Keys listed for a big-key scan, at most.
pub const BIGKEY_SCAN_LIMIT: usize = 5000;

/// The result a measured key gives: its size where `MEMORY USAGE` answered
/// with one, with its type (`Missing` where `TYPE` failed); none otherwise.
pub open spec fn measured(key: String, usage: RedisValue, key_type: Option<RedisType>) -> Option<
    BigKeyResult,
> {
    match usage_bytes(usage) {
        Some(n) => Some(
            BigKeyResult {
                key,
                key_type: match key_type {
                    Some(t) => t,
                    None => RedisType::Missing,
                },
                size_bytes: n,
            },
        ),
        None => None,
    }
}

/// The state of the big-key scan of a monitor panel.
#[derive(Debug)]
pub struct BigKeyScan {
    /// A scan is running.
    pub scanning: bool,
    /// Keys measured so far and keys listed, once known.
    pub progress: Option<(usize, Option<usize>)>,
    /// The ranking on show.
    pub results: Vec<BigKeyResult>,
    /// The results of the running scan, in the order the keys were listed.
    pub pending: Vec<BigKeyResult>,
    /// Keys listed by the running scan.
    pub total: usize,
    /// Keys measured by the running scan.
    pub measured_count: usize,
    /// Why the scan failed.
    pub error: Option<String>,
}

impl BigKeyScan {
    /// No scan yet, nothing ranked.
    pub fn new() -> (r: BigKeyScan)
        ensures
            !r.scanning,
            r.progress is None,
            r.results@.len() == 0,
            r.pending@.len() == 0,
            r.total == 0,
            r.measured_count == 0,
            r.error is None,
    {
        BigKeyScan {
            scanning: false,
            progress: None,
            results: Vec::new(),
            pending: Vec::new(),
            total: 0,
            measured_count: 0,
            error: None,
        }
    }

    /// The scan button: does nothing while a scan runs (returns `false`);
    /// otherwise starts one, clearing the ranking, and returns `true` (the
    /// caller then lists up to [`BIGKEY_SCAN_LIMIT`] keys of database 0).
    pub fn start(&mut self) -> (started: bool)
        ensures
            started == !old(self).scanning,
            !started ==> *final(self) == *old(self),
            started ==> {
                &&& final(self).scanning
                &&& final(self).progress == Some((0usize, None::<usize>))
                &&& final(self).results@.len() == 0
                &&& final(self).pending@.len() == 0
                &&& final(self).total == 0
                &&& final(self).measured_count == 0
                &&& final(self).error == old(self).error
            },
    {
        if self.scanning {
            return false;
        }
        self.scanning = true;
        self.results = Vec::new();
        self.pending = Vec::new();
        self.progress = Some((0, None));
        self.total = 0;
        self.measured_count = 0;
        true
    }

    /// The key listing came back: on success the progress shows the number of
    /// keys; on failure the scan stops with `BigKey 扫描失败：` and the error.
    pub fn keys_listed(&mut self, listed: Result<usize, String>)
        ensures
            match listed {
                Ok(n) => {
                    &&& final(self).progress == Some((0usize, Some(n)))
                    &&& final(self).total == n
                    &&& final(self).scanning == old(self).scanning
                    &&& final(self).error == old(self).error
                },
                Err(e) => {
                    &&& !final(self).scanning
                    &&& final(self).error matches Some(m) && m@ == "BigKey 扫描失败："@ + e@
                    &&& final(self).progress == old(self).progress
                    &&& final(self).total == old(self).total
                },
            },
            final(self).results == old(self).results,
            final(self).pending == old(self).pending,
            final(self).measured_count == old(self).measured_count,
    {
        match listed {
            Ok(n) => {
                self.progress = Some((0, Some(n)));
                self.total = n;
            },
            Err(e) => {
                self.scanning = false;
                let mut v: Vec<char> = Vec::new();
                push_str(&mut v, "BigKey 扫描失败：");
                push_str(&mut v, e.as_str());
                self.error = Some(string_of(v.as_slice()));
            },
        }
    }

    /// One listed key was measured (`usage` is the `MEMORY USAGE` reply,
    /// `key_type` the `TYPE` reply where it came): a key with a size joins
    /// the results, and after every fiftieth key counted so far the progress
    /// is shown, when that key gave a result.
    pub fn key_measured(&mut self, key: String, usage: &RedisValue, key_type: Option<RedisType>)
        requires
            old(self).measured_count < usize::MAX,
        ensures
            final(self).measured_count == old(self).measured_count + 1,
            match measured(key, *usage, key_type) {
                Some(b) => {
                    &&& final(self).pending@ == old(self).pending@.push(b)
                    &&& final(self).progress == if progress_due_at(final(self).measured_count as nat) {
                        Some((final(self).measured_count, Some(old(self).total)))
                    } else {
                        old(self).progress
                    }
                },
                None => {
                    &&& final(self).pending@ == old(self).pending@
                    &&& final(self).progress == old(self).progress
                },
            },
            final(self).scanning == old(self).scanning,
            final(self).results == old(self).results,
            final(self).total == old(self).total,
            final(self).error == old(self).error,
    {
        self.measured_count = self.measured_count + 1;
        let n = match memory_usage(usage) {
            Some(n) => n,
            None => return,
        };
        let t = match key_type {
            Some(t) => t,
            None => RedisType::Missing,
        };
        self.pending.push(BigKeyResult { key, key_type: t, size_bytes: n });
        if progress_due(self.measured_count) {
            self.progress = Some((self.measured_count, Some(self.total)));
        }
    }

    /// Every listed key was measured: the results are ranked (largest first,
    /// ties in listing order), the progress shows all keys, the scan ends.
    pub fn finished(&mut self)
        ensures
            final(self).results@ == rank(old(self).pending@),
            final(self).pending@.len() == 0,
            final(self).progress == Some((old(self).total, Some(old(self).total))),
            !final(self).scanning,
            final(self).total == old(self).total,
            final(self).measured_count == old(self).measured_count,
            final(self).error == old(self).error,
    {
        let mut p: Vec<BigKeyResult> = Vec::new();
        std::mem::swap(&mut p, &mut self.pending);
        self.results = rank_bigkeys(p);
        self.progress = Some((self.total, Some(self.total)));
        self.scanning = false;
    }
}

// ===== Views =====

/// The monitor page on show.
#[derive(Debug, Clone, Copy, PartialEq, Eq, Structural)]
pub enum MonitorView {
    /// An `INFO` section, by index.
    InfoSection(usize),
    SlowLog,
    Latency,
    BigKey,
    Clients,
}

/// What a page loads when it is opened.
#[derive(Debug, Clone, Copy, PartialEq, Eq, Structural)]
pub enum MonitorLoad {
    /// Nothing: an `INFO` page is loaded already, the big-key scan is started by hand.
    Nothing,
    SlowLog,
    Latency,
    Clients,
}

/// The load that opening `view` starts.
pub fn load_on_select(view: MonitorView) -> (r: MonitorLoad)
    ensures
        r == match view {
            MonitorView::SlowLog => MonitorLoad::SlowLog,
            MonitorView::Latency => MonitorLoad::Latency,
            MonitorView::Clients => MonitorLoad::Clients,
            _ => MonitorLoad::Nothing,
        },
{
    match view {
        MonitorView::SlowLog => MonitorLoad::SlowLog,
        MonitorView::Latency => MonitorLoad::Latency,
        MonitorView::Clients => MonitorLoad::Clients,
        _ => MonitorLoad::Nothing,
    }
}

/// The page after the section `idx` is picked: only an existing section is shown.
pub fn select_section(current: MonitorView, idx: usize, n_sections: usize) -> (r: MonitorView)
    ensures
        r == if idx < n_sections {
            MonitorView::InfoSection(idx)
        } else {
            current
        },
{
    if idx < n_sections {
        MonitorView::InfoSection(idx)
    } else {
        current
    }
}

} // verus!
