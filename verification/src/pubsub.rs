//! The Pub/Sub panel: channel and pattern lists typed as comma-separated
//! text, the subscription state, and the bounded list of received messages.

use chrono::TimeZone as _;
use vstd::prelude::*;

use crate::text::{
    chars_of, dec, dec_int, push_dec_i64, push_str, split_chars, split_on, str_views, string_of,
    trim, trim_chars, views,
};

verus! {

/// Messages kept on screen; older ones are dropped.
pub const MAX_MESSAGES: usize = 200;

/// The names in a comma-separated list, trimmed, empty ones left out.
pub open spec fn csv_items(ps: Seq<Seq<char>>) -> Seq<Seq<char>>
    decreases ps.len(),
{
    if ps.len() == 0 {
        Seq::empty()
    } else {
        let r = csv_items(ps.drop_last());
        let t = trim(ps.last());
        if t.len() == 0 {
            r
        } else {
            r.push(t)
        }
    }
}

/// Splits a comma-separated list of channels or patterns.
pub fn parse_csv(text: &str) -> (r: Vec<String>)
    ensures
        str_views(r@) == csv_items(split_on(text@, ',')),
{
    let cs = chars_of(text);
    let ps = split_chars(cs.as_slice(), ',');
    let ghost pv = views(ps@);
    let mut out: Vec<String> = Vec::new();
    let mut i: usize = 0;
    proof {
        assert(pv.take(0) =~= Seq::<Seq<char>>::empty());
        assert(str_views(out@) =~= Seq::<Seq<char>>::empty());
    }
    while i < ps.len()
        invariant
            i <= ps@.len(),
            pv == views(ps@),
            str_views(out@) == csv_items(pv.take(i as int)),
        decreases ps@.len() - i,
    {
        proof {
            assert(pv.take(i + 1).drop_last() =~= pv.take(i as int));
            assert(pv.take(i + 1).last() == ps@[i as int]@);
        }
        let t = trim_chars(ps[i].as_slice());
        if t.len() > 0 {
            let s = string_of(t.as_slice());
            let ghost before = out@;
            out.push(s);
            proof {
                assert(str_views(out@) =~= str_views(before).push(s@));
            }
        }
        i += 1;
    }
    proof {
        assert(pv.take(ps@.len() as int) =~= pv);
    }
    out
}

/// A received message.
#[derive(Debug)]
pub struct PubSubMessage {
    pub channel: String,
    /// The pattern it matched, for a pattern subscription.
    pub pattern: Option<String>,
    pub payload: String,
    /// Arrival time, milliseconds since the Unix epoch.
    pub received_at_ms: i64,
}

/// The channels and patterns of the live subscription.
#[derive(Debug)]
pub struct SubscriptionDesc {
    pub channels: Vec<String>,
    pub patterns: Vec<String>,
}

/// The state of a Pub/Sub panel.
#[derive(Debug)]
pub struct PubSubState {
    /// The live subscription, if any.
    pub active: Option<SubscriptionDesc>,
    /// Received messages, oldest first.
    pub messages: Vec<PubSubMessage>,
    /// The status or error line.
    pub status: Option<String>,
    /// A subscription is being set up.
    pub subscribing: bool,
}

/// The status line is `m`.
pub open spec fn text_is(s: Option<String>, m: Seq<char>) -> bool {
    s matches Some(x) && x@ == m
}

/// The messages after `m` arrives: the oldest leaves when the list is full.
pub open spec fn messages_push(s: Seq<PubSubMessage>, m: PubSubMessage) -> Seq<PubSubMessage> {
    if s.len() >= MAX_MESSAGES {
        s.drop_first().push(m)
    } else {
        s.push(m)
    }
}

/// The messages after each of `ms` arrives in turn, starting from `s`.
pub open spec fn messages_fold(s: Seq<PubSubMessage>, ms: Seq<PubSubMessage>) -> Seq<
    PubSubMessage,
>
    decreases ms.len(),
{
    if ms.len() == 0 {
        s
    } else {
        messages_push(messages_fold(s, ms.drop_last()), ms.last())
    }
}

/// The message list keeps exactly the newest messages: after any messages
/// arrive at an empty list it holds the last [`MAX_MESSAGES`] of them (all of
/// them when fewer arrived), in the order they arrived.
pub proof fn lemma_messages_keep_latest(ms: Seq<PubSubMessage>)
    ensures
        messages_fold(Seq::empty(), ms) == ms.skip(
            if ms.len() > MAX_MESSAGES {
                ms.len() - MAX_MESSAGES
            } else {
                0
            },
        ),
        messages_fold(Seq::empty(), ms).len() <= MAX_MESSAGES,
    decreases ms.len(),
{
    if ms.len() == 0 {
        assert(ms.skip(0) =~= ms);
    } else {
        let p = ms.drop_last();
        lemma_messages_keep_latest(p);
        let k: int = if p.len() > MAX_MESSAGES {
            p.len() - MAX_MESSAGES
        } else {
            0
        };
        let w = p.skip(k);
        if w.len() >= MAX_MESSAGES {
            assert(w.drop_first().push(ms.last()) =~= ms.skip(ms.len() - MAX_MESSAGES));
        } else {
            assert(w.push(ms.last()) =~= ms.skip(0));
        }
    }
}

/// `prefix` followed by `e`.
fn prefixed(prefix: &str, e: &str) -> (r: String)
    ensures
        r@ == prefix@ + e@,
{
    let mut v: Vec<char> = Vec::new();
    push_str(&mut v, prefix);
    push_str(&mut v, e);
    string_of(v.as_slice())
}

impl PubSubState {
    /// At most [`MAX_MESSAGES`] messages are kept.
    pub open spec fn wf(&self) -> bool {
        self.messages@.len() <= MAX_MESSAGES
    }

    /// Not subscribed, no messages, no status.
    pub fn new() -> (r: PubSubState)
        ensures
            r.wf(),
            r.active is None,
            r.messages@.len() == 0,
            r.status is None,
            !r.subscribing,
    {
        PubSubState { active: None, messages: Vec::new(), status: None, subscribing: false }
    }

    /// A click on "subscribe" with the two lists as typed: returns the
    /// channels and patterns to subscribe to, or nothing when a subscription
    /// is being set up already or both lists are empty (then the status says so).
    pub fn request_subscribe(&mut self, channels_text: &str, patterns_text: &str) -> (r: Option<
        (Vec<String>, Vec<String>),
    >)
        requires
            old(self).wf(),
        ensures
            final(self).wf(),
            final(self).messages@ == old(self).messages@,
            final(self).active == old(self).active,
            old(self).subscribing ==> r is None && *final(self) == *old(self),
            !old(self).subscribing ==> {
                let c = csv_items(split_on(channels_text@, ','));
                let p = csv_items(split_on(patterns_text@, ','));
                if c.len() == 0 && p.len() == 0 {
                    &&& r is None
                    &&& text_is(final(self).status, "请至少填写一个 channel 或 pattern"@)
                    &&& !final(self).subscribing
                } else {
                    &&& r matches Some((rc, rp)) && str_views(rc@) == c && str_views(rp@) == p
                    &&& text_is(final(self).status, "订阅中..."@)
                    &&& final(self).subscribing
                }
            },
    {
        if self.subscribing {
            return None;
        }
        let channels = parse_csv(channels_text);
        let patterns = parse_csv(patterns_text);
        if channels.len() == 0 && patterns.len() == 0 {
            self.status = Some(String::from_str("请至少填写一个 channel 或 pattern"));
            return None;
        }
        self.subscribing = true;
        self.status = Some(String::from_str("订阅中..."));
        Some((channels, patterns))
    }

    /// The subscription could not be set up.
    pub fn subscribe_failed(&mut self, e: &str)
        requires
            old(self).wf(),
        ensures
            final(self).wf(),
            !final(self).subscribing,
            text_is(final(self).status, "订阅失败："@ + e@),
            final(self).active == old(self).active,
            final(self).messages@ == old(self).messages@,
    {
        self.subscribing = false;
        self.status = Some(prefixed("订阅失败：", e));
    }

    /// The subscription is live.
    pub fn subscribed(&mut self, channels: Vec<String>, patterns: Vec<String>)
        requires
            old(self).wf(),
        ensures
            final(self).wf(),
            !final(self).subscribing,
            final(self).active matches Some(d) && d.channels@ == channels@ && d.patterns@
                == patterns@,
            text_is(final(self).status, "已订阅"@),
            final(self).messages@ == old(self).messages@,
    {
        self.subscribing = false;
        self.active = Some(SubscriptionDesc { channels, patterns });
        self.status = Some(String::from_str("已订阅"));
    }

    /// A message arrived.
    pub fn receive(&mut self, m: PubSubMessage)
        requires
            old(self).wf(),
        ensures
            final(self).wf(),
            final(self).messages@ == messages_push(old(self).messages@, m),
            final(self).active == old(self).active,
            final(self).status == old(self).status,
            final(self).subscribing == old(self).subscribing,
    {
        if self.messages.len() >= MAX_MESSAGES {
            self.messages.remove(0);
        }
        self.messages.push(m);
        proof {
            if old(self).messages@.len() >= MAX_MESSAGES {
                assert(self.messages@ =~= old(self).messages@.drop_first().push(m));
            }
        }
    }

    /// The message stream ended.
    pub fn stream_ended(&mut self)
        requires
            old(self).wf(),
        ensures
            final(self).wf(),
            final(self).active is None,
            text_is(final(self).status, "订阅已结束"@),
            final(self).messages@ == old(self).messages@,
            final(self).subscribing == old(self).subscribing,
    {
        self.active = None;
        self.status = Some(String::from_str("订阅已结束"));
    }

    /// The user left the subscription.
    pub fn unsubscribe(&mut self)
        requires
            old(self).wf(),
        ensures
            final(self).wf(),
            final(self).active is None,
            text_is(final(self).status, "已取消订阅"@),
            final(self).messages@ == old(self).messages@,
            final(self).subscribing == old(self).subscribing,
    {
        self.active = None;
        self.status = Some(String::from_str("已取消订阅"));
    }

    /// A click on "publish": the trimmed channel, or nothing (and a status)
    /// when it is blank.
    pub fn request_publish(&mut self, channel_text: &str) -> (r: Option<String>)
        requires
            old(self).wf(),
        ensures
            final(self).wf(),
            final(self).messages@ == old(self).messages@,
            final(self).active == old(self).active,
            final(self).subscribing == old(self).subscribing,
            trim(channel_text@).len() == 0 ==> r is None && text_is(
                final(self).status,
                "请填写 channel"@,
            ),
            trim(channel_text@).len() > 0 ==> text_is(r, trim(channel_text@))
                && final(self).status == old(self).status,
    {
        let t = trim_chars(chars_of(channel_text).as_slice());
        if t.len() == 0 {
            self.status = Some(String::from_str("请填写 channel"));
            return None;
        }
        Some(string_of(t.as_slice()))
    }

    /// The publish result: how many subscribers got it, or the error text.
    pub fn published(&mut self, result: Result<i64, String>)
        requires
            old(self).wf(),
        ensures
            final(self).wf(),
            final(self).messages@ == old(self).messages@,
            final(self).active == old(self).active,
            final(self).subscribing == old(self).subscribing,
            match result {
                Ok(n) => text_is(final(self).status, "发送成功，"@ + dec_int(n as int) + " 个订阅者收到"@),
                Err(e) => text_is(final(self).status, "发送失败："@ + e@),
            },
    {
        match result {
            Ok(n) => {
                let mut v: Vec<char> = Vec::new();
                push_str(&mut v, "发送成功，");
                push_dec_i64(&mut v, n);
                push_str(&mut v, " 个订阅者收到");
                self.status = Some(string_of(v.as_slice()));
            },
            Err(e) => {
                self.status = Some(prefixed("发送失败：", e.as_str()));
            },
        }
    }

    /// Clears the message list.
    pub fn clear_messages(&mut self)
        requires
            old(self).wf(),
        ensures
            final(self).wf(),
            final(self).messages@.len() == 0,
            final(self).active == old(self).active,
            final(self).status == old(self).status,
            final(self).subscribing == old(self).subscribing,
    {
        self.messages.clear();
    }
}

/// The `Debug` text of a list of strings (`["a", "b"]`, with escapes).
pub uninterp spec fn debug_strings(items: Seq<Seq<char>>) -> Seq<char>;

/// The `Debug` text of a list of strings.
///
/// Trusted: formats the vector with `{:?}`; the contract names the text,
/// which depends on the strings alone.
#[verifier::external_body]
fn debug_list(items: &Vec<String>) -> (r: String)
    ensures
        r@ == debug_strings(str_views(items@)),
{
    format!("{:?}", items)
}

/// The status line of the panel.
pub open spec fn status_line_text(active: Option<(Seq<Seq<char>>, Seq<Seq<char>>)>, status: Option<Seq<char>>, n: nat) -> Seq<char> {
    match active {
        Some((c, p)) => "✓ 订阅中：channels="@ + debug_strings(c) + " patterns="@ + debug_strings(p)
            + " · 已收 "@ + dec(n) + " 条"@,
        None => match status {
            Some(s) => s,
            None => "未订阅"@,
        },
    }
}

impl PubSubState {
    /// The status line: the live subscription and message count, else the
    /// status, else `未订阅`.
    pub fn status_line(&self) -> (r: String)
        ensures
            r@ == status_line_text(
                match self.active {
                    Some(d) => Some((str_views(d.channels@), str_views(d.patterns@))),
                    None => None,
                },
                match self.status {
                    Some(s) => Some(s@),
                    None => None,
                },
                self.messages@.len(),
            ),
    {
        match &self.active {
            Some(d) => {
                let mut v: Vec<char> = Vec::new();
                push_str(&mut v, "✓ 订阅中：channels=");
                let c = debug_list(&d.channels);
                push_str(&mut v, c.as_str());
                push_str(&mut v, " patterns=");
                let p = debug_list(&d.patterns);
                push_str(&mut v, p.as_str());
                push_str(&mut v, " · 已收 ");
                crate::text::push_dec(&mut v, self.messages.len() as u64);
                push_str(&mut v, " 条");
                string_of(v.as_slice())
            },
            None => match &self.status {
                Some(s) => s.clone(),
                None => String::from_str("未订阅"),
            },
        }
    }
}

/// The pattern note of a message row: `（pattern=p）`, or nothing.
pub open spec fn pattern_note_text(p: Option<Seq<char>>) -> Seq<char> {
    match p {
        Some(x) => "（pattern="@ + x + "）"@,
        None => Seq::empty(),
    }
}

/// The pattern note of a message.
pub fn pattern_note(m: &PubSubMessage) -> (r: String)
    ensures
        r@ == pattern_note_text(
            match m.pattern {
                Some(p) => Some(p@),
                None => None,
            },
        ),
{
    match &m.pattern {
        Some(p) => {
            let mut v: Vec<char> = Vec::new();
            push_str(&mut v, "（pattern=");
            push_str(&mut v, p.as_str());
            push_str(&mut v, "）");
            string_of(v.as_slice())
        },
        None => String::new(),
    }
}

/// The character of the decimal digit `d`.
pub open spec fn digit_char(d: int) -> char {
    (48 + d) as char
}

/// `c` is a decimal digit.
pub open spec fn is_digit(c: char) -> bool {
    '0' <= c && c <= '9'
}

/// The number written by the two digits of `t` at `i` and `i + 1`.
pub open spec fn two_digits(t: Seq<char>, i: int) -> int {
    (t[i] as int - 48) * 10 + (t[i + 1] as int - 48)
}

/// `t` reads `HH:MM:SS.mmm`: a time of day (hours below 24, minutes and
/// seconds below 60), two digits each, and the three digits of the
/// milliseconds within the second of `ms`.
pub open spec fn clock_text(t: Seq<char>, ms: int) -> bool {
    &&& t.len() == 12
    &&& t[2] == ':' && t[5] == ':' && t[8] == '.'
    &&& forall|i: int| 0 <= i < 12 && i != 2 && i != 5 && i != 8 ==> is_digit(#[trigger] t[i])
    &&& two_digits(t, 0) < 24 && two_digits(t, 3) < 60 && two_digits(t, 6) < 60
    &&& t.subrange(9, 12) == seq![
        digit_char(ms % 1000 / 100),
        digit_char(ms % 100 / 10),
        digit_char(ms % 10),
    ]
}

/// Milliseconds from the epoch within which every timestamp has a local time.
pub const CLOCK_RANGE_MS: i64 = 8_000_000_000_000_000;

/// The local wall-clock time of `ms` as `HH:MM:SS.mmm`, where the local time
/// zone gives exactly one.
///
/// Trusted: calls `chrono::Local.timestamp_millis_opt(ms).single()` and
/// formats it with `%H:%M:%S%.3f`. The hours, minutes and seconds rest on
/// the machine's time zone, so the contract claims only the shape of the
/// text: zero-padded fields of a time of day, and the milliseconds of `ms`
/// (a time zone offset is a whole number of seconds, so it leaves them as
/// they are). Its documentation gives exactly one local time for every
/// timestamp in range, so a text comes back for every `ms` within
/// [`CLOCK_RANGE_MS`] of the epoch (about 250 000 years, inside chrono's
/// range of dates); beyond that it is left unsaid.
#[verifier::external_body]
fn local_clock(ms: i64) -> (r: Option<String>)
    ensures
        r matches Some(t) ==> clock_text(t@, ms as int),
        -CLOCK_RANGE_MS <= ms <= CLOCK_RANGE_MS ==> r is Some,
{
    chrono::Local.timestamp_millis_opt(ms).single().map(|dt| dt.format("%H:%M:%S%.3f").to_string())
}

/// The time of a message: the local clock text when there is one, else the
/// milliseconds as a number.
pub fn timestamp_text(local: Option<String>, ms: i64) -> (r: String)
    ensures
        match local {
            Some(t) => r@ == t@,
            None => r@ == dec_int(ms as int),
        },
{
    match local {
        Some(t) => t,
        None => {
            let mut v: Vec<char> = Vec::new();
            push_dec_i64(&mut v, ms);
            string_of(v.as_slice())
        },
    }
}

/// The time shown on a message row: the local clock, which depends on the
/// machine's time zone, or the milliseconds when it has none for `ms`
/// ([`timestamp_text`] states the choice).
pub fn format_timestamp(ms: i64) -> (r: String)
    ensures
        clock_text(r@, ms as int) || r@ == dec_int(ms as int),
        -CLOCK_RANGE_MS <= ms <= CLOCK_RANGE_MS ==> clock_text(r@, ms as int),
{
    let local = local_clock(ms);
    timestamp_text(local, ms)
}

} // verus!
