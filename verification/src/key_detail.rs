//! The detail pane of one key: what it holds while a key loads, the TTL
//! label, the commands that delete parts of a value, and how a scalar value
//! is shown.

use vstd::prelude::*;
use vstd::utf8::{decode_utf8, valid_utf8};

use crate::cli::RedisValue;
use crate::text::{dec, dec_int, push_dec, push_dec_i64, push_str, str_views, string_of};
use crate::value_display::{
    gunzip, has_gzip_magic, render_bytes, render_text, try_decompress_gzip, utf8_text, ViewMode,
};

verus! {

// ===== TTL =====

/// Whole seconds of `ms`, rounded toward zero (Rust integer division).
pub open spec fn secs_of(ms: int) -> int {
    if ms >= 0 {
        ms / 1000
    } else {
        -((-ms) / 1000)
    }
}

/// A TTL in milliseconds as text: `42s`, `3m 5s`, `2h 10m` or `4d 1h`.
pub open spec fn ttl_text(ms: int) -> Seq<char> {
    let s = secs_of(ms);
    if s < 60 {
        dec_int(s) + "s"@
    } else if s < 3600 {
        dec((s / 60) as nat) + "m "@ + dec((s % 60) as nat) + "s"@
    } else if s < 86400 {
        dec((s / 3600) as nat) + "h "@ + dec(((s % 3600) / 60) as nat) + "m"@
    } else {
        dec((s / 86400) as nat) + "d "@ + dec(((s % 86400) / 3600) as nat) + "h"@
    }
}

/// Formats a TTL given in milliseconds.
pub fn format_ttl_ms(ms: i64) -> (r: String)
    ensures
        r@ == ttl_text(ms as int),
{
    let mut v: Vec<char> = Vec::new();
    if ms < 0 {
        let a: u64 = if ms == i64::MIN {
            9223372036854775808u64
        } else {
            (-ms) as u64
        };
        let q: u64 = a / 1000;
        let s: i64 = if q == 0 {
            0
        } else {
            -(q as i64)
        };
        assert(s as int == secs_of(ms as int));
        push_dec_i64(&mut v, s);
        push_str(&mut v, "s");
        return string_of(v.as_slice());
    }
    let s: u64 = (ms as u64) / 1000;
    assert(s as int == secs_of(ms as int));
    if s < 60 {
        push_dec(&mut v, s);
        push_str(&mut v, "s");
    } else if s < 3600 {
        push_dec(&mut v, s / 60);
        push_str(&mut v, "m ");
        push_dec(&mut v, s % 60);
        push_str(&mut v, "s");
    } else if s < 86400 {
        push_dec(&mut v, s / 3600);
        push_str(&mut v, "h ");
        push_dec(&mut v, (s % 3600) / 60);
        push_str(&mut v, "m");
    } else {
        push_dec(&mut v, s / 86400);
        push_str(&mut v, "d ");
        push_dec(&mut v, (s % 86400) / 3600);
        push_str(&mut v, "h");
    }
    string_of(v.as_slice())
}

/// The TTL shown in the header: `-1` is no expiry, `-2` a key that is gone,
/// other negative values or none are unknown.
pub open spec fn ttl_label_text(ttl_ms: Option<i64>) -> Seq<char> {
    match ttl_ms {
        Some(ms) => if ms == -1 {
            "永久"@
        } else if ms == -2 {
            "已过期"@
        } else if ms >= 0 {
            ttl_text(ms as int)
        } else {
            "—"@
        },
        None => "—"@,
    }
}

/// The TTL label of the header.
pub fn ttl_label(ttl_ms: Option<i64>) -> (r: String)
    ensures
        r@ == ttl_label_text(ttl_ms),
{
    match ttl_ms {
        Some(ms) => if ms == -1 {
            String::from_str("永久")
        } else if ms == -2 {
            String::from_str("已过期")
        } else if ms >= 0 {
            format_ttl_ms(ms)
        } else {
            String::from_str("—")
        },
        None => String::from_str("—"),
    }
}

// ===== Scalar values =====

/// The bytes of a scalar value: a text's UTF-8 encoding, or the raw bytes.
pub open spec fn scalar_bytes(v: RedisValue) -> Seq<u8> {
    match v {
        RedisValue::Text(s) => vstd::utf8::encode_utf8(s@),
        RedisValue::Bytes(b) => b@,
        _ => Seq::empty(),
    }
}

/// The note shown when a value was gzip data: sizes before and after.
pub open spec fn gzip_note(before: nat, after: nat) -> Seq<char> {
    "🗜️ 检测到 Gzip 压缩，已自动解压（原 "@ + dec(before) + " bytes → "@ + dec(after)
        + " bytes）"@
}

/// The bytes to show for a scalar value and the gzip note: gzip data is
/// shown decompressed.
pub fn gzip_view(v: &RedisValue) -> (r: (Vec<u8>, Option<String>))
    ensures
        ({
            let raw = scalar_bytes(*v);
            if has_gzip_magic(raw) && gunzip(raw) is Some {
                &&& r.0@ == gunzip(raw).unwrap()
                &&& r.1 matches Some(h) && h@ == gzip_note(raw.len(), r.0@.len())
            } else {
                &&& r.0@ == raw
                &&& r.1 is None
            }
        }),
{
    let raw: Vec<u8> = match v {
        RedisValue::Text(s) => {
            let b = s.as_str().as_bytes();
            let mut out: Vec<u8> = Vec::new();
            let mut i: usize = 0;
            while i < b.len()
                invariant
                    i <= b@.len(),
                    out@ == b@.take(i as int),
                decreases b@.len() - i,
            {
                out.push(b[i]);
                proof {
                    assert(b@.take(i + 1) =~= b@.take(i as int).push(b@[i as int]));
                }
                i += 1;
            }
            proof {
                assert(b@.take(b@.len() as int) =~= b@);
            }
            out
        },
        RedisValue::Bytes(b) => b.clone(),
        _ => Vec::new(),
    };
    match try_decompress_gzip(raw.as_slice()) {
        Some(d) => {
            let mut h: Vec<char> = Vec::new();
            push_str(&mut h, "🗜️ 检测到 Gzip 压缩，已自动解压（原 ");
            push_dec(&mut h, raw.len() as u64);
            push_str(&mut h, " bytes → ");
            push_dec(&mut h, d.len() as u64);
            push_str(&mut h, " bytes）");
            (d, Some(string_of(h.as_slice())))
        },
        None => (raw, None),
    }
}

/// The text of a scalar value in `mode`: a text value whose shown bytes are
/// UTF-8 is rendered as text, anything else as bytes.
pub fn scalar_text(is_text: bool, shown: &[u8], mode: ViewMode) -> (r: String)
    requires
        shown@.len() <= usize::MAX / 2,
    ensures
        mode == ViewMode::Raw ==> r@ == (if valid_utf8(shown@) {
            decode_utf8(shown@)
        } else {
            "["@ + dec(shown@.len()) + " bytes：非 UTF-8，请切到 Hex/base64 查看]"@
        }),
        mode == ViewMode::Hex ==> r@ == crate::value_display::hex_dump(shown@),
        mode == ViewMode::Base64 ==> r@ == crate::value_display::b64(shown@),
        mode == ViewMode::Json ==> r@ == crate::value_display::json_shown(shown@),
{
    if is_text {
        match utf8_text(shown) {
            Some(s) => {
                proof {
                    vstd::utf8::decode_utf8_encode_utf8(shown@);
                }
                return render_text(s.as_str(), mode);
            },
            None => {},
        }
    }
    render_bytes(shown, mode)
}

// ===== The pane =====

/// `e` is the message `m`.
pub open spec fn msg_is(e: Option<String>, m: Seq<char>) -> bool {
    e matches Some(x) && x@ == m
}

/// `r` is the command `want`.
pub open spec fn argv_is(r: Option<Vec<String>>, want: Seq<Seq<char>>) -> bool {
    r matches Some(v) && str_views(v@) == want
}

/// What the detail pane holds.
#[derive(Debug)]
pub struct KeyDetailState {
    /// Whether a connection is set.
    pub connected: bool,
    pub db: u8,
    /// The key on show.
    pub key: Option<String>,
    /// Its value, once loaded.
    pub value: Option<RedisValue>,
    /// Its TTL in milliseconds, once loaded.
    pub ttl_ms: Option<i64>,
    pub loading: bool,
    pub error: Option<String>,
    pub view_mode: ViewMode,
    /// Its size from `MEMORY USAGE`, once asked for.
    pub key_size_bytes: Option<u64>,
    pub estimating_size: bool,
}

/// `prefix` followed by `e`.
fn prefixed(prefix: &str, e: &str) -> (r: String)
    ensures
        r@ == prefix@ + e@,
{
    let mut v: Vec<char> = Vec::new();
    push_str(&mut v, prefix);
    push_str(&mut v, e);
    string_of(v.as_slice())
}

/// `[cmd, key, ...rest]`.
fn cmd_with_key(cmd: &str, key: &String, rest: Vec<String>) -> (r: Vec<String>)
    ensures
        str_views(r@) == seq![cmd@, key@] + str_views(rest@),
{
    let mut v: Vec<String> = Vec::new();
    v.push(String::from_str(cmd));
    v.push(key.clone());
    let mut i: usize = 0;
    while i < rest.len()
        invariant
            i <= rest@.len(),
            str_views(v@) == seq![cmd@, key@] + str_views(rest@).take(i as int),
        decreases rest@.len() - i,
    {
        let ghost before = v@;
        let e = rest[i].clone();
        v.push(e);
        proof {
            assert(str_views(v@) =~= str_views(before).push(e@));
            assert(str_views(rest@).take(i + 1) =~= str_views(rest@).take(i as int).push(e@));
        }
        i += 1;
    }
    proof {
        assert(str_views(rest@).take(rest@.len() as int) =~= str_views(rest@));
    }
    v
}

impl KeyDetailState {
    /// No connection, nothing on show, raw view.
    pub fn new() -> (r: KeyDetailState)
        ensures
            !r.connected,
            r.db == 0,
            r.key is None,
            r.value is None,
            r.ttl_ms is None,
            !r.loading,
            r.error is None,
            r.view_mode == ViewMode::Raw,
            r.key_size_bytes is None,
            !r.estimating_size,
    {
        KeyDetailState {
            connected: false,
            db: 0,
            key: None,
            value: None,
            ttl_ms: None,
            loading: false,
            error: None,
            view_mode: ViewMode::Raw,
            key_size_bytes: None,
            estimating_size: false,
        }
    }

    /// Switches connection or database: the pane is emptied.
    pub fn set_connection(&mut self, connected: bool, db: u8)
        ensures
            final(self).connected == connected,
            final(self).db == db,
            final(self).key is None,
            final(self).value is None,
            final(self).ttl_ms is None,
            final(self).error is None,
            final(self).key_size_bytes is None,
            final(self).loading == old(self).loading,
            final(self).view_mode == old(self).view_mode,
            final(self).estimating_size == old(self).estimating_size,
    {
        self.connected = connected;
        self.db = db;
        self.key = None;
        self.value = None;
        self.ttl_ms = None;
        self.error = None;
        self.key_size_bytes = None;
    }

    /// Starts loading `key`; returns whether the value and TTL are to be
    /// fetched (only with a connection).
    pub fn load_key(&mut self, key: &str) -> (fetch: bool)
        ensures
            fetch == old(self).connected,
            !fetch ==> *final(self) == *old(self),
            fetch ==> {
                &&& final(self).key matches Some(k) && k@ == key@
                &&& final(self).value is None
                &&& final(self).ttl_ms is None
                &&& final(self).loading
                &&& final(self).error is None
                &&& final(self).key_size_bytes is None
                &&& final(self).connected == old(self).connected
                &&& final(self).db == old(self).db
                &&& final(self).view_mode == old(self).view_mode
                &&& final(self).estimating_size == old(self).estimating_size
            },
    {
        if !self.connected {
            return false;
        }
        self.key = Some(String::from_str(key));
        self.value = None;
        self.ttl_ms = None;
        self.loading = true;
        self.error = None;
        self.key_size_bytes = None;
        true
    }

    /// Takes in the fetched value (or the error text) and TTL (none when it
    /// could not be read).
    pub fn loaded(&mut self, value: Result<RedisValue, String>, ttl_ms: Option<i64>)
        ensures
            !final(self).loading,
            final(self).ttl_ms == ttl_ms,
            final(self).key == old(self).key,
            final(self).connected == old(self).connected,
            final(self).db == old(self).db,
            final(self).view_mode == old(self).view_mode,
            final(self).key_size_bytes == old(self).key_size_bytes,
            final(self).estimating_size == old(self).estimating_size,
            match value {
                Ok(v) => final(self).value == Some(v) && final(self).error == old(self).error,
                Err(e) => final(self).value == old(self).value && msg_is(
                    final(self).error,
                    "加载值失败："@ + e@,
                ),
            },
    {
        self.loading = false;
        match value {
            Ok(v) => self.value = Some(v),
            Err(e) => self.error = Some(prefixed("加载值失败：", e.as_str())),
        }
        self.ttl_ms = ttl_ms;
    }

    /// Starts a size estimate of the key on show; returns whether
    /// `MEMORY USAGE` is to be sent.
    pub fn start_estimate(&mut self) -> (send: bool)
        ensures
            send == (old(self).connected && old(self).key is Some),
            send ==> final(self).estimating_size && final(self).key == old(self).key,
            !send ==> *final(self) == *old(self),
    {
        if !self.connected || self.key.is_none() {
            return false;
        }
        self.estimating_size = true;
        true
    }

    /// Takes in the `MEMORY USAGE` reply: a size, no size for a key that is
    /// gone, or an error for anything else.
    pub fn size_estimated(&mut self, reply: Result<RedisValue, String>)
        ensures
            !final(self).estimating_size,
            final(self).key == old(self).key,
            final(self).value == old(self).value,
            final(self).ttl_ms == old(self).ttl_ms,
            match reply {
                Ok(RedisValue::Int(n)) => if n >= 0 {
                    final(self).key_size_bytes == Some(n as u64) && final(self).error == old(
                        self,
                    ).error
                } else {
                    final(self).key_size_bytes == old(self).key_size_bytes && msg_is(
                        final(self).error,
                        "MEMORY USAGE 应答异常（可能服务端不支持）"@,
                    )
                },
                Ok(RedisValue::Nil) => final(self).key_size_bytes is None && final(self).error == old(
                    self,
                ).error,
                Ok(_) => final(self).key_size_bytes == old(self).key_size_bytes && msg_is(
                    final(self).error,
                    "MEMORY USAGE 应答异常（可能服务端不支持）"@,
                ),
                Err(e) => final(self).key_size_bytes == old(self).key_size_bytes && msg_is(
                    final(self).error,
                    "MEMORY USAGE 失败："@ + e@,
                ),
            },
    {
        self.estimating_size = false;
        match reply {
            Ok(RedisValue::Int(n)) => {
                if n >= 0 {
                    self.key_size_bytes = Some(n as u64);
                } else {
                    self.error = Some(String::from_str("MEMORY USAGE 应答异常（可能服务端不支持）"));
                }
            },
            Ok(RedisValue::Nil) => {
                self.key_size_bytes = None;
            },
            Ok(_) => {
                self.error = Some(String::from_str("MEMORY USAGE 应答异常（可能服务端不支持）"));
            },
            Err(e) => {
                self.error = Some(prefixed("MEMORY USAGE 失败：", e.as_str()));
            },
        }
    }

    /// `HDEL key field` for the key on show.
    pub fn hdel_argv(&self, field: &str) -> (r: Option<Vec<String>>)
        ensures
            match self.key {
                Some(k) => self.connected ==> argv_is(r, seq![
                    "HDEL"@,
                    k@,
                    field@,
                ]),
                None => r is None,
            },
            !self.connected ==> r is None,
    {
        if !self.connected {
            return None;
        }
        match &self.key {
            Some(k) => {
                let mut rest: Vec<String> = Vec::new();
                rest.push(String::from_str(field));
                let v = cmd_with_key("HDEL", k, rest);
                proof {
                    assert(str_views(v@) =~= seq!["HDEL"@, k@, field@]);
                }
                Some(v)
            },
            None => None,
        }
    }

    /// `LREM key 1 value`: removes the first element equal to `value`.
    pub fn lrem_argv(&self, value: &str) -> (r: Option<Vec<String>>)
        ensures
            match self.key {
                Some(k) => self.connected ==> argv_is(r, seq![
                    "LREM"@,
                    k@,
                    "1"@,
                    value@,
                ]),
                None => r is None,
            },
            !self.connected ==> r is None,
    {
        if !self.connected {
            return None;
        }
        match &self.key {
            Some(k) => {
                let mut rest: Vec<String> = Vec::new();
                rest.push(String::from_str("1"));
                rest.push(String::from_str(value));
                let v = cmd_with_key("LREM", k, rest);
                proof {
                    assert(str_views(v@) =~= seq!["LREM"@, k@, "1"@, value@]);
                }
                Some(v)
            },
            None => None,
        }
    }

    /// `SREM`, `ZREM` or `XDEL` with the key on show and `item`.
    pub fn remove_item_argv(&self, cmd: &str, item: &str) -> (r: Option<Vec<String>>)
        ensures
            match self.key {
                Some(k) => self.connected ==> argv_is(r, seq![
                    cmd@,
                    k@,
                    item@,
                ]),
                None => r is None,
            },
            !self.connected ==> r is None,
    {
        if !self.connected {
            return None;
        }
        match &self.key {
            Some(k) => {
                let mut rest: Vec<String> = Vec::new();
                rest.push(String::from_str(item));
                let v = cmd_with_key(cmd, k, rest);
                proof {
                    assert(str_views(v@) =~= seq![cmd@, k@, item@]);
                }
                Some(v)
            },
            None => None,
        }
    }

    /// After a field or element was deleted, or failed to be: success
    /// reloads the key (returns `true`), failure shows `prefix` and the error.
    pub fn part_deleted(&mut self, result: Result<(), String>, prefix: &str) -> (reload: bool)
        ensures
            reload == result is Ok,
            reload ==> *final(self) == *old(self),
            match result {
                Ok(_) => true,
                Err(e) => msg_is(final(self).error, prefix@ + e@) && final(self).key == old(
                    self,
                ).key && final(self).value == old(self).value,
            },
    {
        match result {
            Ok(_) => true,
            Err(e) => {
                self.error = Some(prefixed(prefix, e.as_str()));
                false
            },
        }
    }

    /// After a hash field was deleted, or failed to be: success reloads the
    /// key (returns `true`), failure shows `删除字段失败：` and the error.
    pub fn field_deleted(&mut self, result: Result<(), String>) -> (reload: bool)
        ensures
            reload == result is Ok,
            reload ==> *final(self) == *old(self),
            match result {
                Ok(_) => true,
                Err(e) => msg_is(final(self).error, "删除字段失败："@ + e@) && final(self).key
                    == old(self).key && final(self).value == old(self).value,
            },
    {
        self.part_deleted(result, "删除字段失败：")
    }

    /// After a list, set, sorted-set or stream element was deleted, or failed
    /// to be: success reloads the key (returns `true`), failure shows
    /// `删除元素失败：` and the error.
    pub fn element_deleted(&mut self, result: Result<(), String>) -> (reload: bool)
        ensures
            reload == result is Ok,
            reload ==> *final(self) == *old(self),
            match result {
                Ok(_) => true,
                Err(e) => msg_is(final(self).error, "删除元素失败："@ + e@) && final(self).key
                    == old(self).key && final(self).value == old(self).value,
            },
    {
        self.part_deleted(result, "删除元素失败：")
    }

    /// After the key was deleted, or failed to be: success empties the pane
    /// and returns the deleted key for the tree to refresh.
    pub fn key_deleted(&mut self, result: Result<(), String>) -> (removed: Option<String>)
        ensures
            match result {
                Ok(_) => {
                    &&& removed == old(self).key
                    &&& final(self).key is None
                    &&& final(self).value is None
                    &&& final(self).ttl_ms is None
                    &&& final(self).error == old(self).error
                },
                Err(e) => {
                    &&& removed is None
                    &&& final(self).key == old(self).key
                    &&& msg_is(final(self).error, "删除失败："@ + e@)
                },
            },
    {
        match result {
            Ok(_) => {
                let k = self.key.take();
                self.value = None;
                self.ttl_ms = None;
                k
            },
            Err(e) => {
                self.error = Some(prefixed("删除失败：", e.as_str()));
                None
            },
        }
    }

    /// Picks how a scalar value is shown; returns whether it changed.
    pub fn set_view_mode(&mut self, m: ViewMode) -> (changed: bool)
        ensures
            final(self).view_mode == m,
            changed == (old(self).view_mode != m),
            final(self).key == old(self).key,
            final(self).value == old(self).value,
    {
        if self.view_mode == m {
            return false;
        }
        self.view_mode = m;
        true
    }
}

} // verus!
