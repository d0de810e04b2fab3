//! The "new key" form: the typed key name, value text and TTL become the
//! write command that creates the key.
//!
//! - String → `SET key value`
//! - List   → `RPUSH key v1 v2 ...` (one element per line)
//! - Set    → `SADD key m1 m2 ...` (one member per line)
//! - Hash   → `HSET key f1 v1 f2 v2 ...` (`field value` per line)
//! - ZSet   → `ZADD key s1 m1 s2 m2 ...` (`score member` per line)

use vstd::prelude::*;

use crate::key_tree::RedisType;
use crate::text::{
    all_digits, ascii_lower_chars, ascii_lower_seq, chars_eq_str, chars_of, copy_range, dec,
    find_char, find_char_in, is_digit, is_first, lines, lines_of, parse_uint, parse_uint_chars, push_chars,
    push_dec, push_str, split_once, split_once_chars, str_views, string_of, trim, trim_chars,
    trim_end_char, trim_end_char_chars, trim_start, trim_start_chars, views,
};

verus! {

// ===== Decimal floating-point literals =====

/// `s` without one leading `+` or `-`.
pub open spec fn strip_sign(s: Seq<char>) -> Seq<char> {
    if s.len() > 0 && (s[0] == '+' || s[0] == '-') {
        s.drop_first()
    } else {
        s
    }
}

/// Digits with at most one `.` among them, and at least one digit.
pub open spec fn is_mantissa(m: Seq<char>) -> bool {
    match find_char(m, '.') {
        None => m.len() > 0 && all_digits(m),
        Some(i) => m.len() >= 2 && all_digits(m.subrange(0, i)) && all_digits(
            m.subrange(i + 1, m.len() as int),
        ),
    }
}

/// A mantissa with an optional exponent `e`, sign and digits (lower case).
pub open spec fn is_decimal(l: Seq<char>) -> bool {
    match find_char(l, 'e') {
        None => is_mantissa(l),
        Some(i) => {
            let x = strip_sign(l.subrange(i + 1, l.len() as int));
            is_mantissa(l.subrange(0, i)) && x.len() > 0 && all_digits(x)
        },
    }
}

/// The texts that `f64::from_str` accepts: an optional sign, then `inf`,
/// `infinity`, `nan` or a decimal number, letters in any case.
pub open spec fn is_float_literal(s: Seq<char>) -> bool {
    let l = ascii_lower_seq(strip_sign(s));
    l == "inf"@ || l == "infinity"@ || l == "nan"@ || is_decimal(l)
}

/// Whether every character of `s` is an ASCII digit.
fn digits_only(s: &[char]) -> (r: bool)
    ensures
        r == all_digits(s@),
{
    let mut i: usize = 0;
    while i < s.len()
        invariant
            i <= s@.len(),
            forall|j: int| 0 <= j < i ==> is_digit(#[trigger] s@[j]),
        decreases s@.len() - i,
    {
        if !('0' <= s[i] && s[i] <= '9') {
            assert(!is_digit(s@[i as int]));
            return false;
        }
        i += 1;
    }
    true
}

/// `s` without one leading sign.
fn strip_sign_chars(s: &[char]) -> (r: Vec<char>)
    ensures
        r@ == strip_sign(s@),
{
    if s.len() > 0 && (s[0] == '+' || s[0] == '-') {
        let r = copy_range(s, 1, s.len());
        assert(r@ =~= s@.drop_first());
        r
    } else {
        let r = copy_range(s, 0, s.len());
        assert(r@ =~= s@);
        r
    }
}

/// Whether `m` is a mantissa.
fn mantissa_ok(m: &[char]) -> (r: bool)
    ensures
        r == is_mantissa(m@),
{
    match find_char_in(m, '.') {
        None => m.len() > 0 && digits_only(m),
        Some(i) => {
            if m.len() < 2 {
                return false;
            }
            let a = copy_range(m, 0, i);
            let b = copy_range(m, i + 1, m.len());
            digits_only(a.as_slice()) && digits_only(b.as_slice())
        },
    }
}

/// Whether `f64::from_str` accepts `s`.
pub fn float_literal_ok(s: &[char]) -> (r: bool)
    ensures
        r == is_float_literal(s@),
{
    let body = strip_sign_chars(s);
    let l = ascii_lower_chars(body.as_slice());
    if chars_eq_str(l.as_slice(), "inf") || chars_eq_str(l.as_slice(), "infinity")
        || chars_eq_str(l.as_slice(), "nan") {
        return true;
    }
    match find_char_in(l.as_slice(), 'e') {
        None => mantissa_ok(l.as_slice()),
        Some(i) => {
            assert(is_first(l@, 'e', i as int));
            assert(i < l@.len());
            assert(i < l.len());
            let m = copy_range(l.as_slice(), 0, i);
            let t = copy_range(l.as_slice(), i + 1, l.len());
            let x = strip_sign_chars(t.as_slice());
            mantissa_ok(m.as_slice()) && x.len() > 0 && digits_only(x.as_slice())
        },
    }
}

// ===== Lines =====

/// The lines of a value text without trailing `\r`, empty ones left out.
pub open spec fn nonempty_lines(ls: Seq<Seq<char>>) -> Seq<Seq<char>>
    decreases ls.len(),
{
    if ls.len() == 0 {
        Seq::empty()
    } else {
        let r = nonempty_lines(ls.drop_last());
        let l = trim_end_char(ls.last(), '\r');
        if l.len() == 0 {
            r
        } else {
            r.push(l)
        }
    }
}

/// One element per line: the lines of `raw` without trailing `\r`, empty
/// lines skipped.
pub fn parse_lines(raw: &str) -> (r: Vec<String>)
    ensures
        str_views(r@) == nonempty_lines(lines(raw@)),
{
    let cs = chars_of(raw);
    let ls = lines_of(cs.as_slice());
    let ghost lv = views(ls@);
    let mut out: Vec<String> = Vec::new();
    let mut i: usize = 0;
    while i < ls.len()
        invariant
            i <= ls@.len(),
            lv == views(ls@),
            str_views(out@) == nonempty_lines(lv.take(i as int)),
        decreases ls@.len() - i,
    {
        proof {
            assert(lv.take(i + 1).drop_last() =~= lv.take(i as int));
            assert(lv.take(i + 1).last() == ls@[i as int]@);
        }
        let l = trim_end_char_chars(ls[i].as_slice(), '\r');
        if l.len() > 0 {
            out.push(string_of(l.as_slice()));
            proof {
                assert(str_views(out@) =~= nonempty_lines(lv.take(i as int)).push(l@));
            }
        }
        i += 1;
    }
    proof {
        assert(lv.take(ls@.len() as int) =~= lv);
    }
    out
}

// ===== `field value` and `score member` lines =====

/// `第 {no}` followed by `tail`: the start of a message about line `no`.
pub open spec fn line_msg(no: nat, tail: Seq<char>) -> Seq<char> {
    "第 "@ + dec(no) + tail
}

/// A pair line without its separator.
pub open spec fn kv_format_tail() -> Seq<char> {
    " 行格式错误：需要 `field value`（空格分隔）"@
}

/// A pair line whose field is blank.
pub open spec fn kv_empty_tail() -> Seq<char> {
    " 行：field 为空"@
}

/// A score line without its separator.
pub open spec fn score_format_tail() -> Seq<char> {
    " 行格式错误：需要 `score member`（空格分隔）"@
}

/// A score line whose member is blank.
pub open spec fn member_empty_tail() -> Seq<char> {
    " 行：member 为空"@
}

/// A score line whose score is not a number; `score` as typed.
pub open spec fn score_nan_msg(no: nat, score: Seq<char>) -> Seq<char> {
    line_msg(no, " 行：score 必须是数字，实得 `"@ + score + "`"@)
}

/// What line `no` of a `field value` text gives: nothing for a blank line,
/// else the trimmed field and the value without leading whitespace, split at
/// the first space, or an error.
pub open spec fn kv_line(line: Seq<char>, no: nat) -> Option<Result<(Seq<char>, Seq<char>), Seq<char>>> {
    let l = trim_end_char(line, '\r');
    if trim(l).len() == 0 {
        None
    } else {
        match split_once(l, ' ') {
            Some((f, v)) => if trim(f).len() == 0 {
                Some(Err(line_msg(no, kv_empty_tail())))
            } else {
                Some(Ok((trim(f), trim_start(v))))
            },
            None => Some(Err(line_msg(no, kv_format_tail()))),
        }
    }
}

/// What line `no` of a `score member` text gives: the score must be a
/// number and the member must not be blank.
pub open spec fn score_line(line: Seq<char>, no: nat) -> Option<Result<(Seq<char>, Seq<char>), Seq<char>>> {
    let l = trim_end_char(line, '\r');
    if trim(l).len() == 0 {
        None
    } else {
        match split_once(l, ' ') {
            Some((sc, m)) => if !is_float_literal(trim(sc)) {
                Some(Err(score_nan_msg(no, sc)))
            } else if trim_start(m).len() == 0 {
                Some(Err(line_msg(no, member_empty_tail())))
            } else {
                Some(Ok((trim(sc), trim_start(m))))
            },
            None => Some(Err(line_msg(no, score_format_tail()))),
        }
    }
}

/// The pairs of the lines `ls` (numbered from 1), or the error of the first
/// bad line; `score` picks `score member` lines over `field value` lines.
pub open spec fn pair_lines(ls: Seq<Seq<char>>, score: bool) -> Result<Seq<(Seq<char>, Seq<char>)>, Seq<char>>
    decreases ls.len(),
{
    if ls.len() == 0 {
        Ok(Seq::empty())
    } else {
        match pair_lines(ls.drop_last(), score) {
            Err(e) => Err(e),
            Ok(acc) => {
                let o = if score {
                    score_line(ls.last(), ls.len())
                } else {
                    kv_line(ls.last(), ls.len())
                };
                match o {
                    None => Ok(acc),
                    Some(Ok(p)) => Ok(acc.push(p)),
                    Some(Err(e)) => Err(e),
                }
            },
        }
    }
}

/// Once a prefix of the lines has failed, all of them fail the same way.
pub proof fn lemma_pair_lines_err(ls: Seq<Seq<char>>, score: bool, k: int)
    requires
        0 <= k <= ls.len(),
        pair_lines(ls.take(k), score) is Err,
    ensures
        pair_lines(ls, score) == pair_lines(ls.take(k), score),
    decreases ls.len() - k,
{
    if k < ls.len() {
        let t = ls.take(k + 1);
        assert(t.drop_last() =~= ls.take(k));
        lemma_pair_lines_err(ls, score, k + 1);
    } else {
        assert(ls.take(k) =~= ls);
    }
}

/// The view of a vector of string pairs.
pub open spec fn pair_views(v: Seq<(String, String)>) -> Seq<(Seq<char>, Seq<char>)> {
    v.map_values(|p: (String, String)| (p.0@, p.1@))
}

/// The view of a parse result of pairs.
pub open spec fn pairs_result(r: Result<Vec<(String, String)>, String>) -> Result<Seq<(Seq<char>, Seq<char>)>, Seq<char>> {
    match r {
        Ok(v) => Ok(pair_views(v@)),
        Err(e) => Err(e@),
    }
}

/// `第 {no}` and `tail` as a string.
fn line_error(no: usize, tail: &str) -> (r: String)
    ensures
        r@ == line_msg(no as nat, tail@),
{
    let mut v: Vec<char> = Vec::new();
    push_str(&mut v, "第 ");
    push_dec(&mut v, no as u64);
    push_str(&mut v, tail);
    string_of(v.as_slice())
}

/// What one line gives, as [`kv_line`] or [`score_line`] says.
fn pair_line(line: &[char], no: usize, score: bool) -> (r: Option<Result<(String, String), String>>)
    ensures
        match r {
            None => (if score {
                score_line(line@, no as nat)
            } else {
                kv_line(line@, no as nat)
            }) is None,
            Some(Ok((a, b))) => (if score {
                score_line(line@, no as nat)
            } else {
                kv_line(line@, no as nat)
            }) == Some(Ok::<(Seq<char>, Seq<char>), Seq<char>>((a@, b@))),
            Some(Err(e)) => (if score {
                score_line(line@, no as nat)
            } else {
                kv_line(line@, no as nat)
            }) == Some(Err::<(Seq<char>, Seq<char>), Seq<char>>(e@)),
        },
{
    let l = trim_end_char_chars(line, '\r');
    let t = trim_chars(l.as_slice());
    if t.len() == 0 {
        return None;
    }
    match split_once_chars(l.as_slice(), ' ') {
        None => {
            if score {
                Some(Err(line_error(no, " 行格式错误：需要 `score member`（空格分隔）")))
            } else {
                Some(Err(line_error(no, " 行格式错误：需要 `field value`（空格分隔）")))
            }
        },
        Some((a, b)) => {
            let ta = trim_chars(a.as_slice());
            let tb = trim_start_chars(b.as_slice());
            if score {
                if !float_literal_ok(ta.as_slice()) {
                    let mut v: Vec<char> = Vec::new();
                    push_str(&mut v, "第 ");
                    push_dec(&mut v, no as u64);
                    push_str(&mut v, " 行：score 必须是数字，实得 `");
                    push_chars(&mut v, a.as_slice());
                    push_str(&mut v, "`");
                    proof {
                        assert(v@ =~= score_nan_msg(no as nat, a@));
                    }
                    return Some(Err(string_of(v.as_slice())));
                }
                if tb.len() == 0 {
                    return Some(Err(line_error(no, " 行：member 为空")));
                }
            } else if ta.len() == 0 {
                return Some(Err(line_error(no, " 行：field 为空")));
            }
            Some(Ok((string_of(ta.as_slice()), string_of(tb.as_slice()))))
        },
    }
}

/// Parses the lines of `raw` into pairs.
fn parse_pairs(raw: &str, score: bool) -> (r: Result<Vec<(String, String)>, String>)
    ensures
        pairs_result(r) == pair_lines(lines(raw@), score),
{
    let cs = chars_of(raw);
    let ls = lines_of(cs.as_slice());
    let ghost lv = views(ls@);
    let mut out: Vec<(String, String)> = Vec::new();
    let mut i: usize = 0;
    proof {
        assert(lv.take(0) =~= Seq::<Seq<char>>::empty());
        assert(pair_views(out@) =~= Seq::<(Seq<char>, Seq<char>)>::empty());
    }
    while i < ls.len()
        invariant
            i <= ls@.len(),
            lv == views(ls@),
            lv == lines(raw@),
            pair_lines(lv.take(i as int), score) == Ok::<Seq<(Seq<char>, Seq<char>)>, Seq<char>>(
                pair_views(out@),
            ),
        decreases ls@.len() - i,
    {
        let ghost t = lv.take(i + 1);
        proof {
            assert(t.drop_last() =~= lv.take(i as int));
            assert(t.last() == ls@[i as int]@);
            assert(t.len() == i + 1);
        }
        match pair_line(ls[i].as_slice(), i + 1, score) {
            None => {},
            Some(Ok(p)) => {
                let ghost pv = (p.0@, p.1@);
                let ghost before = out@;
                out.push(p);
                proof {
                    assert(pair_views(out@) =~= pair_views(before).push(pv));
                }
            },
            Some(Err(e)) => {
                proof {
                    lemma_pair_lines_err(lv, score, i + 1);
                }
                return Err(e);
            },
        }
        i += 1;
    }
    proof {
        assert(lv.take(ls@.len() as int) =~= lv);
    }
    Ok(out)
}

/// `field value` per line → `(field, value)` pairs; blank lines are
/// skipped, the value keeps its inner spaces, the first bad line is reported.
pub fn parse_kv_pairs(raw: &str) -> (r: Result<Vec<(String, String)>, String>)
    ensures
        pairs_result(r) == pair_lines(lines(raw@), false),
{
    parse_pairs(raw, false)
}

/// `score member` per line → `(score, member)` pairs; the score must be a
/// number as `f64` parses it and is kept as typed (trimmed).
pub fn parse_score_member(raw: &str) -> (r: Result<Vec<(String, String)>, String>)
    ensures
        pairs_result(r) == pair_lines(lines(raw@), true),
{
    parse_pairs(raw, true)
}

// ===== The write command =====

/// The field and value (or score and member) of the pairs, in order.
pub open spec fn flat_pairs(p: Seq<(Seq<char>, Seq<char>)>) -> Seq<Seq<char>>
    decreases p.len(),
{
    if p.len() == 0 {
        Seq::empty()
    } else {
        flat_pairs(p.drop_last()) + seq![p.last().0, p.last().1]
    }
}

/// Error when the key name is blank.
pub open spec fn no_key_msg() -> Seq<char> {
    "请填写 Key 名"@
}

/// Error for a list without elements.
pub open spec fn empty_list_msg() -> Seq<char> {
    "List 至少需要 1 个元素（每行一个）"@
}

/// Error for a set without members.
pub open spec fn empty_set_msg() -> Seq<char> {
    "Set 至少需要 1 个元素（每行一个）"@
}

/// Error for a hash without fields.
pub open spec fn empty_hash_msg() -> Seq<char> {
    "Hash 至少需要 1 个字段（每行 `field value`）"@
}

/// Error for a sorted set without members.
pub open spec fn empty_zset_msg() -> Seq<char> {
    "ZSet 至少需要 1 个成员（每行 `score member`）"@
}

/// Error for the types the form cannot create.
pub open spec fn unsupported_msg() -> Seq<char> {
    "Stream 类型暂未在 Stage 16 支持，请用命令面板执行 XADD"@
}

/// The command that creates the key named by the trimmed `key_input` with
/// type `t` from the value text `value`, or why it cannot be built.
pub open spec fn create_argv(key_input: Seq<char>, value: Seq<char>, t: RedisType) -> Result<Seq<Seq<char>>, Seq<char>> {
    let key = trim(key_input);
    if key.len() == 0 {
        Err(no_key_msg())
    } else {
        match t {
            RedisType::String => Ok(seq!["SET"@, key, value]),
            RedisType::List => {
                let e = nonempty_lines(lines(value));
                if e.len() == 0 {
                    Err(empty_list_msg())
                } else {
                    Ok(seq!["RPUSH"@, key] + e)
                }
            },
            RedisType::PlainSet => {
                let e = nonempty_lines(lines(value));
                if e.len() == 0 {
                    Err(empty_set_msg())
                } else {
                    Ok(seq!["SADD"@, key] + e)
                }
            },
            RedisType::Hash => match pair_lines(lines(value), false) {
                Err(e) => Err(e),
                Ok(p) => if p.len() == 0 {
                    Err(empty_hash_msg())
                } else {
                    Ok(seq!["HSET"@, key] + flat_pairs(p))
                },
            },
            RedisType::ZSet => match pair_lines(lines(value), true) {
                Err(e) => Err(e),
                Ok(p) => if p.len() == 0 {
                    Err(empty_zset_msg())
                } else {
                    Ok(seq!["ZADD"@, key] + flat_pairs(p))
                },
            },
            _ => Err(unsupported_msg()),
        }
    }
}

/// The view of a command result.
pub open spec fn argv_result(r: Result<Vec<String>, String>) -> Result<Seq<Seq<char>>, Seq<char>> {
    match r {
        Ok(v) => Ok(str_views(v@)),
        Err(e) => Err(e@),
    }
}

/// `[cmd, key]` followed by the fields and values of `pairs`.
fn pairs_argv(cmd: &str, key: String, pairs: Vec<(String, String)>) -> (r: Vec<String>)
    ensures
        str_views(r@) == seq![cmd@, key@] + flat_pairs(pair_views(pairs@)),
{
    let mut argv: Vec<String> = Vec::new();
    argv.push(String::from_str(cmd));
    argv.push(key);
    let ghost pv = pair_views(pairs@);
    let ghost head = seq![cmd@, key@];
    proof {
        assert(str_views(argv@) =~= head);
        assert(pv.take(0) =~= Seq::<(Seq<char>, Seq<char>)>::empty());
        assert(head + flat_pairs(pv.take(0)) =~= head);
    }
    let mut i: usize = 0;
    while i < pairs.len()
        invariant
            i <= pairs@.len(),
            pv == pair_views(pairs@),
            str_views(argv@) == head + flat_pairs(pv.take(i as int)),
        decreases pairs@.len() - i,
    {
        let f = pairs[i].0.clone();
        let v = pairs[i].1.clone();
        proof {
            assert(f@ == pairs@[i as int].0@);
            assert(v@ == pairs@[i as int].1@);
            assert(pv.take(i + 1).drop_last() =~= pv.take(i as int));
        }
        let ghost before = argv@;
        argv.push(f);
        argv.push(v);
        proof {
            assert(str_views(argv@) =~= str_views(before) + seq![pv[i as int].0, pv[i as int].1]);
        }
        i += 1;
    }
    proof {
        assert(pv.take(pairs@.len() as int) =~= pv);
    }
    argv
}

/// `[cmd, key]` followed by `elems`.
fn list_argv(cmd: &str, key: String, elems: Vec<String>) -> (r: Vec<String>)
    ensures
        str_views(r@) == seq![cmd@, key@] + str_views(elems@),
{
    let mut argv: Vec<String> = Vec::new();
    argv.push(String::from_str(cmd));
    argv.push(key);
    let ghost head = seq![cmd@, key@];
    let mut i: usize = 0;
    while i < elems.len()
        invariant
            i <= elems@.len(),
            str_views(argv@) == head + str_views(elems@).take(i as int),
        decreases elems@.len() - i,
    {
        let ghost before = argv@;
        let e = elems[i].clone();
        assert(e@ == elems@[i as int]@);
        argv.push(e);
        proof {
            assert(str_views(argv@) =~= str_views(before).push(e@));
            assert(str_views(elems@).take(i + 1) =~= str_views(elems@).take(i as int).push(e@));
            assert(str_views(argv@) =~= head + str_views(elems@).take(i + 1));
        }
        i += 1;
    }
    proof {
        assert(str_views(elems@).take(elems@.len() as int) =~= str_views(elems@));
    }
    argv
}

/// Builds the write command for a new key of type `t` named by `key_input`
/// (trimmed) from the value text `raw_value`.
pub fn validate_and_build_argv(key_input: &str, raw_value: &str, t: RedisType) -> (r: Result<
    Vec<String>,
    String,
>)
    ensures
        argv_result(r) == create_argv(key_input@, raw_value@, t),
{
    let kc = chars_of(key_input);
    let kt = trim_chars(kc.as_slice());
    if kt.len() == 0 {
        return Err(String::from_str("请填写 Key 名"));
    }
    let key = string_of(kt.as_slice());
    match t {
        RedisType::String => {
            let mut argv: Vec<String> = Vec::new();
            argv.push(String::from_str("SET"));
            argv.push(key);
            argv.push(String::from_str(raw_value));
            proof {
                assert(str_views(argv@) =~= seq!["SET"@, kt@, raw_value@]);
            }
            Ok(argv)
        },
        RedisType::List => {
            let elems = parse_lines(raw_value);
            if elems.len() == 0 {
                return Err(String::from_str("List 至少需要 1 个元素（每行一个）"));
            }
            Ok(list_argv("RPUSH", key, elems))
        },
        RedisType::PlainSet => {
            let elems = parse_lines(raw_value);
            if elems.len() == 0 {
                return Err(String::from_str("Set 至少需要 1 个元素（每行一个）"));
            }
            Ok(list_argv("SADD", key, elems))
        },
        RedisType::Hash => {
            let pairs = match parse_kv_pairs(raw_value) {
                Ok(p) => p,
                Err(e) => return Err(e),
            };
            if pairs.len() == 0 {
                return Err(String::from_str("Hash 至少需要 1 个字段（每行 `field value`）"));
            }
            Ok(pairs_argv("HSET", key, pairs))
        },
        RedisType::ZSet => {
            let pairs = match parse_score_member(raw_value) {
                Ok(p) => p,
                Err(e) => return Err(e),
            };
            if pairs.len() == 0 {
                return Err(String::from_str("ZSet 至少需要 1 个成员（每行 `score member`）"));
            }
            Ok(pairs_argv("ZADD", key, pairs))
        },
        _ => Err(String::from_str("Stream 类型暂未在 Stage 16 支持，请用命令面板执行 XADD")),
    }
}

// ===== TTL =====

/// Error for a TTL that is not a positive whole number of seconds.
pub open spec fn ttl_msg() -> Seq<char> {
    "TTL 必须是正整数（秒）"@
}

/// The TTL field: blank means no TTL, else a positive `i64` as
/// `i64::from_str` reads the trimmed text.
pub open spec fn ttl_secs(input: Seq<char>) -> Result<Option<int>, Seq<char>> {
    let t = trim(input);
    if t.len() == 0 {
        Ok(None)
    } else {
        match parse_uint(t, 0x7fff_ffff_ffff_ffff) {
            Some(n) => if n > 0 {
                Ok(Some(n as int))
            } else {
                Err(ttl_msg())
            },
            None => Err(ttl_msg()),
        }
    }
}

/// Reads the TTL field of the form.
pub fn parse_ttl_secs(input: &str) -> (r: Result<Option<i64>, String>)
    ensures
        match r {
            Ok(Some(n)) => ttl_secs(input@) == Ok::<Option<int>, Seq<char>>(Some(n as int)),
            Ok(None) => ttl_secs(input@) == Ok::<Option<int>, Seq<char>>(None),
            Err(e) => ttl_secs(input@) == Err::<Option<int>, Seq<char>>(e@),
        },
{
    let cs = chars_of(input);
    let t = trim_chars(cs.as_slice());
    if t.len() == 0 {
        return Ok(None);
    }
    match parse_uint_chars(t.as_slice(), 0x7fff_ffff_ffff_ffff) {
        Some(n) => if n > 0 {
            Ok(Some(n as i64))
        } else {
            Err(String::from_str("TTL 必须是正整数（秒）"))
        },
        None => Err(String::from_str("TTL 必须是正整数（秒）")),
    }
}

// ===== Type choice =====

/// The types a key can be created with, in the order they are offered.
pub fn create_types() -> (r: Vec<RedisType>)
    ensures
        r@ == seq![
            RedisType::String,
            RedisType::List,
            RedisType::Hash,
            RedisType::PlainSet,
            RedisType::ZSet,
        ],
{
    let r = vec![
        RedisType::String,
        RedisType::List,
        RedisType::Hash,
        RedisType::PlainSet,
        RedisType::ZSet,
    ];
    assert(r@ =~= seq![
        RedisType::String,
        RedisType::List,
        RedisType::Hash,
        RedisType::PlainSet,
        RedisType::ZSet,
    ]);
    r
}

/// The hint under the value box for type `t`.
pub open spec fn value_hint_text(t: RedisType) -> Seq<char> {
    match t {
        RedisType::String => "字符串值（任意文本）"@,
        RedisType::List => "每行一个元素"@,
        RedisType::PlainSet => "每行一个元素（自动去重）"@,
        RedisType::Hash => "每行 `field value`，空格分隔"@,
        RedisType::ZSet => "每行 `score member`，空格分隔"@,
        _ => ""@,
    }
}

/// The hint under the value box for type `t`.
pub fn value_hint(t: RedisType) -> (r: &'static str)
    ensures
        r@ == value_hint_text(t),
{
    match t {
        RedisType::String => "字符串值（任意文本）",
        RedisType::List => "每行一个元素",
        RedisType::PlainSet => "每行一个元素（自动去重）",
        RedisType::Hash => "每行 `field value`，空格分隔",
        RedisType::ZSet => "每行 `score member`，空格分隔",
        _ => "",
    }
}

} // verus!
