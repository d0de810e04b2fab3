//! The small edit dialogs of a key: what each one checks in its input and the
//! write command it sends.

use vstd::prelude::*;

use crate::key_create::{
    flat_pairs, nonempty_lines, pair_lines, pair_views, pairs_result, parse_lines, parse_kv_pairs,
};
use crate::text::{
    chars_of, contains_string, dec, lines, parse_uint, parse_uint_chars, push_dec, push_str, str_views, string_of, trim,
    trim_chars,
};

verus! {

/// The view of a command result.
pub open spec fn cmd_result(r: Result<Vec<String>, String>) -> Result<Seq<Seq<char>>, Seq<char>> {
    match r {
        Ok(v) => Ok(str_views(v@)),
        Err(e) => Err(e@),
    }
}

// ===== Stream entry =====

/// `field value` per line, as the stream entry dialog reads it.
pub fn parse_field_pairs(raw: &str) -> (r: Result<Vec<(String, String)>, String>)
    ensures
        pairs_result(r) == pair_lines(lines(raw@), false),
{
    parse_kv_pairs(raw)
}

/// `XADD key * f1 v1 ...` from the field lines `raw`, or why not.
pub open spec fn stream_entry_cmd(key: Seq<char>, raw: Seq<char>) -> Result<Seq<Seq<char>>, Seq<char>> {
    match pair_lines(lines(raw), false) {
        Err(e) => Err(e),
        Ok(p) => if p.len() == 0 {
            Err("至少需要 1 个字段"@)
        } else {
            Ok(seq!["XADD"@, key, "*"@] + flat_pairs(p))
        },
    }
}

/// The command that appends an entry with the fields of `raw` to the stream `key`.
pub fn stream_entry_argv(key: &str, raw: &str) -> (r: Result<Vec<String>, String>)
    ensures
        cmd_result(r) == stream_entry_cmd(key@, raw@),
{
    let pairs = match parse_field_pairs(raw) {
        Ok(p) => p,
        Err(e) => return Err(e),
    };
    if pairs.len() == 0 {
        return Err(String::from_str("至少需要 1 个字段"));
    }
    let mut argv: Vec<String> = Vec::new();
    argv.push(String::from_str("XADD"));
    argv.push(String::from_str(key));
    argv.push(String::from_str("*"));
    let ghost pv = pair_views(pairs@);
    let ghost head = seq!["XADD"@, key@, "*"@];
    proof {
        assert(str_views(argv@) =~= head);
        assert(pv.take(0) =~= Seq::<(Seq<char>, Seq<char>)>::empty());
        assert(head + flat_pairs(pv.take(0)) =~= head);
    }
    let mut i: usize = 0;
    while i < pairs.len()
        invariant
            i <= pairs@.len(),
            pv == pair_views(pairs@),
            str_views(argv@) == head + flat_pairs(pv.take(i as int)),
        decreases pairs@.len() - i,
    {
        let f = pairs[i].0.clone();
        let v = pairs[i].1.clone();
        proof {
            assert(f@ == pairs@[i as int].0@);
            assert(v@ == pairs@[i as int].1@);
            assert(pv.take(i + 1).drop_last() =~= pv.take(i as int));
        }
        let ghost before = argv@;
        argv.push(f);
        argv.push(v);
        proof {
            assert(str_views(argv@) =~= str_views(before) + seq![pv[i as int].0, pv[i as int].1]);
        }
        i += 1;
    }
    proof {
        assert(pv.take(pairs@.len() as int) =~= pv);
    }
    Ok(argv)
}

// ===== Hash field =====

/// `HSET key field value`: the field is the one being edited, or the trimmed
/// typed name when adding; a blank name is refused.
pub open spec fn hash_field_cmd(key: Seq<char>, editing: Option<Seq<char>>, field_input: Seq<char>, value: Seq<char>) -> Result<Seq<Seq<char>>, Seq<char>> {
    let field = match editing {
        Some(f) => f,
        None => trim(field_input),
    };
    if field.len() == 0 {
        Err("请填写字段名"@)
    } else {
        Ok(seq!["HSET"@, key, field, value])
    }
}

/// The command that saves a hash field; `editing` is the field being edited,
/// `None` when a field is added.
pub fn hash_field_argv(key: &str, editing: Option<&str>, field_input: &str, value: &str) -> (r: Result<Vec<String>, String>)
    ensures
        cmd_result(r) == hash_field_cmd(
            key@,
            match editing {
                Some(f) => Some(f@),
                None => None,
            },
            field_input@,
            value@,
        ),
{
    let fc: Vec<char> = match editing {
        Some(f) => chars_of(f),
        None => trim_chars(chars_of(field_input).as_slice()),
    };
    if fc.len() == 0 {
        return Err(String::from_str("请填写字段名"));
    }
    let field = string_of(fc.as_slice());
    let mut argv: Vec<String> = Vec::new();
    argv.push(String::from_str("HSET"));
    argv.push(String::from_str(key));
    argv.push(field);
    argv.push(String::from_str(value));
    proof {
        assert(str_views(argv@) =~= seq!["HSET"@, key@, argv@[2]@, value@]);
    }
    Ok(argv)
}

// ===== List push =====

/// The end of a list that new elements go to.
#[derive(Debug, Clone, Copy, PartialEq, Eq, Structural)]
pub enum PushDir {
    Head,
    Tail,
}

/// `LPUSH` or `RPUSH key e1 e2 ...`, one element per non-empty line of `raw`.
pub open spec fn list_push_cmd(key: Seq<char>, raw: Seq<char>, dir: PushDir) -> Result<Seq<Seq<char>>, Seq<char>> {
    let e = nonempty_lines(lines(raw));
    if e.len() == 0 {
        Err("至少填写 1 个元素"@)
    } else {
        Ok(seq![if dir == PushDir::Head { "LPUSH"@ } else { "RPUSH"@ }, key] + e)
    }
}

/// `[cmd, key]` followed by `elems`.
fn with_elems(cmd: &str, key: &str, elems: Vec<String>) -> (r: Vec<String>)
    ensures
        str_views(r@) == seq![cmd@, key@] + str_views(elems@),
{
    let mut argv: Vec<String> = Vec::new();
    argv.push(String::from_str(cmd));
    argv.push(String::from_str(key));
    let ghost head = seq![cmd@, key@];
    let mut i: usize = 0;
    while i < elems.len()
        invariant
            i <= elems@.len(),
            str_views(argv@) == head + str_views(elems@).take(i as int),
        decreases elems@.len() - i,
    {
        let ghost before = argv@;
        let e = elems[i].clone();
        assert(e@ == elems@[i as int]@);
        argv.push(e);
        proof {
            assert(str_views(argv@) =~= str_views(before).push(e@));
            assert(str_views(elems@).take(i + 1) =~= str_views(elems@).take(i as int).push(e@));
        }
        i += 1;
    }
    proof {
        assert(str_views(elems@).take(elems@.len() as int) =~= str_views(elems@));
    }
    argv
}

/// The command that pushes the lines of `raw` onto the list `key`.
pub fn list_push_argv(key: &str, raw: &str, dir: PushDir) -> (r: Result<Vec<String>, String>)
    ensures
        cmd_result(r) == list_push_cmd(key@, raw@, dir),
{
    let elems = parse_lines(raw);
    if elems.len() == 0 {
        return Err(String::from_str("至少填写 1 个元素"));
    }
    let cmd = match dir {
        PushDir::Head => "LPUSH",
        PushDir::Tail => "RPUSH",
    };
    Ok(with_elems(cmd, key, elems))
}

// ===== Set members =====

/// `s` with every repeat of an earlier item left out, first occurrences in order.
pub open spec fn dedup_first(s: Seq<Seq<char>>) -> Seq<Seq<char>>
    decreases s.len(),
{
    if s.len() == 0 {
        Seq::empty()
    } else {
        let r = dedup_first(s.drop_last());
        if r.contains(s.last()) {
            r
        } else {
            r.push(s.last())
        }
    }
}

/// The members sent by a set form name each typed member exactly once: none
/// repeats, and every typed member, and nothing else, is among them.
pub proof fn lemma_dedup_first_members(s: Seq<Seq<char>>)
    ensures
        dedup_first(s).no_duplicates(),
        forall|x: Seq<char>| #[trigger] dedup_first(s).contains(x) <==> s.contains(x),
        dedup_first(s).len() <= s.len(),
    decreases s.len(),
{
    if s.len() > 0 {
        let p = s.drop_last();
        lemma_dedup_first_members(p);
        let r = dedup_first(p);
        assert forall|x: Seq<char>| #[trigger] dedup_first(s).contains(x) <==> s.contains(x) by {
            if s.contains(x) {
                let k = choose|k: int| 0 <= k < s.len() && s[k] == x;
                if k < s.len() - 1 {
                    assert(p[k] == x);
                }
            }
            if p.contains(x) {
                let k = choose|k: int| 0 <= k < p.len() && p[k] == x;
                assert(s[k] == x);
            }
            if !r.contains(s.last()) {
                if dedup_first(s).contains(x) && x != s.last() {
                    let k = choose|k: int| 0 <= k < dedup_first(s).len() && dedup_first(s)[k] == x;
                    assert(r[k] == x);
                }
                if r.contains(x) {
                    let k = choose|k: int| 0 <= k < r.len() && r[k] == x;
                    assert(dedup_first(s)[k] == x);
                }
                assert(dedup_first(s)[r.len() as int] == s.last());
            }
        }
        if !r.contains(s.last()) {
            let d = dedup_first(s);
            assert forall|i: int, j: int| 0 <= i < d.len() && 0 <= j < d.len() && i != j implies d[i]
                != d[j] by {
                if i < r.len() && j < r.len() {
                    assert(d[i] == r[i] && d[j] == r[j]);
                } else if i < r.len() {
                    assert(d[i] == r[i]);
                } else if j < r.len() {
                    assert(d[j] == r[j]);
                }
            }
        }
    }
}

/// `SADD key m1 m2 ...` with the members `elems`, repeats left out.
pub open spec fn set_add_cmd(key: Seq<char>, elems: Seq<Seq<char>>) -> Result<Seq<Seq<char>>, Seq<char>> {
    if elems.len() == 0 {
        Err("至少填写 1 个成员"@)
    } else {
        Ok(seq!["SADD"@, key] + dedup_first(elems))
    }
}

/// The command that adds the members `elems` to the set `key`.
pub fn set_add_argv(key: &str, elems: &Vec<String>) -> (r: Result<Vec<String>, String>)
    ensures
        cmd_result(r) == set_add_cmd(key@, str_views(elems@)),
{
    if elems.len() == 0 {
        return Err(String::from_str("至少填写 1 个成员"));
    }
    let ghost ev = str_views(elems@);
    let mut seen: Vec<String> = Vec::new();
    let mut i: usize = 0;
    proof {
        assert(ev.take(0) =~= Seq::<Seq<char>>::empty());
        assert(str_views(seen@) =~= Seq::<Seq<char>>::empty());
    }
    while i < elems.len()
        invariant
            i <= elems@.len(),
            ev == str_views(elems@),
            str_views(seen@) == dedup_first(ev.take(i as int)),
        decreases elems@.len() - i,
    {
        proof {
            assert(ev.take(i + 1).drop_last() =~= ev.take(i as int));
            assert(ev.take(i + 1).last() == elems@[i as int]@);
        }
        if !contains_string(&seen, &elems[i]) {
            let ghost before = seen@;
            let e = elems[i].clone();
            assert(e@ == elems@[i as int]@);
            seen.push(e);
            proof {
                assert(str_views(seen@) =~= str_views(before).push(e@));
            }
        }
        i += 1;
    }
    proof {
        assert(ev.take(elems@.len() as int) =~= ev);
    }
    Ok(with_elems("SADD", key, seen))
}

// ===== TTL edit =====

/// The seconds typed into the TTL dialog: blank and non-positive input are
/// refused with their own messages.
pub open spec fn ttl_edit_secs(raw: Seq<char>) -> Result<int, Seq<char>> {
    let t = trim(raw);
    if t.len() == 0 {
        Err("请输入秒数（或点击「设为永久」）"@)
    } else {
        match parse_uint(t, 0x7fff_ffff_ffff_ffff) {
            Some(n) => if n > 0 {
                Ok(n as int)
            } else {
                Err("秒数必须是正整数"@)
            },
            None => Err("秒数必须是正整数"@),
        }
    }
}

/// Reads the seconds typed into the TTL dialog.
pub fn parse_ttl_edit(raw: &str) -> (r: Result<i64, String>)
    ensures
        match r {
            Ok(n) => ttl_edit_secs(raw@) == Ok::<int, Seq<char>>(n as int),
            Err(e) => ttl_edit_secs(raw@) == Err::<int, Seq<char>>(e@),
        },
{
    let t = trim_chars(chars_of(raw).as_slice());
    if t.len() == 0 {
        return Err(String::from_str("请输入秒数（或点击「设为永久」）"));
    }
    match parse_uint_chars(t.as_slice(), 0x7fff_ffff_ffff_ffff) {
        Some(n) => if n > 0 {
            Ok(n as i64)
        } else {
            Err(String::from_str("秒数必须是正整数"))
        },
        None => Err(String::from_str("秒数必须是正整数")),
    }
}

/// The label of a new TTL: `{secs}s`, or `永久` for none.
pub open spec fn ttl_label_text(secs: Option<i64>) -> Seq<char> {
    match secs {
        Some(s) => dec(s as nat) + "s"@,
        None => "永久"@,
    }
}

/// The label shown after the TTL of a key was changed.
pub fn ttl_label(secs: Option<i64>) -> (r: String)
    requires
        secs matches Some(s) ==> s > 0,
    ensures
        r@ == ttl_label_text(secs),
{
    match secs {
        Some(s) => {
            let mut v: Vec<char> = Vec::new();
            push_dec(&mut v, s as u64);
            push_str(&mut v, "s");
            string_of(v.as_slice())
        },
        None => String::from_str("永久"),
    }
}

} // verus!
