//! The history search box of the Git view: `@name` filters by author,
//! `7d` / `1w` / `2m` / `12h` / `3y` by commit age, other words by message.

use vstd::prelude::*;

use crate::text::{
    chars_of, copy_range, dec, join, join_chars, parse_uint, parse_uint_chars, push_dec, push_str,
    string_of, views, words, words_of,
};

verus! {

/// The unit word of a relative-time suffix.
pub open spec fn unit_word(c: char) -> Option<Seq<char>> {
    if c == 'h' {
        Some("hours"@)
    } else if c == 'd' {
        Some("days"@)
    } else if c == 'w' {
        Some("weeks"@)
    } else if c == 'm' {
        Some("months"@)
    } else if c == 'y' {
        Some("years"@)
    } else {
        None
    }
}

/// `7d` → `7 days ago`: a `u32` count and a unit letter, as `git --since`
/// takes it; `None` for anything else.
pub open spec fn relative_time(s: Seq<char>) -> Option<Seq<char>> {
    if s.len() < 2 {
        None
    } else {
        match parse_uint(s.drop_last(), 0xffff_ffff) {
            None => None,
            Some(n) => match unit_word(s.last()) {
                Some(w) => Some(dec(n) + seq![' '] + w + " ago"@),
                None => None,
            },
        }
    }
}

/// The tokens the age parser takes: the unit is the token's last byte, so
/// its last character is ASCII (or the token is empty).
pub open spec fn relative_time_ok(s: Seq<char>) -> bool {
    s.len() == 0 || (s.last() as int) < 128
}

/// Parses a relative time such as `7d` into `7 days ago`.
pub fn parse_relative_time(s: &str) -> (r: Option<String>)
    requires
        relative_time_ok(s@),
    ensures
        match r {
            Some(t) => relative_time(s@) == Some(t@),
            None => relative_time(s@) is None,
        },
{
    let cs = chars_of(s);
    let n = cs.len();
    if n < 2 {
        return None;
    }
    let num = copy_range(cs.as_slice(), 0, n - 1);
    proof {
        assert(num@ =~= s@.drop_last());
    }
    let v = match parse_uint_chars(num.as_slice(), 0xffff_ffff) {
        Some(v) => v,
        None => return None,
    };
    let unit = cs[n - 1];
    let word: &str = if unit == 'h' {
        "hours"
    } else if unit == 'd' {
        "days"
    } else if unit == 'w' {
        "weeks"
    } else if unit == 'm' {
        "months"
    } else if unit == 'y' {
        "years"
    } else {
        return None;
    };
    let mut out: Vec<char> = Vec::new();
    push_dec(&mut out, v);
    out.push(' ');
    push_str(&mut out, word);
    push_str(&mut out, " ago");
    proof {
        assert(unit_word(s@.last()) == Some(word@));
        assert(out@ =~= dec(v as nat) + seq![' '] + word@ + " ago"@);
    }
    Some(string_of(out.as_slice()))
}

/// An author token: `@` and at least one more character.
pub open spec fn is_author_token(t: Seq<char>) -> bool {
    t.len() >= 2 && t[0] == '@'
}

/// Message words, author and age after the tokens `ws`, left to right; a
/// later author or age replaces an earlier one.
pub open spec fn search_fold(ws: Seq<Seq<char>>) -> (
    Seq<Seq<char>>,
    Option<Seq<char>>,
    Option<Seq<char>>,
)
    decreases ws.len(),
{
    if ws.len() == 0 {
        (Seq::empty(), None, None)
    } else {
        let prev = search_fold(ws.drop_last());
        let t = ws.last();
        if is_author_token(t) {
            (prev.0, Some(t.drop_first()), prev.2)
        } else {
            match relative_time(t) {
                Some(x) => (prev.0, prev.1, Some(x)),
                None => (prev.0.push(t), prev.1, prev.2),
            }
        }
    }
}

/// The search `(message words joined by a space, author, since)` of `q`.
pub open spec fn search_query(q: Seq<char>) -> (
    Option<Seq<char>>,
    Option<Seq<char>>,
    Option<Seq<char>>,
) {
    let f = search_fold(words(q));
    (
        if f.0.len() == 0 {
            None
        } else {
            Some(join(f.0, ' '))
        },
        f.1,
        f.2,
    )
}

/// Every token that is not an author is one the age parser takes.
pub open spec fn search_query_ok(q: Seq<char>) -> bool {
    forall|i: int|
        0 <= i < words(q).len() && !is_author_token(#[trigger] words(q)[i]) ==> relative_time_ok(
            words(q)[i],
        )
}

/// The view of an optional string.
pub open spec fn opt_view(o: Option<String>) -> Option<Seq<char>> {
    match o {
        Some(s) => Some(s@),
        None => None,
    }
}

/// Splits the history search box into `(grep, author, since)`.
pub fn parse_search_query(q: &str) -> (r: (Option<String>, Option<String>, Option<String>))
    requires
        search_query_ok(q@),
    ensures
        (opt_view(r.0), opt_view(r.1), opt_view(r.2)) == search_query(q@),
{
    let cs = chars_of(q);
    let toks = words_of(cs.as_slice());
    let ghost ws = words(q@);
    let mut grep_parts: Vec<Vec<char>> = Vec::new();
    let mut author: Option<String> = None;
    let mut since: Option<String> = None;
    let mut i: usize = 0;
    while i < toks.len()
        invariant
            i <= toks@.len(),
            views(toks@) == ws,
            ws == words(q@),
            search_query_ok(q@),
            (views(grep_parts@), opt_view(author), opt_view(since)) == search_fold(
                ws.take(i as int),
            ),
        decreases toks@.len() - i,
    {
        let tok = &toks[i];
        let ghost t = ws[i as int];
        proof {
            assert(tok@ == t);
            assert(ws.take(i + 1).drop_last() =~= ws.take(i as int));
            assert(ws.take(i + 1).last() == t);
        }
        if tok.len() >= 2 && tok[0] == '@' {
            let name = copy_range(tok.as_slice(), 1, tok.len());
            proof {
                assert(name@ =~= t.drop_first());
            }
            author = Some(string_of(name.as_slice()));
        } else {
            let ts = string_of(tok.as_slice());
            match parse_relative_time(ts.as_str()) {
                Some(x) => {
                    since = Some(x);
                },
                None => {
                    let c = copy_range(tok.as_slice(), 0, tok.len());
                    proof {
                        assert(c@ =~= t);
                    }
                    grep_parts.push(c);
                    proof {
                        assert(views(grep_parts@) =~= search_fold(ws.take(i as int)).0.push(t));
                    }
                },
            }
        }
        i += 1;
    }
    proof {
        assert(ws.take(toks@.len() as int) =~= ws);
    }
    let grep = if grep_parts.len() == 0 {
        None
    } else {
        let j = join_chars(&grep_parts, ' ');
        Some(string_of(j.as_slice()))
    };
    (grep, author, since)
}

} // verus!
