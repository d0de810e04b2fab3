//! Value display modes for scalar Redis values: raw text, pretty JSON, hex
//! dump and base64, and transparent gzip decompression.

use std::io::Read as _;

use base64::Engine as _;
use vstd::prelude::*;
use vstd::utf8::{decode_utf8, encode_utf8, valid_utf8};

use crate::text::{chars_of, dec, push_dec, push_str, string_of};

verus! {

/// How a scalar value is shown.
#[derive(Debug, Clone, Copy, PartialEq, Eq, Structural)]
pub enum ViewMode {
    /// Text as is (UTF-8).
    Raw,
    /// Parsed and pretty-printed JSON.
    Json,
    /// Classic hex dump.
    Hex,
    /// Standard base64.
    Base64,
}

impl ViewMode {
    /// Tab label of the mode.
    pub fn label(&self) -> (r: &'static str)
        ensures
            r@ == view_mode_label(*self),
    {
        match self {
            ViewMode::Raw => "Raw",
            ViewMode::Json => "JSON",
            ViewMode::Hex => "Hex",
            ViewMode::Base64 => "base64",
        }
    }

    /// All modes, in tab order.
    pub fn all() -> (r: Vec<ViewMode>)
        ensures
            r@ == seq![ViewMode::Raw, ViewMode::Json, ViewMode::Hex, ViewMode::Base64],
    {
        let r = vec![ViewMode::Raw, ViewMode::Json, ViewMode::Hex, ViewMode::Base64];
        assert(r@ =~= seq![ViewMode::Raw, ViewMode::Json, ViewMode::Hex, ViewMode::Base64]);
        r
    }

    /// The mode shown first.
    pub fn default_mode() -> (r: ViewMode)
        ensures
            r == ViewMode::Raw,
    {
        ViewMode::Raw
    }
}

/// Label of each mode.
pub open spec fn view_mode_label(m: ViewMode) -> Seq<char> {
    match m {
        ViewMode::Raw => "Raw"@,
        ViewMode::Json => "JSON"@,
        ViewMode::Hex => "Hex"@,
        ViewMode::Base64 => "base64"@,
    }
}

// ===== Hex dump =====

/// Lower-case hex digit of `d < 16`.
pub open spec fn hex_digit(d: nat) -> char {
    if d < 10 {
        (48 + d) as char
    } else {
        (87 + d) as char
    }
}

/// Hex notation of `n` without leading zeros.
pub open spec fn hex(n: nat) -> Seq<char>
    decreases n,
{
    if n < 16 {
        seq![hex_digit(n)]
    } else {
        hex(n / 16).push(hex_digit(n % 16))
    }
}

/// Hex notation of `n` padded with zeros to at least eight digits
/// (`format!("{n:08x}")`).
pub open spec fn hex8(n: nat) -> Seq<char> {
    let h = hex(n);
    if h.len() >= 8 {
        h
    } else {
        Seq::new((8 - h.len()) as nat, |i: int| '0') + h
    }
}

/// Two hex digits of a byte.
pub open spec fn hex2(b: u8) -> Seq<char> {
    seq![hex_digit((b / 16) as nat), hex_digit((b % 16) as nat)]
}

/// The hex column of byte slot `j` of a line: the byte and a space, or three
/// spaces past the end; one more space after slot 7.
pub open spec fn byte_col(chunk: Seq<u8>, j: int) -> Seq<char> {
    (if j < chunk.len() {
        hex2(chunk[j]) + seq![' ']
    } else {
        seq![' ', ' ', ' ']
    }) + (if j == 7 {
        seq![' ']
    } else {
        Seq::empty()
    })
}

/// The hex columns of slots `0..j`.
pub open spec fn byte_cols(chunk: Seq<u8>, j: nat) -> Seq<char>
    decreases j,
{
    if j == 0 {
        Seq::empty()
    } else {
        byte_cols(chunk, (j - 1) as nat) + byte_col(chunk, j - 1)
    }
}

/// A printable ASCII byte as itself, any other byte as `.`.
pub open spec fn ascii_col(b: u8) -> char {
    if 0x20 <= b < 0x7f {
        b as char
    } else {
        '.'
    }
}

/// One line of the dump: offset, sixteen hex columns, ASCII preview.
pub open spec fn dump_line(offset: nat, chunk: Seq<u8>) -> Seq<char> {
    hex8(offset) + seq![' ', ' '] + byte_cols(chunk, 16) + seq![' ', '|'] + chunk.map_values(
        |b: u8| ascii_col(b),
    ) + seq!['|', '\n']
}

/// The `c`-th chunk of sixteen bytes.
pub open spec fn chunk(bytes: Seq<u8>, c: nat) -> Seq<u8> {
    let lo: int = (16 * c) as int;
    let hi: int = if lo + 16 <= bytes.len() {
        lo + 16
    } else {
        bytes.len() as int
    };
    bytes.subrange(lo, hi)
}

/// The lines of the first `c` chunks.
pub open spec fn dump_lines(bytes: Seq<u8>, c: nat) -> Seq<char>
    decreases c,
{
    if c == 0 {
        Seq::empty()
    } else {
        dump_lines(bytes, (c - 1) as nat) + dump_line(16 * (c - 1) as nat, chunk(bytes, (c - 1) as nat))
    }
}

/// Number of chunks of sixteen bytes.
pub open spec fn chunk_count(n: nat) -> nat {
    (n + 15) / 16
}

/// The classic hex dump of `bytes`: one line per sixteen bytes.
pub open spec fn hex_dump(bytes: Seq<u8>) -> Seq<char> {
    dump_lines(bytes, chunk_count(bytes.len()))
}

/// The hex digit of `d`.
fn hex_digit_exec(d: u64) -> (c: char)
    requires
        d < 16,
    ensures
        c == hex_digit(d as nat),
{
    if d < 10 {
        let b: u8 = 48u8 + (d as u8);
        b as char
    } else {
        let b: u8 = 87u8 + (d as u8);
        b as char
    }
}

/// Appends the hex notation of `n` to `v`.
fn push_hex(v: &mut Vec<char>, n: u64)
    ensures
        final(v)@ == old(v)@ + hex(n as nat),
    decreases n,
{
    if n >= 16 {
        push_hex(v, n / 16);
    }
    let c = hex_digit_exec(n % 16);
    v.push(c);
    proof {
        if n >= 16 {
            assert(old(v)@ + hex(n as nat) =~= old(v)@ + hex((n / 16) as nat) + seq![c]);
        } else {
            assert(old(v)@ + hex(n as nat) =~= old(v)@.push(c));
        }
    }
}

/// Powers of sixteen.
pub open spec fn p16(k: nat) -> nat
    decreases k,
{
    if k == 0 {
        1
    } else {
        16 * p16((k - 1) as nat)
    }
}

/// A number below `16^k` has at most `k` hex digits (and always one).
proof fn lemma_hex_len(n: nat, k: nat)
    requires
        k >= 1,
        n < p16(k),
    ensures
        1 <= hex(n).len() <= k,
    decreases n,
{
    if n >= 16 {
        assert(k >= 2) by {
            if k == 1 {
                assert(p16(1) == 16 * p16(0));
            }
        }
        assert(p16(k) == 16 * p16((k - 1) as nat));
        assert(n / 16 < p16((k - 1) as nat)) by (nonlinear_arith)
            requires
                n < 16 * p16((k - 1) as nat),
        ;
        lemma_hex_len(n / 16, (k - 1) as nat);
    }
}

/// Every `u64` has at most sixteen hex digits.
proof fn lemma_hex_len_u64(n: u64)
    ensures
        1 <= hex(n as nat).len() <= 16,
{
    reveal_with_fuel(p16, 17);
    assert(p16(16) == 0x1_0000_0000_0000_0000);
    lemma_hex_len(n as nat, 16);
}

/// Number of hex digits of `n`.
fn hex_len(n: u64) -> (r: usize)
    ensures
        r == hex(n as nat).len(),
    decreases n,
{
    proof {
        lemma_hex_len_u64(n);
    }
    if n >= 16 {
        proof {
            lemma_hex_len_u64(n / 16);
        }
        hex_len(n / 16) + 1
    } else {
        1
    }
}

/// Appends `hex8(n)` to `v`.
fn push_hex8(v: &mut Vec<char>, n: u64)
    ensures
        final(v)@ == old(v)@ + hex8(n as nat),
{
    let l = hex_len(n);
    let mut k: usize = l;
    while k < 8
        invariant
            l == hex(n as nat).len(),
            l <= k <= 8 || (k == l && l >= 8),
            v@ == old(v)@ + Seq::new((k - l) as nat, |i: int| '0'),
        decreases 8 - k,
    {
        v.push('0');
        proof {
            assert(Seq::new((k + 1 - l) as nat, |i: int| '0') =~= Seq::new((k - l) as nat, |i: int| '0').push('0'));
        }
        k += 1;
    }
    let ghost mid = v@;
    push_hex(v, n);
    proof {
        if l >= 8 {
            assert(Seq::new(0, |i: int| '0') =~= Seq::<char>::empty());
            assert(v@ =~= old(v)@ + hex8(n as nat));
        } else {
            assert(v@ =~= old(v)@ + hex8(n as nat));
        }
    }
}

/// The printable preview of one byte.
fn ascii_col_exec(b: u8) -> (c: char)
    ensures
        c == ascii_col(b),
{
    if 0x20 <= b && b < 0x7f {
        b as char
    } else {
        '.'
    }
}

/// Appends one dump line for `chunk` at `offset`.
fn push_dump_line(v: &mut Vec<char>, offset: u64, chunk: &[u8])
    requires
        chunk@.len() <= 16,
    ensures
        final(v)@ == old(v)@ + dump_line(offset as nat, chunk@),
{
    push_hex8(v, offset);
    v.push(' ');
    v.push(' ');
    let ghost start = v@;
    let mut j: usize = 0;
    while j < 16
        invariant
            j <= 16,
            chunk@.len() <= 16,
            v@ == start + byte_cols(chunk@, j as nat),
        decreases 16 - j,
    {
        let ghost before = v@;
        if j < chunk.len() {
            let b = chunk[j];
            v.push(hex_digit_exec((b / 16) as u64));
            v.push(hex_digit_exec((b % 16) as u64));
            v.push(' ');
        } else {
            v.push(' ');
            v.push(' ');
            v.push(' ');
        }
        if j == 7 {
            v.push(' ');
        }
        proof {
            assert(v@ =~= before + byte_col(chunk@, j as int));
            assert(byte_cols(chunk@, (j + 1) as nat) == byte_cols(chunk@, j as nat) + byte_col(chunk@, j as int));
            assert(v@ =~= start + byte_cols(chunk@, (j + 1) as nat));
        }
        j += 1;
    }
    v.push(' ');
    v.push('|');
    let ghost start2 = v@;
    let mut k: usize = 0;
    while k < chunk.len()
        invariant
            k <= chunk@.len(),
            v@ == start2 + chunk@.subrange(0, k as int).map_values(|b: u8| ascii_col(b)),
        decreases chunk@.len() - k,
    {
        v.push(ascii_col_exec(chunk[k]));
        proof {
            assert(chunk@.subrange(0, k + 1).map_values(|b: u8| ascii_col(b)) =~= chunk@.subrange(
                0,
                k as int,
            ).map_values(|b: u8| ascii_col(b)).push(ascii_col(chunk@[k as int])));
        }
        k += 1;
    }
    v.push('|');
    v.push('\n');
    proof {
        assert(chunk@.subrange(0, chunk@.len() as int) =~= chunk@);
        assert(v@ =~= old(v)@ + dump_line(offset as nat, chunk@));
    }
}

/// Copy of `bytes[lo..hi]`.
fn byte_range(bytes: &[u8], lo: usize, hi: usize) -> (r: Vec<u8>)
    requires
        lo <= hi <= bytes@.len(),
    ensures
        r@ == bytes@.subrange(lo as int, hi as int),
{
    let mut r: Vec<u8> = Vec::new();
    let mut i: usize = lo;
    while i < hi
        invariant
            lo <= i <= hi <= bytes@.len(),
            r@ == bytes@.subrange(lo as int, i as int),
        decreases hi - i,
    {
        r.push(bytes[i]);
        proof {
            assert(bytes@.subrange(lo as int, i + 1) =~= bytes@.subrange(lo as int, i as int).push(
                bytes@[i as int],
            ));
        }
        i += 1;
    }
    r
}

/// A character a terminal shows as itself: printable ASCII.
pub open spec fn printable(c: char) -> bool {
    0x20 <= (c as int) < 0x7f
}

/// Every character of `s` is printable ASCII or a line break.
pub open spec fn dump_chars_ok(s: Seq<char>) -> bool {
    forall|i: int| 0 <= i < s.len() ==> (printable(#[trigger] s[i]) || s[i] == '\n')
}

proof fn lemma_dump_chars_concat(a: Seq<char>, b: Seq<char>)
    requires
        dump_chars_ok(a),
        dump_chars_ok(b),
    ensures
        dump_chars_ok(a + b),
{
    assert forall|i: int| 0 <= i < (a + b).len() implies (printable(#[trigger] (a + b)[i]) || (a
        + b)[i] == '\n') by {
        if i < a.len() {
            assert((a + b)[i] == a[i]);
        } else {
            assert((a + b)[i] == b[i - a.len()]);
        }
    }
}

proof fn lemma_hex_printable(n: nat)
    ensures
        dump_chars_ok(hex(n)),
    decreases n,
{
    if n >= 16 {
        lemma_hex_printable(n / 16);
        assert(dump_chars_ok(seq![hex_digit(n % 16)]));
        lemma_dump_chars_concat(hex(n / 16), seq![hex_digit(n % 16)]);
        assert(hex(n) =~= hex(n / 16) + seq![hex_digit(n % 16)]);
    } else {
        assert(printable(hex_digit(n)));
    }
}

proof fn lemma_byte_cols_printable(chunk: Seq<u8>, j: nat)
    ensures
        dump_chars_ok(byte_cols(chunk, j)),
        byte_cols(chunk, j).len() == 3 * j + (if j >= 8 {
            1int
        } else {
            0
        }),
    decreases j,
{
    if j > 0 {
        lemma_byte_cols_printable(chunk, (j - 1) as nat);
        let c = byte_col(chunk, j - 1);
        if j - 1 < chunk.len() {
            let b = chunk[j - 1];
            assert(printable(hex_digit((b / 16) as nat)));
            assert(printable(hex_digit((b % 16) as nat)));
        }
        assert(dump_chars_ok(c));
        lemma_dump_chars_concat(byte_cols(chunk, (j - 1) as nat), c);
    }
}

/// The ASCII column of a chunk.
proof fn lemma_ascii_col_printable(chunk: Seq<u8>)
    ensures
        dump_chars_ok(chunk.map_values(|b: u8| ascii_col(b))),
{
}

proof fn lemma_dump_line_printable(offset: nat, chunk: Seq<u8>)
    ensures
        dump_chars_ok(dump_line(offset, chunk)),
{
    let h = hex(offset);
    lemma_hex_printable(offset);
    let h8 = hex8(offset);
    if h.len() < 8 {
        let z = Seq::new((8 - h.len()) as nat, |i: int| '0');
        assert(dump_chars_ok(z));
        lemma_dump_chars_concat(z, h);
    }
    lemma_byte_cols_printable(chunk, 16);
    lemma_ascii_col_printable(chunk);
    let a = h8 + seq![' ', ' '];
    assert(dump_chars_ok(seq![' ', ' ']));
    lemma_dump_chars_concat(h8, seq![' ', ' ']);
    let b = a + byte_cols(chunk, 16);
    lemma_dump_chars_concat(a, byte_cols(chunk, 16));
    assert(dump_chars_ok(seq![' ', '|']));
    let c = b + seq![' ', '|'];
    lemma_dump_chars_concat(b, seq![' ', '|']);
    let d = c + chunk.map_values(|x: u8| ascii_col(x));
    lemma_dump_chars_concat(c, chunk.map_values(|x: u8| ascii_col(x)));
    assert(dump_chars_ok(seq!['|', '\n']));
    lemma_dump_chars_concat(d, seq!['|', '\n']);
}

proof fn lemma_dump_lines_printable(bytes: Seq<u8>, c: nat)
    ensures
        dump_chars_ok(dump_lines(bytes, c)),
    decreases c,
{
    if c > 0 {
        lemma_dump_lines_printable(bytes, (c - 1) as nat);
        lemma_dump_line_printable(16 * (c - 1) as nat, chunk(bytes, (c - 1) as nat));
        lemma_dump_chars_concat(
            dump_lines(bytes, (c - 1) as nat),
            dump_line(16 * (c - 1) as nat, chunk(bytes, (c - 1) as nat)),
        );
    }
}

/// Whatever the bytes, the hex dump is made of printable ASCII and line
/// breaks only: bytes outside printable ASCII never reach the screen as
/// themselves.
pub proof fn lemma_hex_dump_printable(bytes: Seq<u8>)
    ensures
        forall|i: int|
            0 <= i < hex_dump(bytes).len() ==> (0x20 <= (#[trigger] hex_dump(bytes)[i] as int) < 0x7f
                || hex_dump(bytes)[i] == '\n'),
{
    lemma_dump_lines_printable(bytes, chunk_count(bytes.len()));
}

/// In a line of the dump (offset below `16^8`, at most sixteen bytes), the
/// ASCII preview starts after the sixty-one characters of offset, hex
/// columns and ` |`: byte `j` shows there as itself when it is printable
/// ASCII and as `.` otherwise.
pub proof fn lemma_dump_line_ascii_column(offset: nat, chunk: Seq<u8>, j: int)
    requires
        offset < p16(8),
        chunk.len() <= 16,
        0 <= j < chunk.len(),
    ensures
        dump_line(offset, chunk).len() == 61 + chunk.len() + 2,
        0x20 <= chunk[j] < 0x7f ==> dump_line(offset, chunk)[61 + j] == chunk[j] as char,
        !(0x20 <= chunk[j] < 0x7f) ==> dump_line(offset, chunk)[61 + j] == '.',
{
    lemma_hex_len(offset, 8);
    let h = hex(offset);
    assert(hex8(offset).len() == 8);
    lemma_byte_cols_printable(chunk, 16);
    let pre = hex8(offset) + seq![' ', ' '] + byte_cols(chunk, 16) + seq![' ', '|'];
    assert(pre.len() == 61);
    let col = chunk.map_values(|b: u8| ascii_col(b));
    assert(dump_line(offset, chunk) == pre + col + seq!['|', '\n']);
    assert((pre + col + seq!['|', '\n'])[61 + j] == col[j]);
}

/// Classic hex dump: sixteen bytes per line, offset on the left, printable
/// ASCII on the right.
pub fn to_hex_dump(bytes: &[u8]) -> (r: String)
    ensures
        r@ == hex_dump(bytes@),
{
    let n = bytes.len();
    let mut out: Vec<char> = Vec::new();
    let mut c: usize = 0;
    let mut lo: usize = 0;
    while lo < n
        invariant
            n == bytes@.len(),
            lo == 16 * c,
            lo <= n + 15,
            lo < n ==> c < chunk_count(n as nat),
            lo >= n ==> c == chunk_count(n as nat),
            out@ == dump_lines(bytes@, c as nat),
        decreases n + 16 - lo,
    {
        let hi = if n - lo >= 16 {
            lo + 16
        } else {
            n
        };
        let piece = byte_range(bytes, lo, hi);
        proof {
            assert(piece@ == chunk(bytes@, c as nat));
        }
        push_dump_line(&mut out, lo as u64, piece.as_slice());
        proof {
            assert(dump_lines(bytes@, (c + 1) as nat) == dump_lines(bytes@, c as nat) + dump_line(
                (16 * c) as nat,
                chunk(bytes@, c as nat),
            ));
        }
        c += 1;
        if hi == n {
            proof {
                assert(c == chunk_count(n as nat));
            }
            return string_of(out.as_slice());
        }
        lo = hi;
    }
    proof {
        assert(c == chunk_count(n as nat));
    }
    string_of(out.as_slice())
}

// ===== Base64 =====

/// The base64 digit of `v < 64` in the standard alphabet.
pub open spec fn b64_digit(v: nat) -> char {
    if v < 26 {
        (65 + v) as char
    } else if v < 52 {
        (71 + v) as char
    } else if v < 62 {
        (v - 4) as char
    } else if v == 62 {
        '+'
    } else {
        '/'
    }
}

/// Standard base64 (RFC 4648 alphabet, `=` padding) of `s`.
pub open spec fn b64(s: Seq<u8>) -> Seq<char>
    decreases s.len(),
{
    if s.len() == 0 {
        Seq::empty()
    } else if s.len() == 1 {
        seq![b64_digit((s[0] / 4) as nat), b64_digit(((s[0] % 4) * 16) as nat), '=', '=']
    } else if s.len() == 2 {
        seq![
            b64_digit((s[0] / 4) as nat),
            b64_digit(((s[0] % 4) * 16 + s[1] / 16) as nat),
            b64_digit(((s[1] % 16) * 4) as nat),
            '=',
        ]
    } else {
        seq![
            b64_digit((s[0] / 4) as nat),
            b64_digit(((s[0] % 4) * 16 + s[1] / 16) as nat),
            b64_digit(((s[1] % 16) * 4 + s[2] / 64) as nat),
            b64_digit((s[2] % 64) as nat),
        ] + b64(s.subrange(3, s.len() as int))
    }
}

/// Standard base64 of `bytes`.
///
/// Trusted: calls `base64::Engine::encode` on the `STANDARD` engine; the
/// contract claims the RFC 4648 encoding with the standard alphabet and `=`
/// padding, which is what that engine is documented to produce. The length
/// bound keeps the crate's output size computation from overflowing, on which
/// it panics.
#[verifier::external_body]
fn base64_standard(bytes: &[u8]) -> (r: String)
    requires
        bytes@.len() <= usize::MAX / 2,
    ensures
        r@ == b64(bytes@),
{
    base64::engine::general_purpose::STANDARD.encode(bytes)
}

// ===== UTF-8 and gzip =====

/// The text that `bytes` encode in UTF-8, where they are valid UTF-8.
///
/// Trusted: calls `std::str::from_utf8`; the contract claims what its
/// documentation says: success exactly on valid UTF-8, with the decoded text.
#[verifier::external_body]
pub(crate) fn utf8_text(bytes: &[u8]) -> (r: Option<String>)
    ensures
        r is Some <==> valid_utf8(bytes@),
        r matches Some(s) ==> s@ == decode_utf8(bytes@),
{
    std::str::from_utf8(bytes).ok().map(|s| s.to_string())
}

/// The bytes that a gzip stream decompresses to, or `None` where decoding
/// fails.
pub uninterp spec fn gunzip(data: Seq<u8>) -> Option<Seq<u8>>;

/// Decompresses a gzip stream.
///
/// Trusted: reads a `flate2::read::GzDecoder` over `bytes` to the end; the
/// contract names the outcome, which depends on the bytes alone.
#[verifier::external_body]
fn gzip_decode(bytes: &[u8]) -> (r: Option<Vec<u8>>)
    ensures
        match r {
            Some(v) => gunzip(bytes@) == Some(v@),
            None => gunzip(bytes@) is None,
        },
{
    let mut decoder = flate2::read::GzDecoder::new(bytes);
    let mut out = Vec::new();
    match decoder.read_to_end(&mut out) {
        Ok(_) => Some(out),
        Err(_) => None,
    }
}

/// The data starts with the gzip magic bytes `1f 8b`.
pub open spec fn has_gzip_magic(bytes: Seq<u8>) -> bool {
    bytes.len() >= 2 && bytes[0] == 0x1f && bytes[1] == 0x8b
}

/// Decompresses `bytes` when they start with the gzip magic; `None` when they
/// do not or decompression fails.
pub fn try_decompress_gzip(bytes: &[u8]) -> (r: Option<Vec<u8>>)
    ensures
        !has_gzip_magic(bytes@) ==> r is None,
        has_gzip_magic(bytes@) ==> match r {
            Some(v) => gunzip(bytes@) == Some(v@),
            None => gunzip(bytes@) is None,
        },
{
    if bytes.len() < 2 || bytes[0] != 0x1f || bytes[1] != 0x8b {
        return None;
    }
    gzip_decode(bytes)
}


// ===== JSON =====

/// What `serde_json` makes of the bytes: the document pretty-printed
/// (`None` where printing fails), or the message of the parse error.
pub uninterp spec fn json_outcome(bytes: Seq<u8>) -> Result<Option<Seq<char>>, Seq<char>>;

/// The view of a reformatting outcome.
pub open spec fn json_outcome_view(r: Result<Option<String>, String>) -> Result<
    Option<Seq<char>>,
    Seq<char>,
> {
    match r {
        Ok(Some(t)) => Ok(Some(t@)),
        Ok(None) => Ok(None),
        Err(e) => Err(e@),
    }
}

/// Whether `serde_json` accepts the bytes as one JSON document.
pub open spec fn json_parses(bytes: Seq<u8>) -> bool {
    json_outcome(bytes) is Ok
}

/// Parses one JSON document and pretty-prints it with a two-space indent.
///
/// Trusted: calls `serde_json::from_slice::<serde_json::Value>`, then
/// `serde_json::to_string_pretty` on the document, or the error's `Display`.
/// The contract names the outcome, which depends on the bytes alone (the
/// document's maps keep their keys sorted).
#[verifier::external_body]
fn json_reformat(bytes: &[u8]) -> (r: Result<Option<String>, String>)
    ensures
        json_outcome_view(r) == json_outcome(bytes@),
{
    match serde_json::from_slice::<serde_json::Value>(bytes) {
        Ok(v) => Ok(serde_json::to_string_pretty(&v).ok()),
        Err(e) => Err(e.to_string()),
    }
}

/// The text shown under a JSON parse error: the data as UTF-8, or a note that
/// it is not UTF-8.
pub open spec fn text_preview(bytes: Seq<u8>) -> Seq<char> {
    if valid_utf8(bytes) {
        decode_utf8(bytes)
    } else {
        "（非 UTF-8）"@
    }
}

/// The JSON view of `bytes`: the pretty-printed document, a note where it
/// cannot be printed, or the parse error followed by the data.
pub open spec fn json_shown(bytes: Seq<u8>) -> Seq<char> {
    match json_outcome(bytes) {
        Ok(Some(t)) => t,
        Ok(None) => "(JSON 序列化失败)"@,
        Err(e) => "(无法解析为 JSON："@ + e + ")\n\n"@ + text_preview(bytes),
    }
}

/// Pretty-printed JSON; where the data is not JSON, the parse error followed
/// by the data itself.
pub fn pretty_json(bytes: &[u8]) -> (r: String)
    ensures
        r@ == json_shown(bytes@),
{
    match json_reformat(bytes) {
        Ok(Some(s)) => s,
        Ok(None) => String::from_str("(JSON 序列化失败)"),
        Err(msg) => {
            let mut out: Vec<char> = Vec::new();
            push_str(&mut out, "(无法解析为 JSON：");
            push_str(&mut out, msg.as_str());
            push_str(&mut out, ")\n\n");
            match utf8_text(bytes) {
                Some(t) => push_str(&mut out, t.as_str()),
                None => push_str(&mut out, "（非 UTF-8）"),
            }
            proof {
                assert(out@ =~= "(无法解析为 JSON："@ + msg@ + ")\n\n"@ + text_preview(bytes@));
            }
            string_of(out.as_slice())
        },
    }
}

/// Bytes as shown in `mode`: Raw is the UTF-8 text, or a note with the size
/// where the bytes are not UTF-8.
pub open spec fn bytes_shown(bytes: Seq<u8>, mode: ViewMode) -> Seq<char> {
    match mode {
        ViewMode::Raw => if valid_utf8(bytes) {
            decode_utf8(bytes)
        } else {
            "["@ + dec(bytes.len()) + " bytes：非 UTF-8，请切到 Hex/base64 查看]"@
        },
        ViewMode::Json => json_shown(bytes),
        ViewMode::Hex => hex_dump(bytes),
        ViewMode::Base64 => b64(bytes),
    }
}

/// A text as shown in `mode`: Raw is the text itself, the other modes show
/// its UTF-8 bytes.
pub open spec fn text_shown(text: Seq<char>, mode: ViewMode) -> Seq<char> {
    match mode {
        ViewMode::Raw => text,
        _ => bytes_shown(encode_utf8(text), mode),
    }
}

/// A text is shown exactly as its UTF-8 bytes are, in every mode.
pub proof fn lemma_text_shown_as_bytes(text: Seq<char>, mode: ViewMode)
    ensures
        text_shown(text, mode) == bytes_shown(encode_utf8(text), mode),
{
    vstd::utf8::encode_utf8_valid_utf8(text);
    vstd::utf8::encode_utf8_decode_utf8(text);
}

/// `bytes` shown in mode `mode`. Raw shows UTF-8 text, or a note with the
/// size where the bytes are not UTF-8.
pub fn render_bytes(bytes: &[u8], mode: ViewMode) -> (r: String)
    requires
        bytes@.len() <= usize::MAX / 2,
    ensures
        r@ == bytes_shown(bytes@, mode),
{
    match mode {
        ViewMode::Raw => match utf8_text(bytes) {
            Some(s) => s,
            None => {
                let mut out: Vec<char> = Vec::new();
                push_str(&mut out, "[");
                push_dec(&mut out, bytes.len() as u64);
                push_str(&mut out, " bytes：非 UTF-8，请切到 Hex/base64 查看]");
                proof {
                    assert(out@ =~= "["@ + dec(bytes@.len()) + " bytes：非 UTF-8，请切到 Hex/base64 查看]"@);
                }
                string_of(out.as_slice())
            },
        },
        ViewMode::Json => pretty_json(bytes),
        ViewMode::Hex => to_hex_dump(bytes),
        ViewMode::Base64 => base64_standard(bytes),
    }
}

/// `text` shown in mode `mode`; the non-raw modes work on its UTF-8 bytes.
pub fn render_text(text: &str, mode: ViewMode) -> (r: String)
    requires
        encode_utf8(text@).len() <= usize::MAX / 2,
    ensures
        r@ == text_shown(text@, mode),
{
    match mode {
        ViewMode::Raw => String::from_str(text),
        ViewMode::Json => pretty_json(text.as_bytes()),
        ViewMode::Hex => to_hex_dump(text.as_bytes()),
        ViewMode::Base64 => base64_standard(text.as_bytes()),
    }
}

} // verus!
