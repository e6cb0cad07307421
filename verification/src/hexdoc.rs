//! Hex `DOC` literals of z4 sources: decoding them to bytes and rendering
//! those bytes for a reader (the hex bridge).
use vstd::prelude::*;
use crate::text::{opt_view};
use crate::text::{
    ascii_char, byte_len, chars_of, digit_char, eq_ignore_case, eq_ignore_case_exec, hex0x_s,
    is_ascii_hex, is_ascii_hex_exec, matches_at, occurs_at, push_char, push_chars, push_hex0x,
    push_str, res_view, starts_with_s, str_opt, string_of_range, trim_bounds, trim_s,
};
use crate::z4::{
    label_name, label_name_exec, labels_s, lemma_next_nl, line_text, line_text_end, next_nl,
    next_nl_exec, symbol_agrees, symbol_line_end, LabelSpec, Symbol, Z4LanguageDriver,
};

verus! {



// ───────────────────────── decoding a literal ─────────────────────────

/// `s` without its leading `'"'` characters.
pub open spec fn strip_quotes_start(s: Seq<char>) -> Seq<char>
    decreases s.len(),
{
    if s.len() > 0 && s[0] == '"' {
        strip_quotes_start(s.drop_first())
    } else {
        s
    }
}

/// `s` without its trailing `'"'` characters.
pub open spec fn strip_quotes_end(s: Seq<char>) -> Seq<char>
    decreases s.len(),
{
    if s.len() > 0 && s.last() == '"' {
        strip_quotes_end(s.drop_last())
    } else {
        s
    }
}

/// `str::trim_matches('"')`.
pub open spec fn trim_quotes_s(s: Seq<char>) -> Seq<char> {
    strip_quotes_end(strip_quotes_start(s))
}

/// `s` without its trailing two-character escapes `\0`.
pub open spec fn strip_nul_escapes(s: Seq<char>) -> Seq<char>
    decreases s.len(),
{
    if s.len() >= 2 && s[s.len() - 2] == '\\' && s[s.len() - 1] == '0' {
        strip_nul_escapes(s.take(s.len() - 2))
    } else {
        s
    }
}

/// The hexadecimal digits of `s`, in order.
pub open spec fn hex_digits_of(s: Seq<char>) -> Seq<char>
    decreases s.len(),
{
    if s.len() == 0 {
        s
    } else if is_ascii_hex(s.last()) {
        hex_digits_of(s.drop_last()).push(s.last())
    } else {
        hex_digits_of(s.drop_last())
    }
}

/// Value of a hexadecimal digit.
pub open spec fn hex_val(c: char) -> nat {
    if '0' <= c && c <= '9' {
        (c as u32 - '0' as u32) as nat
    } else if 'a' <= c && c <= 'f' {
        (c as u32 - 'a' as u32 + 10) as nat
    } else if 'A' <= c && c <= 'F' {
        (c as u32 - 'A' as u32 + 10) as nat
    } else {
        0
    }
}

/// `d` with a `'0'` in front when its length is odd.
pub open spec fn pad_even(d: Seq<char>) -> Seq<char> {
    if d.len() % 2 == 1 {
        seq!['0'] + d
    } else {
        d
    }
}

/// The bytes spelled by consecutive pairs of hex digits.
pub open spec fn pairs_to_bytes(d: Seq<char>) -> Seq<u8> {
    Seq::new(d.len() / 2, |i: int| (hex_val(d[2 * i]) * 16 + hex_val(d[2 * i + 1])) as u8)
}

/// The bytes of a hex `DOC` literal such as `"0x41444400\0"`, or `None` when,
/// once blanks and quotes are trimmed, it does not start with `0x`.
pub open spec fn decode_hex_s(raw: Seq<char>) -> Option<Seq<u8>> {
    let t = trim_quotes_s(trim_s(raw));
    if starts_with_s(t, "0x"@) {
        Some(pairs_to_bytes(pad_even(hex_digits_of(strip_nul_escapes(t.subrange(2, t.len() as int))))))
    } else {
        None
    }
}

pub open spec fn missing_prefix_msg() -> Seq<char> {
    "Expected hex DOC literal starting with 0x"@
}

fn hex_val_exec(c: char) -> (r: u8)
    requires
        is_ascii_hex(c),
    ensures
        r as nat == hex_val(c),
        r < 16,
{
    if '0' <= c && c <= '9' {
        ((c as u32) - ('0' as u32)) as u8
    } else if 'a' <= c && c <= 'f' {
        ((c as u32) - ('a' as u32) + 10) as u8
    } else {
        ((c as u32) - ('A' as u32) + 10) as u8
    }
}

/// Bounds `[a, b)` of `trim_quotes_s(v[lo..hi])`.
fn trim_quotes_bounds(v: &[char], lo: usize, hi: usize) -> (r: (usize, usize))
    requires
        lo <= hi <= v.len(),
    ensures
        lo <= r.0 <= r.1 <= hi,
        v@.subrange(r.0 as int, r.1 as int) == trim_quotes_s(v@.subrange(lo as int, hi as int)),
{
    let mut a = lo;
    while a < hi && v[a] == '"'
        invariant
            lo <= a <= hi <= v.len(),
            strip_quotes_start(v@.subrange(lo as int, hi as int)) == strip_quotes_start(
                v@.subrange(a as int, hi as int),
            ),
        decreases hi - a,
    {
        assert(v@.subrange(a as int, hi as int).drop_first() == v@.subrange(a + 1, hi as int));
        a += 1;
    }
    let mut b = hi;
    while b > a && v[b - 1] == '"'
        invariant
            lo <= a <= b <= hi <= v.len(),
            strip_quotes_end(v@.subrange(a as int, hi as int)) == strip_quotes_end(
                v@.subrange(a as int, b as int),
            ),
        decreases b - a,
    {
        assert(v@.subrange(a as int, b as int).drop_last() == v@.subrange(a as int, b - 1));
        b -= 1;
    }
    (a, b)
}

/// End `e` with `v[lo..e] == strip_nul_escapes(v[lo..hi])`.
pub fn strip_nul_end(v: &[char], lo: usize, hi: usize) -> (e: usize)
    requires
        lo <= hi <= v.len(),
    ensures
        lo <= e <= hi,
        v@.subrange(lo as int, e as int) == strip_nul_escapes(v@.subrange(lo as int, hi as int)),
{
    let mut e = hi;
    while e - lo >= 2 && v[e - 2] == '\\' && v[e - 1] == '0'
        invariant
            lo <= e <= hi <= v.len(),
            strip_nul_escapes(v@.subrange(lo as int, hi as int)) == strip_nul_escapes(
                v@.subrange(lo as int, e as int),
            ),
        decreases e,
    {
        assert(v@.subrange(lo as int, e as int).take(e - lo - 2) == v@.subrange(lo as int, e - 2));
        e -= 2;
    }
    e
}

/// Decodes a hex `DOC` literal into its bytes.
pub fn decode_hex_literal(raw_hex: &str) -> (r: Result<Vec<u8>, String>)
    ensures
        match decode_hex_s(raw_hex@) {
            Some(b) => r matches Ok(v) && v@ == b,
            None => r matches Err(m) && m@ == missing_prefix_msg(),
        },
{
    let v = chars_of(raw_hex);
    let (t0, t1) = trim_bounds(&v, 0, v.len());
    assert(v@.subrange(0, v.len() as int) == v@);
    let (a, b) = trim_quotes_bounds(&v, t0, t1);
    let ghost t = v@.subrange(a as int, b as int);
    assert(v@.subrange(t0 as int, t1 as int) == trim_s(raw_hex@));
    assert(t == trim_quotes_s(trim_s(raw_hex@)));
    if !(b - a >= 2 && v[a] == '0' && v[a + 1] == 'x') {
        proof {
            reveal_strlit("0x");
            if starts_with_s(t, "0x"@) {
                assert(t.take(2)[0] == '0' && t.take(2)[1] == 'x');
                assert(t[0] == v@[a as int] && t[1] == v@[a + 1]);
            }
        }
        return Err(String::from_str("Expected hex DOC literal starting with 0x"));
    }
    proof {
        reveal_strlit("0x");
        assert(t.take(2) == "0x"@);
    }
    let e = strip_nul_end(&v, a + 2, b);
    assert(t.subrange(2, t.len() as int) == v@.subrange(a + 2, b as int));
    let d = even_hex_digits(&v, a + 2, e);
    Ok(bytes_of_pairs(&d))
}

/// `pad_even(hex_digits_of(v[lo..hi]))`.
fn even_hex_digits(v: &[char], lo: usize, hi: usize) -> (d: Vec<char>)
    requires
        lo <= hi <= v.len(),
    ensures
        d@ == pad_even(hex_digits_of(v@.subrange(lo as int, hi as int))),
        d.len() % 2 == 0,
        forall|k: int| 0 <= k < d.len() ==> is_ascii_hex(#[trigger] d@[k]),
{
    let mut d: Vec<char> = Vec::new();
    let mut i = lo;
    while i < hi
        invariant
            lo <= i <= hi <= v.len(),
            d@ == hex_digits_of(v@.subrange(lo as int, i as int)),
            forall|k: int| 0 <= k < d.len() ==> is_ascii_hex(#[trigger] d@[k]),
            d.len() <= i,
        decreases hi - i,
    {
        assert(v@.subrange(lo as int, i + 1).drop_last() == v@.subrange(lo as int, i as int));
        if is_ascii_hex_exec(v[i]) {
            d.push(v[i]);
        }
        i += 1;
    }
    let ghost digits = d@;
    if d.len() % 2 == 1 {
        d.insert(0, '0');
    }
    assert(d@ == pad_even(digits));
    assert forall|k: int| 0 <= k < d.len() implies is_ascii_hex(#[trigger] d@[k]) by {
        if digits.len() % 2 == 1 && k > 0 {
            assert(d@[k] == digits[k - 1]);
        }
    }
    d
}

/// The bytes spelled by the digit pairs of `d`.
fn bytes_of_pairs(d: &Vec<char>) -> (out: Vec<u8>)
    requires
        d.len() % 2 == 0,
        forall|k: int| 0 <= k < d.len() ==> is_ascii_hex(#[trigger] d@[k]),
    ensures
        out@ == pairs_to_bytes(d@),
{
    let mut out: Vec<u8> = Vec::new();
    let mut j: usize = 0;
    let ghost target = pairs_to_bytes(d@);
    while j < d.len() / 2
        invariant
            d.len() % 2 == 0,
            forall|k: int| 0 <= k < d.len() ==> is_ascii_hex(#[trigger] d@[k]),
            target == pairs_to_bytes(d@),
            j <= d.len() / 2,
            out@ == target.take(j as int),
        decreases d.len() / 2 - j,
    {
        let hi = hex_val_exec(d[2 * j]);
        let lo = hex_val_exec(d[2 * j + 1]);
        let byte = hi * 16 + lo;
        out.push(byte);
        j += 1;
        assert(out@ == target.take(j as int));
    }
    assert(target.take(j as int) == target);
    out
}

// ───────────────────────── rendering bytes ─────────────────────────

/// How one byte is shown: escapes for control and quote characters, the
/// character itself when printable, `\xNN` otherwise.
pub open spec fn byte_text(b: u8) -> Seq<char> {
    if b == 10 {
        "\\n"@
    } else if b == 13 {
        "\\r"@
    } else if b == 9 {
        "\\t"@
    } else if b == 92 {
        "\\\\"@
    } else if b == 34 {
        "\\\""@
    } else if b == 0 {
        "\\0"@
    } else if 0x20 <= b <= 0x7e {
        seq![(b as u32) as char]
    } else {
        "\\x"@ + seq![digit_char((b / 16) as nat), digit_char((b % 16) as nat)]
    }
}

/// The rendering of a run of bytes.
pub open spec fn render_bytes_s(b: Seq<u8>) -> Seq<char>
    decreases b.len(),
{
    if b.len() == 0 {
        seq![]
    } else {
        render_bytes_s(b.drop_last()) + byte_text(b.last())
    }
}

fn push_hex_digit(out: &mut String, d: u8)
    requires
        d < 16,
    ensures
        final(out)@ == old(out)@.push(digit_char(d as nat)),
{
    if d < 10 {
        push_char(out, ascii_char(48 + d));
    } else {
        push_char(out, ascii_char(97 + (d - 10)));
    }
}

fn push_byte_text(out: &mut String, b: u8)
    ensures
        final(out)@ == old(out)@ + byte_text(b),
{
    proof {
        reveal_strlit("\\n");
        reveal_strlit("\\r");
        reveal_strlit("\\t");
        reveal_strlit("\\\\");
        reveal_strlit("\\\"");
        reveal_strlit("\\0");
        reveal_strlit("\\x");
    }
    if b == 10 {
        push_str(out, "\\n");
    } else if b == 13 {
        push_str(out, "\\r");
    } else if b == 9 {
        push_str(out, "\\t");
    } else if b == 92 {
        push_str(out, "\\\\");
    } else if b == 34 {
        push_str(out, "\\\"");
    } else if b == 0 {
        push_str(out, "\\0");
    } else if 0x20 <= b && b <= 0x7e {
        push_char(out, ascii_char(b));
    } else {
        let ghost o = out@;
        push_str(out, "\\x");
        push_hex_digit(out, b / 16);
        push_hex_digit(out, b % 16);
        assert(out@ == o + byte_text(b));
    }
}

/// Renders bytes as readable text.
pub fn render_bytes_for_agent(bytes: &[u8]) -> (r: String)
    ensures
        r@ == render_bytes_s(bytes@),
{
    let mut out = String::new();
    let mut i: usize = 0;
    while i < bytes.len()
        invariant
            i <= bytes.len(),
            out@ == render_bytes_s(bytes@.take(i as int)),
        decreases bytes.len() - i,
    {
        assert(bytes@.take(i + 1).drop_last() == bytes@.take(i as int));
        push_byte_text(&mut out, bytes[i]);
        i += 1;
    }
    assert(bytes@.take(bytes.len() as int) == bytes@);
    out
}

// ───────────────────────── DOC rows of a source ─────────────────────────

/// The opening of a hex `DOC` literal.
pub open spec fn doc_prefix() -> Seq<char> {
    "DOC:\"0x"@
}

/// Characters allowed inside a hex `DOC` literal: `[0-9A-Fa-f\\]`.
pub open spec fn is_doc_char(c: char) -> bool {
    is_ascii_hex(c) || c == '\\'
}

/// End of the maximal run of `[0-9A-Fa-f\\]` starting at `i`.
pub open spec fn doc_run(s: Seq<char>, i: int) -> int
    decreases s.len() - i,
{
    if 0 <= i < s.len() && is_doc_char(s[i]) {
        doc_run(s, i + 1)
    } else {
        i
    }
}

/// Whether `DOC:"(0x[0-9A-Fa-f\\]+)"` matches `s` at `p`.
pub open spec fn doc_match_at(s: Seq<char>, p: int) -> bool {
    let e = doc_run(s, p + 7);
    &&& occurs_at(s, doc_prefix(), p)
    &&& e > p + 7
    &&& e < s.len()
    &&& s[e] == '"'
}

/// The leftmost position at or after `i` where the `DOC` pattern matches.
pub open spec fn first_doc_from(s: Seq<char>, i: int) -> Option<int>
    decreases s.len() - i,
{
    if i < 0 || i >= s.len() {
        None
    } else if doc_match_at(s, i) {
        Some(i)
    } else {
        first_doc_from(s, i + 1)
    }
}

/// The literal (`0x...`) that `DOC:"(0x[0-9A-Fa-f\\]+)"` captures on a line.
pub open spec fn doc_capture(s: Seq<char>) -> Option<Seq<char>> {
    match first_doc_from(s, 0) {
        Some(p) => Some(s.subrange(p + 5, doc_run(s, p + 7))),
        None => None,
    }
}

/// A hex `DOC` row as the grammar describes it.
pub struct HexRowSpec {
    pub line: int,
    pub label: Option<Seq<char>>,
    pub raw: Seq<char>,
    pub bytes: Seq<u8>,
}

/// The hex `DOC` rows of `s` from the line starting at `i` (numbered `line`) on.
pub open spec fn hex_rows_from(s: Seq<char>, i: int, line: int) -> Seq<HexRowSpec>
    decreases s.len() + 1 - i,
{
    if i < 0 || i >= s.len() {
        seq![]
    } else {
        let e = next_nl(s, i);
        if e < i {
            seq![]
        } else {
            proof {
                lemma_next_nl(s, i);
            }
            let t = line_text(s, i);
            let rest = hex_rows_from(s, e + 1, line + 1);
            match doc_capture(t) {
                Some(raw) => match decode_hex_s(raw) {
                    Some(bytes) => seq![HexRowSpec { line, label: label_name(t), raw, bytes }]
                        + rest,
                    None => rest,
                },
                None => rest,
            }
        }
    }
}

/// All hex `DOC` rows of a source.
pub open spec fn hex_rows_s(s: Seq<char>) -> Seq<HexRowSpec> {
    hex_rows_from(s, 0, 0)
}

/// One hex `DOC` row of a z4 source.
pub struct HexDocRow {
    pub line_0: u32,
    pub label: Option<String>,
    pub raw_hex: String,
    pub byte_len: usize,
    pub decoded: String,
}

/// Whether `r` holds what the grammar describes as `g`.
pub open spec fn row_agrees(r: HexDocRow, g: HexRowSpec) -> bool {
    &&& r.line_0 == g.line as u32
    &&& opt_view(r.label) == g.label
    &&& r.raw_hex@ == g.raw
    &&& r.byte_len == g.bytes.len()
    &&& r.decoded@ == render_bytes_s(g.bytes)
}

proof fn lemma_rows_step(s: Seq<char>, i: int, line: int)
    requires
        0 <= i < s.len(),
    ensures
        ({
            let e = next_nl(s, i);
            let t = line_text(s, i);
            let rest = hex_rows_from(s, e + 1, line + 1);
            &&& i <= e <= s.len()
            &&& hex_rows_from(s, i, line) == match doc_capture(t) {
                Some(raw) => match decode_hex_s(raw) {
                    Some(bytes) => seq![HexRowSpec { line, label: label_name(t), raw, bytes }]
                        + rest,
                    None => rest,
                },
                None => rest,
            }
        }),
{
    lemma_next_nl(s, i);
}

fn doc_run_exec(v: &[char], i: usize, hi: usize) -> (e: usize)
    requires
        i <= hi <= v.len(),
    ensures
        i <= e <= hi,
        e == doc_run(v@.subrange(0, hi as int), i as int),
    decreases hi - i,
{
    let ghost t = v@.subrange(0, hi as int);
    if i < hi && (is_ascii_hex_exec(v[i]) || v[i] == '\\') {
        doc_run_exec(v, i + 1, hi)
    } else {
        i
    }
}

/// The `DOC` capture of `v[lo..hi]`, as bounds into `v`.
fn doc_capture_exec(v: &[char], lo: usize, hi: usize) -> (r: Option<(usize, usize)>)
    requires
        lo <= hi <= v.len(),
    ensures
        match doc_capture(v@.subrange(lo as int, hi as int)) {
            Some(c) => r matches Some(b) && lo <= b.0 <= b.1 <= hi && c == v@.subrange(
                b.0 as int,
                b.1 as int,
            ),
            None => r is None,
        },
{
    let ghost t = v@.subrange(lo as int, hi as int);
    let prefix = chars_of("DOC:\"0x");
    proof {
        reveal_strlit("DOC:\"0x");
    }
    let line = string_of_range(v, lo, hi);
    let w = chars_of(line.as_str());
    assert(w@ == t);
    let mut p: usize = 0;
    while p < w.len()
        invariant
            p <= w.len(),
            w@ == t,
            prefix@ == doc_prefix(),
            prefix@.len() == 7,
            t == v@.subrange(lo as int, hi as int),
            lo <= hi <= v.len(),
            first_doc_from(t, 0) == first_doc_from(t, p as int),
        decreases w.len() - p,
    {
        if matches_at(&w, p, &prefix) {
            let e = doc_run_exec(&w, p + 7, w.len());
            assert(w@.subrange(0, w.len() as int) == t);
            if e > p + 7 && e < w.len() && w[e] == '"' {
                assert(doc_match_at(t, p as int));
                assert(first_doc_from(t, p as int) == Some(p as int));
                assert(t.subrange(p + 5, e as int) == v@.subrange(lo + p + 5, lo + e));
                return Some((lo + p + 5, lo + e));
            }
        }
        assert(!doc_match_at(t, p as int));
        p += 1;
    }
    None
}

/// The row of the line `v[i..t]` (numbered `line`), if it holds a hex `DOC`.
fn row_at(v: &[char], i: usize, t: usize, line: usize) -> (r: Option<HexDocRow>)
    requires
        i <= t <= v.len(),
    ensures
        ({
            let l = v@.subrange(i as int, t as int);
            match doc_capture(l) {
                Some(raw) => match decode_hex_s(raw) {
                    Some(bytes) => r matches Some(row) && row_agrees(
                        row,
                        HexRowSpec { line: line as int, label: label_name(l), raw, bytes },
                    ),
                    None => r is None,
                },
                None => r is None,
            }
        }),
{
    let cap = doc_capture_exec(v, i, t);
    match cap {
        None => None,
        Some((a, b)) => {
            let raw_hex = string_of_range(v, a, b);
            match decode_hex_literal(raw_hex.as_str()) {
                Err(_) => None,
                Ok(bytes) => {
                    let label = match label_name_exec(v, i, t) {
                        Some(e) => Some(string_of_range(v, i + 1, e)),
                        None => None,
                    };
                    let decoded = render_bytes_for_agent(&bytes);
                    Some(
                        HexDocRow {
                            line_0: line as u32,
                            label,
                            raw_hex,
                            byte_len: bytes.len(),
                            decoded,
                        },
                    )
                },
            }
        },
    }
}

/// The hex `DOC` rows of a z4 source, in line order.
pub fn scan_hex_docs(source_text: &str) -> (r: Vec<HexDocRow>)
    ensures
        r.len() == hex_rows_s(source_text@).len(),
        forall|k: int|
            0 <= k < r.len() ==> row_agrees(#[trigger] r@[k], hex_rows_s(source_text@)[k]),
{
    let v = chars_of(source_text);
    let mut r: Vec<HexDocRow> = Vec::new();
    let mut i: usize = 0;
    let mut line: usize = 0;
    let ghost whole = hex_rows_s(v@);
    while i < v.len()
        invariant
            i <= v.len(),
            line <= i,
            whole == hex_rows_s(v@),
            r@.len() + hex_rows_from(v@, i as int, line as int).len() == whole.len(),
            forall|k: int| 0 <= k < r.len() ==> row_agrees(#[trigger] r@[k], whole[k]),
            forall|k: int|
                0 <= k < hex_rows_from(v@, i as int, line as int).len() ==> #[trigger] whole[r.len()
                    + k] == hex_rows_from(v@, i as int, line as int)[k],
        decreases v.len() - i,
    {
        let e = next_nl_exec(v.as_slice(), i);
        proof {
            lemma_rows_step(v@, i as int, line as int);
        }
        let t = line_text_end(v.as_slice(), i, e);
        let ghost cur = hex_rows_from(v@, i as int, line as int);
        let ghost rest = hex_rows_from(v@, e + 1, line + 1);
        let item = row_at(v.as_slice(), i, t, line);
        let ghost n0 = r.len() as int;
        match item {
            Some(it) => {
                r.push(it);
                assert(cur.len() == rest.len() + 1);
                assert(whole[n0 + 0] == cur[0]);
                assert forall|k: int|
                    0 <= k < rest.len() implies #[trigger] whole[r.len() + k] == rest[k] by {
                    assert(cur[k + 1] == rest[k]);
                    assert(whole[n0 + (k + 1)] == cur[k + 1]);
                }
            },
            None => {
                assert(cur == rest);
            },
        }
        let next = if e < v.len() {
            e + 1
        } else {
            e
        };
        proof {
            if e >= v.len() {
                assert(hex_rows_from(v@, next as int, line + 1).len() == 0);
                assert(rest.len() == 0);
            }
        }
        i = next;
        line = line + 1;
    }
    r
}

// ───────────────────────── narrowing to a symbol ─────────────────────────

/// Whether a symbol named `name` answers the query `q` (exactly or ignoring ASCII case).
pub open spec fn symbol_matches(name: Seq<char>, q: Seq<char>) -> bool {
    name == q || eq_ignore_case(name, q)
}

/// Index of the first label from `k` on that answers `q`.
pub open spec fn first_symbol_from(l: Seq<LabelSpec>, q: Seq<char>, k: int) -> Option<int>
    decreases l.len() - k,
{
    if k < 0 || k >= l.len() {
        None
    } else if symbol_matches(l[k].name, q) {
        Some(k)
    } else {
        first_symbol_from(l, q, k + 1)
    }
}

/// The rows whose line lies in `lo..=hi`.
pub open spec fn keep_spec(gs: Seq<HexRowSpec>, lo: u32, hi: u32) -> Seq<HexRowSpec>
    decreases gs.len(),
{
    if gs.len() == 0 {
        gs
    } else {
        let rest = keep_spec(gs.drop_last(), lo, hi);
        let l = gs.last().line as u32;
        if lo <= l && l <= hi {
            rest.push(gs.last())
        } else {
            rest
        }
    }
}

/// The rows whose `line_0` lies in `lo..=hi`.
pub open spec fn keep_rows(rs: Seq<HexDocRow>, lo: u32, hi: u32) -> Seq<HexDocRow>
    decreases rs.len(),
{
    if rs.len() == 0 {
        rs
    } else {
        let rest = keep_rows(rs.drop_last(), lo, hi);
        if lo <= rs.last().line_0 && rs.last().line_0 <= hi {
            rest.push(rs.last())
        } else {
            rest
        }
    }
}

pub open spec fn all_agree(rs: Seq<HexDocRow>, gs: Seq<HexRowSpec>) -> bool {
    rs.len() == gs.len() && forall|k: int| 0 <= k < rs.len() ==> row_agrees(#[trigger] rs[k], gs[k])
}

proof fn lemma_keep_agrees(rs: Seq<HexDocRow>, gs: Seq<HexRowSpec>, lo: u32, hi: u32)
    requires
        all_agree(rs, gs),
    ensures
        all_agree(keep_rows(rs, lo, hi), keep_spec(gs, lo, hi)),
    decreases rs.len(),
{
    if rs.len() > 0 {
        assert(all_agree(rs.drop_last(), gs.drop_last())) by {
            assert forall|k: int| 0 <= k < rs.drop_last().len() implies row_agrees(
                #[trigger] rs.drop_last()[k],
                gs.drop_last()[k],
            ) by {
                assert(row_agrees(rs[k], gs[k]));
            }
        }
        lemma_keep_agrees(rs.drop_last(), gs.drop_last(), lo, hi);
        assert(row_agrees(rs[rs.len() - 1], gs[gs.len() - 1]));
    }
}

/// Moves into the result the rows whose line lies in `lo..=hi`, in order.
fn take_rows_in(rows: Vec<HexDocRow>, lo: u32, hi: u32) -> (r: Vec<HexDocRow>)
    ensures
        r@ == keep_rows(rows@, lo, hi),
{
    let ghost all = rows@;
    let mut rows = rows;
    let mut out: Vec<HexDocRow> = Vec::new();
    let ghost mut n: int = 0;
    while rows.len() > 0
        invariant
            0 <= n <= all.len(),
            rows@ == all.subrange(n, all.len() as int),
            out@ == keep_rows(all.take(n), lo, hi),
        decreases rows.len(),
    {
        let row = rows.remove(0);
        assert(all.take(n + 1).drop_last() == all.take(n));
        assert(row == all[n]);
        if lo <= row.line_0 && row.line_0 <= hi {
            out.push(row);
        }
        proof {
            n = n + 1;
        }
        assert(rows@ == all.subrange(n, all.len() as int));
    }
    assert(all.take(n) == all);
    out
}

pub open spec fn symbol_missing_msg(q: Seq<char>) -> Seq<char> {
    "Symbol '"@ + q + "' not found in z4 source"@
}

/// Index of the first symbol that answers `q`.
fn find_symbol(symbols: &Vec<Symbol>, q: &str, Ghost(s): Ghost<Seq<char>>) -> (r: Option<usize>)
    requires
        symbols.len() == labels_s(s).len(),
        forall|k: int| 0 <= k < symbols.len() ==> symbol_agrees(#[trigger] symbols@[k], s, k),
    ensures
        match first_symbol_from(labels_s(s), q@, 0) {
            Some(k) => r matches Some(j) && j as int == k,
            None => r is None,
        },
        r matches Some(k) ==> k < symbols.len(),
{
    let qv = chars_of(q);
    let mut k: usize = 0;
    while k < symbols.len()
        invariant
            k <= symbols.len(),
            symbols.len() == labels_s(s).len(),
            forall|j: int| 0 <= j < symbols.len() ==> symbol_agrees(#[trigger] symbols@[j], s, j),
            qv@ == q@,
            first_symbol_from(labels_s(s), q@, 0) == first_symbol_from(labels_s(s), q@, k as int),
        decreases symbols.len() - k,
    {
        let name = chars_of(symbols[k].name.as_str());
        assert(symbol_agrees(symbols@[k as int], s, k as int));
        if eq_ignore_case_exec(&name, &qv) {
            return Some(k);
        }
        k += 1;
    }
    None
}

/// The rows that lie within the symbol named `symbol_name`.
pub fn filter_rows_to_symbol(rows: Vec<HexDocRow>, source_text: &str, symbol_name: &str) -> (r:
    Result<Vec<HexDocRow>, String>)
    requires
        byte_len(source_text@) <= usize::MAX,
    ensures
        match first_symbol_from(labels_s(source_text@), symbol_name@, 0) {
            Some(k) => r matches Ok(v) && v@ == keep_rows(
                rows@,
                labels_s(source_text@)[k].line as u32,
                symbol_line_end(source_text@, k),
            ),
            None => r matches Err(m) && m@ == symbol_missing_msg(symbol_name@),
        },
{
    let symbols = Z4LanguageDriver::extract_symbols(source_text);
    match find_symbol(&symbols, symbol_name, Ghost(source_text@)) {
        None => {
            let mut m = String::from_str("Symbol '");
            push_str(&mut m, symbol_name);
            push_str(&mut m, "' not found in z4 source");
            assert(m@ == symbol_missing_msg(symbol_name@));
            Err(m)
        },
        Some(k) => {
            assert(symbol_agrees(symbols@[k as int], source_text@, k as int));
            let kept = take_rows_in(rows, symbols[k].line, symbols[k].line_end);
            assert(symbols@[k as int].line == labels_s(source_text@)[k as int].line as u32);
            Ok(kept)
        },
    }
}

// ───────────────────────── the hex bridge ─────────────────────────

pub open spec fn label_or_dash(l: Option<Seq<char>>) -> Seq<char> {
    match l {
        Some(x) => x,
        None => "-"@,
    }
}

/// The report line of one row.
pub open spec fn row_text(g: HexRowSpec) -> Seq<char> {
    "line="@ + hex0x_s((g.line as u32) as nat + 1) + " label=@"@ + label_or_dash(g.label)
        + " bytes="@ + hex0x_s(g.bytes.len()) + " text=\""@ + render_bytes_s(g.bytes) + "\"\n"@
}

/// The report lines of a run of rows.
pub open spec fn rows_text(gs: Seq<HexRowSpec>) -> Seq<char>
    decreases gs.len(),
{
    if gs.len() == 0 {
        seq![]
    } else {
        rows_text(gs.drop_last()) + row_text(gs.last())
    }
}

/// `max(n, 1)`.
pub open spec fn at_least_one(n: usize) -> nat {
    if n == 0 {
        1
    } else {
        n as nat
    }
}

pub open spec fn min_nat(a: nat, b: nat) -> nat {
    if a <= b {
        a
    } else {
        b
    }
}

/// The report of the rows of a source at `path`, listing at most `max_entries` of them.
pub open spec fn bridge_text(path: Seq<char>, gs: Seq<HexRowSpec>, max_entries: usize) -> Seq<char> {
    let m = at_least_one(max_entries);
    "# Z4_HEX_BRIDGE\npath="@ + path + " docs="@ + hex0x_s(gs.len()) + "\n"@ + rows_text(
        gs.take(min_nat(m, gs.len()) as int),
    ) + (if gs.len() > m {
        "... "@ + hex0x_s((gs.len() - m) as nat) + " more docs\n"@
    } else {
        seq![]
    })
}

/// The report of one literal given directly.
pub open spec fn literal_bridge_text(b: Seq<u8>) -> Seq<char> {
    "# Z4_HEX_BRIDGE\nbytes="@ + hex0x_s(b.len()) + " text=\""@ + render_bytes_s(b) + "\"\n"@
}

pub open spec fn path_required_msg() -> Seq<char> {
    "'path' required when 'doc_hex' is omitted"@
}

pub open spec fn read_failed_msg(p: Seq<char>) -> Seq<char> {
    "Failed to read z4 source '"@ + p + "'"@
}

pub open spec fn no_docs_msg(p: Seq<char>) -> Seq<char> {
    "No DATA/DEFINE DOC hex literals found in "@ + p
}

/// What the hex bridge answers.  `source` is the text read from `path`
/// (`None` when it could not be read).
pub open spec fn hex_bridge_s(
    path: Option<Seq<char>>,
    source: Option<Seq<char>>,
    symbol: Option<Seq<char>>,
    doc_hex: Option<Seq<char>>,
    max_entries: usize,
) -> Result<Seq<char>, Seq<char>> {
    match doc_hex {
        Some(raw) => match decode_hex_s(raw) {
            Some(b) => Ok(literal_bridge_text(b)),
            None => Err(missing_prefix_msg()),
        },
        None => match path {
            None => Err(path_required_msg()),
            Some(p) => match source {
                None => Err(read_failed_msg(p)),
                Some(src) => {
                    let all = hex_rows_s(src);
                    let picked: Result<Seq<HexRowSpec>, Seq<char>> = match symbol {
                        None => Ok(all),
                        Some(q) => match first_symbol_from(labels_s(src), q, 0) {
                            None => Err(symbol_missing_msg(q)),
                            Some(k) => Ok(
                                keep_spec(all, labels_s(src)[k].line as u32, symbol_line_end(src, k)),
                            ),
                        },
                    };
                    match picked {
                        Err(m) => Err(m),
                        Ok(gs) => if gs.len() == 0 {
                            Err(no_docs_msg(p))
                        } else {
                            Ok(bridge_text(p, gs, max_entries))
                        },
                    }
                },
            },
        },
    }
}

fn push_row(out: &mut String, row: &HexDocRow, Ghost(g): Ghost<HexRowSpec>)
    requires
        row_agrees(*row, g),
    ensures
        final(out)@ == old(out)@ + row_text(g),
{
    let ghost o = out@;
    push_str(out, "line=");
    push_hex0x(out, (row.line_0 as u64) + 1);
    push_str(out, " label=@");
    match &row.label {
        Some(l) => push_str(out, l.as_str()),
        None => push_str(out, "-"),
    }
    push_str(out, " bytes=");
    push_hex0x(out, row.byte_len as u64);
    push_str(out, " text=\"");
    push_str(out, row.decoded.as_str());
    push_str(out, "\"\n");
    assert(out@ == o + row_text(g));
}

fn render_bridge(path: &str, rows: &Vec<HexDocRow>, max_entries: usize, Ghost(gs): Ghost<
    Seq<HexRowSpec>,
>) -> (out: String)
    requires
        all_agree(rows@, gs),
    ensures
        out@ == bridge_text(path@, gs, max_entries),
{
    let m: usize = if max_entries == 0 {
        1
    } else {
        max_entries
    };
    let mut out = String::from_str("# Z4_HEX_BRIDGE\npath=");
    push_str(&mut out, path);
    push_str(&mut out, " docs=");
    push_hex0x(&mut out, rows.len() as u64);
    push_str(&mut out, "\n");
    let ghost head = out@;
    let n = if m < rows.len() {
        m
    } else {
        rows.len()
    };
    let mut i: usize = 0;
    while i < n
        invariant
            i <= n <= rows.len(),
            all_agree(rows@, gs),
            out@ == head + rows_text(gs.take(i as int)),
        decreases n - i,
    {
        assert(gs.take(i + 1).drop_last() == gs.take(i as int));
        assert(row_agrees(rows@[i as int], gs[i as int]));
        push_row(&mut out, &rows[i], Ghost(gs[i as int]));
        i += 1;
    }
    if rows.len() > m {
        push_str(&mut out, "... ");
        push_hex0x(&mut out, (rows.len() - m) as u64);
        push_str(&mut out, " more docs\n");
    }
    out
}

/// Decodes hex `DOC` literals: the one given as `doc_hex`, or else those of
/// the source read from `path` (`source_text`, `None` when it could not be
/// read), narrowed to the symbol `symbol_name` when one is named.
pub fn decode_hex_bridge(
    path: Option<&str>,
    source_text: Option<&str>,
    symbol_name: Option<&str>,
    doc_hex: Option<&str>,
    max_entries: usize,
) -> (r: Result<String, String>)
    requires
        source_text matches Some(t) ==> byte_len(t@) <= usize::MAX,
    ensures
        res_view(r) == hex_bridge_s(
            str_opt(path),
            str_opt(source_text),
            str_opt(symbol_name),
            str_opt(doc_hex),
            max_entries,
        ),
{
    if let Some(raw) = doc_hex {
        return match decode_hex_literal(raw) {
            Err(m) => Err(m),
            Ok(bytes) => {
                let mut out = String::from_str("# Z4_HEX_BRIDGE\nbytes=");
                push_hex0x(&mut out, bytes.len() as u64);
                push_str(&mut out, " text=\"");
                let text = render_bytes_for_agent(&bytes);
                push_str(&mut out, text.as_str());
                push_str(&mut out, "\"\n");
                Ok(out)
            },
        };
    }
    let p = match path {
        None => {
            return Err(String::from_str("'path' required when 'doc_hex' is omitted"));
        },
        Some(p) => p,
    };
    let src = match source_text {
        None => {
            let mut m = String::from_str("Failed to read z4 source '");
            push_str(&mut m, p);
            push_str(&mut m, "'");
            return Err(m);
        },
        Some(t) => t,
    };
    let rows = scan_hex_docs(src);
    let ghost all = hex_rows_s(src@);
    assert(all_agree(rows@, all));
    let ghost mut gs = all;
    let rows = match symbol_name {
        None => rows,
        Some(q) => {
            let ghost before = rows@;
            match filter_rows_to_symbol(rows, src, q) {
                Err(m) => {
                    return Err(m);
                },
                Ok(kept) => {
                    let ghost k = first_symbol_from(labels_s(src@), q@, 0)->Some_0;
                    proof {
                        let lo = labels_s(src@)[k].line as u32;
                        let hi = symbol_line_end(src@, k);
                        lemma_keep_agrees(before, all, lo, hi);
                        gs = keep_spec(all, lo, hi);
                    }
                    kept
                },
            }
        },
    };
    if rows.len() == 0 {
        let mut m = String::from_str("No DATA/DEFINE DOC hex literals found in ");
        push_str(&mut m, p);
        return Err(m);
    }
    Ok(render_bridge(p, &rows, max_entries, Ghost(gs)))
}


// ───────────────────────── laws ─────────────────────────

proof fn lemma_doc_run(s: Seq<char>, i: int)
    requires
        0 <= i <= s.len(),
    ensures
        i <= doc_run(s, i) <= s.len(),
        forall|j: int| i <= j < doc_run(s, i) ==> is_doc_char(#[trigger] s[j]),
    decreases s.len() - i,
{
    if i < s.len() && is_doc_char(s[i]) {
        lemma_doc_run(s, i + 1);
    }
}

proof fn lemma_first_doc(s: Seq<char>, i: int)
    ensures
        first_doc_from(s, i) matches Some(p) ==> doc_match_at(s, p) && 0 <= p,
    decreases s.len() - i,
{
    if 0 <= i < s.len() && !doc_match_at(s, i) {
        lemma_first_doc(s, i + 1);
    }
}

proof fn lemma_trim_noop(x: Seq<char>)
    requires
        x.len() > 0,
        !crate::text::is_ws(x[0]),
        !crate::text::is_ws(x.last()),
    ensures
        trim_s(x) == x,
{
}

proof fn lemma_quotes_noop(x: Seq<char>)
    requires
        x.len() > 0,
        x[0] != '"',
        x.last() != '"',
    ensures
        trim_quotes_s(x) == x,
{
}

/// Every literal that the `DOC` pattern captures decodes: a captured literal
/// always starts with `0x`, so a line whose `DOC` literal is captured always
/// yields a row.
pub proof fn law_captured_doc_literals_decode(line: Seq<char>)
    requires
        doc_capture(line) is Some,
    ensures
        decode_hex_s(doc_capture(line)->Some_0) is Some,
{
    lemma_first_doc(line, 0);
    let p = first_doc_from(line, 0)->Some_0;
    let e = doc_run(line, p + 7);
    reveal_strlit("DOC:\"0x");
    reveal_strlit("0x");
    assert(line.subrange(p, p + 7) == doc_prefix());
    assert(line[p + 5] == '0' && line[p + 6] == 'x') by {
        assert(line.subrange(p, p + 7)[5] == line[p + 5]);
        assert(line.subrange(p, p + 7)[6] == line[p + 6]);
    }
    lemma_doc_run(line, p + 7);
    let raw = line.subrange(p + 5, e);
    assert(raw[0] == '0');
    assert(raw.last() == line[e - 1]);
    assert(is_doc_char(line[e - 1]));
    lemma_trim_noop(raw);
    lemma_quotes_noop(raw);
    assert(raw.take(2) == "0x"@);
}

} // verus!
