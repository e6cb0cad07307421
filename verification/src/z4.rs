//! The z4 source language: labels, hex literals, symbol extraction,
//! density maps and symbol reads.
use vstd::prelude::*;
use crate::path::{extension_s, has_extension_ignore_case};
use crate::sort::{is_perm, is_sorted_of, sort_perm};
use crate::text::{
    dec_s, eq_ignore_case_exec, push_char, push_chars, push_dec,
    ends_with, ends_with_s, eq_ignore_case,
    hex4_s, hex_s, push_hex, push_hex4, push_str, byte_len, byte_len_of, chars_of, contains, contains_s, char_width, is_ascii_hex, is_ascii_hex_exec, is_word, is_word_exec,
    lemma_byte_len_mono, lemma_byte_len_take, string_of_range, trim_bounds, trim_s,
};

verus! {

broadcast use vstd::seq_lib::group_seq_properties;

// ───────────────────────── line structure ─────────────────────────

/// Index of the first `'\n'` at or after `i`, or `s.len()`.
pub open spec fn next_nl(s: Seq<char>, i: int) -> int
    decreases s.len() - i,
{
    if i >= s.len() {
        s.len() as int
    } else if s[i] == '\n' {
        i
    } else {
        next_nl(s, i + 1)
    }
}

pub proof fn lemma_next_nl(s: Seq<char>, i: int)
    requires
        0 <= i <= s.len(),
    ensures
        i <= next_nl(s, i) <= s.len(),
        next_nl(s, i) < s.len() ==> s[next_nl(s, i)] == '\n',
        forall|j: int| i <= j < next_nl(s, i) ==> s[j] != '\n',
    decreases s.len() - i,
{
    if i < s.len() && s[i] != '\n' {
        lemma_next_nl(s, i + 1);
    }
}

/// Drops trailing `'\r'`/`'\n'` characters (`trim_end_matches(['\r', '\n'])`).
pub open spec fn strip_eol(s: Seq<char>) -> Seq<char>
    decreases s.len(),
{
    if s.len() > 0 && (s.last() == '\r' || s.last() == '\n') {
        strip_eol(s.drop_last())
    } else {
        s
    }
}

/// The text of the line starting at `i`, as `str::lines` yields it: the
/// terminating `'\n'` is dropped, and so is a `'\r'` directly before it.
pub open spec fn line_text(s: Seq<char>, i: int) -> Seq<char> {
    let e = next_nl(s, i);
    if e < s.len() && e > i && s[e - 1] == '\r' {
        s.subrange(i, e - 1)
    } else {
        s.subrange(i, e)
    }
}

/// Number of occurrences of `c` in `s`.
pub open spec fn count_char(s: Seq<char>, c: char) -> nat
    decreases s.len(),
{
    if s.len() == 0 {
        0
    } else {
        count_char(s.drop_last(), c) + if s.last() == c {
            1nat
        } else {
            0nat
        }
    }
}

/// `str::lines().count()`.
pub open spec fn line_count(s: Seq<char>) -> nat {
    count_char(s, '\n') + if s.len() > 0 && s.last() != '\n' {
        1nat
    } else {
        0nat
    }
}

/// The lines of `s` from position `i` on (`str::lines`).
pub open spec fn lines_from(s: Seq<char>, i: int) -> Seq<Seq<char>>
    decreases s.len() + 1 - i,
{
    if i < 0 || i >= s.len() {
        seq![]
    } else {
        let e = next_nl(s, i);
        if e < i {
            seq![]
        } else {
            proof {
                lemma_next_nl(s, i);
            }
            seq![line_text(s, i)] + lines_from(s, e + 1)
        }
    }
}

/// `str::lines`.
pub open spec fn lines_s(s: Seq<char>) -> Seq<Seq<char>> {
    lines_from(s, 0)
}

// ───────────────────────── label grammar ─────────────────────────

/// End of the maximal run of `[A-Za-z0-9_]` starting at `i`.
pub open spec fn word_run(s: Seq<char>, i: int) -> int
    decreases s.len() - i,
{
    if 0 <= i < s.len() && is_word(s[i]) {
        word_run(s, i + 1)
    } else {
        i
    }
}

/// End of the maximal run of `[0-9A-Fa-f]` starting at `i`.
pub open spec fn hex_run(s: Seq<char>, i: int) -> int
    decreases s.len() - i,
{
    if 0 <= i < s.len() && is_ascii_hex(s[i]) {
        hex_run(s, i + 1)
    } else {
        i
    }
}

/// The name matched by `^@([A-Za-z0-9_]+):` on `line`, if any.
pub open spec fn label_name(line: Seq<char>) -> Option<Seq<char>> {
    let e = word_run(line, 1);
    if line.len() > 0 && line[0] == '@' && e > 1 && e < line.len() && line[e] == ':' {
        Some(line.subrange(1, e))
    } else {
        None
    }
}

/// Whether `line` matches `^@([fF][0-9A-Fa-f]{3,}|[0-9A-Fa-f]{4,}):`.
pub open spec fn is_hex_label_line(line: Seq<char>) -> bool {
    let e = hex_run(line, 1);
    line.len() > 0 && line[0] == '@' && e >= 5 && e < line.len() && line[e] == ':'
}

/// Number of non-overlapping matches of `0x[0-9A-Fa-f]+` in `s` from `i` on.
pub open spec fn hex_lits_from(s: Seq<char>, i: int) -> nat
    decreases s.len() - i,
{
    if i < 0 || i >= s.len() {
        0
    } else if i + 2 < s.len() && s[i] == '0' && s[i + 1] == 'x' && is_ascii_hex(s[i + 2]) {
        proof {
            lemma_runs(s, i + 2);
        }
        1 + hex_lits_from(s, hex_run(s, i + 2))
    } else {
        hex_lits_from(s, i + 1)
    }
}

pub proof fn lemma_runs(s: Seq<char>, i: int)
    requires
        0 <= i <= s.len(),
    ensures
        i <= word_run(s, i) <= s.len(),
        i <= hex_run(s, i) <= s.len(),
        forall|j: int| i <= j < word_run(s, i) ==> is_word(#[trigger] s[j]),
        forall|j: int| i <= j < hex_run(s, i) ==> is_ascii_hex(#[trigger] s[j]),
        word_run(s, i) < s.len() ==> !is_word(s[word_run(s, i)]),
        hex_run(s, i) < s.len() ==> !is_ascii_hex(s[hex_run(s, i)]),
    decreases s.len() - i,
{
    if i < s.len() {
        lemma_runs(s, i + 1);
    }
}

/// The ghost description of one labelled line.
pub struct LabelSpec {
    pub name: Seq<char>,
    pub line: int,
    pub start_char: int,
    pub signature: Seq<char>,
    pub hex_literal_count: nat,
    pub is_hex_label: bool,
}

/// The labelled lines of `s` from the line that starts at `i` (numbered `line`) on.
pub open spec fn labels_from(s: Seq<char>, i: int, line: int) -> Seq<LabelSpec>
    decreases s.len() + 1 - i,
{
    if i < 0 || i >= s.len() {
        seq![]
    } else {
        let e = next_nl(s, i);
        if e < i {
            seq![]
        } else {
            proof {
                lemma_next_nl(s, i);
            }
            let text = strip_eol(s.subrange(i, e));
            let rest = labels_from(s, e + 1, line + 1);
            match label_name(text) {
                Some(name) => seq![
                    LabelSpec {
                        name,
                        line,
                        start_char: i,
                        signature: trim_s(text),
                        hex_literal_count: hex_lits_from(text, 0),
                        is_hex_label: is_hex_label_line(text),
                    },
                ] + rest,
                None => rest,
            }
        }
    }
}

/// All labelled lines of a z4 source.
pub open spec fn labels_s(s: Seq<char>) -> Seq<LabelSpec> {
    labels_from(s, 0, 0)
}

// ───────────────────────── exec scanning ─────────────────────────

/// One labelled line found while scanning a z4 source.
pub struct Z4LabelLine {
    pub name: String,
    pub line: u32,
    pub start_char: usize,
    pub start_byte: usize,
    pub signature: String,
    pub hex_literal_count: usize,
    pub is_hex_label: bool,
}

/// `l` is the exec form of `g` in a source whose characters are `s`.
pub open spec fn label_agrees(l: Z4LabelLine, g: LabelSpec, s: Seq<char>) -> bool {
    &&& l.name@ == g.name
    &&& l.line == g.line as u32
    &&& l.start_char == g.start_char
    &&& l.start_byte == byte_len(s.take(g.start_char))
    &&& l.signature@ == g.signature
    &&& l.hex_literal_count == g.hex_literal_count
    &&& l.is_hex_label == g.is_hex_label
}

pub fn next_nl_exec(v: &[char], i: usize) -> (e: usize)
    requires
        i <= v.len(),
    ensures
        e == next_nl(v@, i as int),
        i <= e <= v.len(),
{
    proof {
        lemma_next_nl(v@, i as int);
    }
    let mut j = i;
    while j < v.len() && v[j] != '\n'
        invariant
            i <= j <= v.len(),
            next_nl(v@, j as int) == next_nl(v@, i as int),
        decreases v.len() - j,
    {
        j += 1;
    }
    j
}

fn word_run_exec(v: &[char], lo: usize, i: usize, hi: usize) -> (e: usize)
    requires
        lo <= i <= hi <= v.len(),
    ensures
        e == lo + word_run(v@.subrange(lo as int, hi as int), i - lo),
        i <= e <= hi,
{
    let ghost t = v@.subrange(lo as int, hi as int);
    let mut j = i;
    while j < hi && is_word_exec(v[j])
        invariant
            lo <= i <= j <= hi <= v.len(),
            t == v@.subrange(lo as int, hi as int),
            word_run(t, j - lo) == word_run(t, i - lo),
        decreases hi - j,
    {
        j += 1;
    }
    j
}

fn hex_run_exec(v: &[char], lo: usize, i: usize, hi: usize) -> (e: usize)
    requires
        lo <= i <= hi <= v.len(),
    ensures
        e == lo + hex_run(v@.subrange(lo as int, hi as int), i - lo),
        i <= e <= hi,
{
    let ghost t = v@.subrange(lo as int, hi as int);
    let mut j = i;
    while j < hi && is_ascii_hex_exec(v[j])
        invariant
            lo <= i <= j <= hi <= v.len(),
            t == v@.subrange(lo as int, hi as int),
            hex_run(t, j - lo) == hex_run(t, i - lo),
        decreases hi - j,
    {
        j += 1;
    }
    j
}

/// Label name span `(1, e)` of `v[lo..hi]` relative to `lo`, if it is a label line.
pub fn label_name_exec(v: &[char], lo: usize, hi: usize) -> (r: Option<usize>)
    requires
        lo <= hi <= v.len(),
    ensures
        match label_name(v@.subrange(lo as int, hi as int)) {
            Some(n) => r.is_some() && lo + 1 <= r.unwrap() <= hi && n == v@.subrange(
                lo + 1,
                r.unwrap() as int,
            ),
            None => r.is_none(),
        },
{
    let ghost t = v@.subrange(lo as int, hi as int);
    if hi == lo || v[lo] != '@' {
        return None;
    }
    let e = word_run_exec(v, lo, lo + 1, hi);
    if e > lo + 1 && e < hi && v[e] == ':' {
        assert(t.subrange(1, e - lo) == v@.subrange(lo + 1, e as int));
        Some(e)
    } else {
        None
    }
}

fn is_hex_label_exec(v: &[char], lo: usize, hi: usize) -> (r: bool)
    requires
        lo <= hi <= v.len(),
    ensures
        r == is_hex_label_line(v@.subrange(lo as int, hi as int)),
{
    if hi == lo || v[lo] != '@' {
        return false;
    }
    let e = hex_run_exec(v, lo, lo + 1, hi);
    e - lo >= 5 && e < hi && v[e] == ':'
}

fn hex_lits_exec(v: &[char], lo: usize, hi: usize) -> (n: usize)
    requires
        lo <= hi <= v.len(),
    ensures
        n == hex_lits_from(v@.subrange(lo as int, hi as int), 0),
{
    let ghost t = v@.subrange(lo as int, hi as int);
    let mut i = lo;
    let mut n: usize = 0;
    while i < hi
        invariant
            lo <= i <= hi <= v.len(),
            t == v@.subrange(lo as int, hi as int),
            n + hex_lits_from(t, i - lo) == hex_lits_from(t, 0),
            n <= i - lo,
        decreases hi - i,
    {
        if hi - i > 2 && v[i] == '0' && v[i + 1] == 'x' && is_ascii_hex_exec(v[i + 2]) {
            let e = hex_run_exec(v, lo, i + 2, hi);
            proof {
                lemma_runs(t, i + 2 - lo);
            }
            n += 1;
            i = e;
        } else {
            i += 1;
        }
    }
    n
}

/// `v[lo..hi]` with trailing `'\r'`/`'\n'` dropped: returns the new end.
fn strip_eol_exec(v: &[char], lo: usize, hi: usize) -> (e: usize)
    requires
        lo <= hi <= v.len(),
    ensures
        lo <= e <= hi,
        strip_eol(v@.subrange(lo as int, hi as int)) == v@.subrange(lo as int, e as int),
{
    let mut e = hi;
    while e > lo && (v[e - 1] == '\r' || v[e - 1] == '\n')
        invariant
            lo <= e <= hi <= v.len(),
            strip_eol(v@.subrange(lo as int, hi as int)) == strip_eol(
                v@.subrange(lo as int, e as int),
            ),
        decreases e - lo,
    {
        assert(v@.subrange(lo as int, e as int).drop_last() == v@.subrange(lo as int, e - 1));
        e -= 1;
    }
    e
}

/// The labelled line starting at `i` (ending before `e`), if it carries a label.
fn label_at(v: &[char], i: usize, e: usize, line: usize, byte_idx: usize) -> (r: Option<
    Z4LabelLine,
>)
    requires
        i < v.len(),
        e == next_nl(v@, i as int),
        byte_idx == byte_len(v@.take(i as int)),
    ensures
        ({
            let text = strip_eol(v@.subrange(i as int, e as int));
            match label_name(text) {
                Some(name) => r.is_some() && label_agrees(
                    r.unwrap(),
                    LabelSpec {
                        name,
                        line: line as int,
                        start_char: i as int,
                        signature: trim_s(text),
                        hex_literal_count: hex_lits_from(text, 0),
                        is_hex_label: is_hex_label_line(text),
                    },
                    v@,
                ),
                None => r.is_none(),
            }
        }),
{
    proof {
        lemma_next_nl(v@, i as int);
    }
    let te = strip_eol_exec(v, i, e);
    match label_name_exec(v, i, te) {
        Some(ne) => {
            let name = string_of_range(v, i + 1, ne);
            let (sa, sb) = trim_bounds(v, i, te);
            let signature = string_of_range(v, sa, sb);
            let hex_count = hex_lits_exec(v, i, te);
            let is_hex = is_hex_label_exec(v, i, te);
            Some(
                Z4LabelLine {
                    name,
                    line: line as u32,
                    start_char: i,
                    start_byte: byte_idx,
                    signature,
                    hex_literal_count: hex_count,
                    is_hex_label: is_hex,
                },
            )
        },
        None => None,
    }
}

/// Byte offset of position `j` given the byte offset of position `i <= j`.
fn advance_bytes(v: &[char], i: usize, j: usize, byte_idx: usize) -> (r: usize)
    requires
        i <= j <= v.len(),
        byte_idx == byte_len(v@.take(i as int)),
        byte_len(v@) <= usize::MAX,
    ensures
        r == byte_len(v@.take(j as int)),
{
    let mut k = i;
    let mut b = byte_idx;
    while k < j
        invariant
            i <= k <= j <= v.len(),
            b == byte_len(v@.take(k as int)),
            byte_len(v@) <= usize::MAX,
        decreases j - k,
    {
        proof {
            lemma_byte_len_take(v@, k as int);
            lemma_byte_len_mono(v@, k + 1, k + 1);
        }
        b = b + char_width(v[k]);
        k += 1;
    }
    b
}

proof fn lemma_labels_step(s: Seq<char>, i: int, line: int)
    requires
        0 <= i < s.len(),
    ensures
        ({
            let e = next_nl(s, i);
            let text = strip_eol(s.subrange(i, e));
            let rest = labels_from(s, e + 1, line + 1);
            &&& i <= e <= s.len()
            &&& labels_from(s, i, line) == match label_name(text) {
                Some(name) => seq![
                    LabelSpec {
                        name,
                        line,
                        start_char: i,
                        signature: trim_s(text),
                        hex_literal_count: hex_lits_from(text, 0),
                        is_hex_label: is_hex_label_line(text),
                    },
                ] + rest,
                None => rest,
            }
        }),
{
    lemma_next_nl(s, i);
}

/// The labelled lines of a z4 source, in order.
pub fn scan_labels(v: &[char]) -> (r: Vec<Z4LabelLine>)
    requires
        byte_len(v@) <= usize::MAX,
    ensures
        r.len() == labels_s(v@).len(),
        forall|k: int| 0 <= k < r.len() ==> label_agrees(#[trigger] r@[k], labels_s(v@)[k], v@),
{
    let mut r: Vec<Z4LabelLine> = Vec::new();
    let mut i: usize = 0;
    let mut line: usize = 0;
    let mut byte_idx: usize = 0;
    let ghost whole = labels_s(v@);
    while i < v.len()
        invariant
            i <= v.len(),
            byte_len(v@) <= usize::MAX,
            byte_idx == byte_len(v@.take(i as int)),
            line <= i,
            whole == labels_s(v@),
            r@.len() + labels_from(v@, i as int, line as int).len() == whole.len(),
            forall|k: int| 0 <= k < r.len() ==> label_agrees(#[trigger] r@[k], whole[k], v@),
            forall|k: int|
                0 <= k < labels_from(v@, i as int, line as int).len() ==> #[trigger] whole[r.len()
                    + k] == labels_from(v@, i as int, line as int)[k],
        decreases v.len() - i,
    {
        let e = next_nl_exec(v, i);
        proof {
            lemma_labels_step(v@, i as int, line as int);
        }
        let ghost cur = labels_from(v@, i as int, line as int);
        let ghost rest = labels_from(v@, e + 1, line + 1);
        let item = label_at(v, i, e, line, byte_idx);
        let ghost n0 = r.len() as int;
        match item {
            Some(it) => {
                r.push(it);
                assert(cur.len() == rest.len() + 1);
                assert(whole[n0 + 0] == cur[0]);
                assert forall|k: int|
                    0 <= k < rest.len() implies #[trigger] whole[r.len() + k] == rest[k] by {
                    assert(cur[k + 1] == rest[k]);
                    assert(whole[n0 + (k + 1)] == cur[k + 1]);
                }
            },
            None => {
                assert(cur == rest);
            },
        }
        let next = if e < v.len() {
            e + 1
        } else {
            e
        };
        byte_idx = advance_bytes(v, i, next, byte_idx);
        proof {
            if e >= v.len() {
                assert(labels_from(v@, next as int, line + 1).len() == 0);
                assert(rest.len() == 0);
            }
        }
        i = next;
        line = line + 1;
    }
    r
}

// ───────────────────────── symbols ─────────────────────────

/// A symbol found in a z4 source.
pub struct Symbol {
    pub name: String,
    pub kind: String,
    pub line: u32,
    pub line_end: u32,
    pub start_byte: usize,
    pub end_byte: usize,
    pub signature: Option<String>,
}

/// `u32::saturating_sub(a, 1)`.
pub open spec fn dec_sat(a: u32) -> u32 {
    if a == 0 {
        0
    } else {
        (a - 1) as u32
    }
}

/// The kind reported for a label.
pub open spec fn label_kind(g: LabelSpec) -> Seq<char> {
    if g.is_hex_label {
        "hex_label"@
    } else {
        "label"@
    }
}

/// Last line of the symbol for label `k` of `s`.
pub open spec fn symbol_line_end(s: Seq<char>, k: int) -> u32 {
    let l = labels_s(s);
    if k + 1 < l.len() {
        dec_sat(l[k + 1].line as u32)
    } else {
        (if line_count(s) == 0 {
            0
        } else {
            line_count(s) - 1
        }) as u32
    }
}

/// Character position where the symbol for label `k` of `s` ends.
pub open spec fn symbol_end_char(s: Seq<char>, k: int) -> int {
    let l = labels_s(s);
    if k + 1 < l.len() {
        l[k + 1].start_char
    } else {
        s.len() as int
    }
}

/// `sym` is the symbol extracted for label `k` of `s`.
pub open spec fn symbol_agrees(sym: Symbol, s: Seq<char>, k: int) -> bool {
    let g = labels_s(s)[k];
    &&& sym.name@ == g.name
    &&& sym.kind@ == label_kind(g)
    &&& sym.line == g.line as u32
    &&& sym.line_end == symbol_line_end(s, k)
    &&& sym.start_byte == byte_len(s.take(g.start_char))
    &&& sym.end_byte == byte_len(s.take(symbol_end_char(s, k)))
    &&& sym.signature matches Some(sig) && sig@ == g.signature
}

pub proof fn lemma_labels_from_bounds(s: Seq<char>, i: int, line: int)
    requires
        0 <= i,
        0 <= line,
    ensures
        forall|k: int|
            0 <= k < labels_from(s, i, line).len() ==> {
                let g = #[trigger] labels_from(s, i, line)[k];
                &&& i <= g.start_char < s.len()
                &&& line <= g.line
                &&& g.line - line <= g.start_char - i
            },
        forall|a: int, b: int|
            0 <= a < b < labels_from(s, i, line).len() ==> #[trigger] labels_from(s, i, line)[a].start_char
                < #[trigger] labels_from(s, i, line)[b].start_char && labels_from(s, i, line)[a].line
                < labels_from(s, i, line)[b].line,
    decreases s.len() + 1 - i,
{
    if i < s.len() {
        lemma_next_nl(s, i);
        let e = next_nl(s, i);
        lemma_labels_from_bounds(s, e + 1, line + 1);
        lemma_labels_step(s, i, line);
        let rest = labels_from(s, e + 1, line + 1);
        let cur = labels_from(s, i, line);
        if cur.len() == rest.len() + 1 {
            assert forall|k: int| 0 <= k < rest.len() implies cur[k + 1] == rest[k] by {}
        }
    }
}

/// Number of lines in `v` (`str::lines().count()`).
pub fn line_count_exec(v: &[char]) -> (n: usize)
    ensures
        n == line_count(v@),
{
    let mut n: usize = 0;
    let mut i: usize = 0;
    while i < v.len()
        invariant
            i <= v.len(),
            n == count_char(v@.take(i as int), '\n'),
            n <= i,
        decreases v.len() - i,
    {
        assert(v@.take(i + 1).drop_last() == v@.take(i as int));
        if v[i] == '\n' {
            n += 1;
        }
        i += 1;
    }
    assert(v@.take(v.len() as int) == v@);
    if v.len() > 0 && v[v.len() - 1] != '\n' {
        proof {
            lemma_count_char_le(v@.drop_last(), '\n');
        }
        n + 1
    } else {
        n
    }
}

pub proof fn lemma_count_char_le(s: Seq<char>, c: char)
    ensures
        count_char(s, c) <= s.len(),
    decreases s.len(),
{
    if s.len() > 0 {
        lemma_count_char_le(s.drop_last(), c);
    }
}

/// Symbols of a z4 source given as characters.
pub fn symbols_of(v: &[char]) -> (r: Vec<Symbol>)
    requires
        byte_len(v@) <= usize::MAX,
    ensures
        r.len() == labels_s(v@).len(),
        forall|k: int| 0 <= k < r.len() ==> symbol_agrees(#[trigger] r@[k], v@, k),
{
    let labels = scan_labels(v);
    let total = byte_len_of(v);
    let lines = line_count_exec(v);
    let last_line: u32 = if lines == 0 {
        0
    } else {
        (lines - 1) as u32
    };
    let ghost l = labels_s(v@);
    proof {
        lemma_labels_from_bounds(v@, 0, 0);
    }
    let mut r: Vec<Symbol> = Vec::new();
    let mut k: usize = 0;
    while k < labels.len()
        invariant
            k <= labels.len(),
            labels.len() == l.len(),
            l == labels_s(v@),
            total == byte_len(v@),
            last_line == (if line_count(v@) == 0 {
                0
            } else {
                line_count(v@) - 1
            }) as u32,
            forall|j: int| 0 <= j < labels.len() ==> label_agrees(#[trigger] labels@[j], l[j], v@),
            r.len() == k,
            forall|j: int| 0 <= j < k ==> symbol_agrees(#[trigger] r@[j], v@, j),
        decreases labels.len() - k,
    {
        let lab = &labels[k];
        assert(label_agrees(labels@[k as int], l[k as int], v@));
        let (line_end, end_byte) = if k + 1 < labels.len() {
            let next = &labels[k + 1];
            assert(label_agrees(labels@[k + 1], l[k + 1], v@));
            (
                if next.line == 0 {
                    0
                } else {
                    next.line - 1
                },
                next.start_byte,
            )
        } else {
            (last_line, total)
        };
        let kind = if lab.is_hex_label {
            String::from_str("hex_label")
        } else {
            String::from_str("label")
        };
        let sym = Symbol {
            name: lab.name.clone(),
            kind,
            line: lab.line,
            line_end,
            start_byte: lab.start_byte,
            end_byte,
            signature: Some(lab.signature.clone()),
        };
        r.push(sym);
        k += 1;
    }
    r
}

// ───────────────────────── summaries ─────────────────────────

/// Counters describing a z4 source.
#[derive(Debug, Clone, Copy, Default)]
pub struct Z4FileSummary {
    pub labels: usize,
    pub hex_labels: usize,
    pub hex_literals: usize,
    pub doc_hex_rows: usize,
    pub bytes: usize,
    pub lines: usize,
    pub label_density_per_kib: usize,
    pub hex_density_per_kib: usize,
}

/// Number of hex labels in `l`.
pub open spec fn count_hex_labels(l: Seq<LabelSpec>) -> nat
    decreases l.len(),
{
    if l.len() == 0 {
        0
    } else {
        count_hex_labels(l.drop_last()) + if l.last().is_hex_label {
            1nat
        } else {
            0nat
        }
    }
}

/// The marker of a `DATA` row whose `DOC` is a hex literal.
pub open spec fn doc_row_marker() -> Seq<char> {
    "DATA DOC:\"0x"@
}

/// Number of lines from the line starting at `i` on that contain the doc-row marker.
pub open spec fn doc_rows_from(s: Seq<char>, i: int) -> nat
    decreases s.len() + 1 - i,
{
    if i < 0 || i >= s.len() {
        0
    } else {
        let e = next_nl(s, i);
        if e < i {
            0
        } else {
            proof {
                lemma_next_nl(s, i);
            }
            (if contains_s(line_text(s, i), doc_row_marker()) {
                1nat
            } else {
                0nat
            }) + doc_rows_from(s, e + 1)
        }
    }
}

/// `usize::saturating_mul(a, 1024) / b` for `b > 0`, else `0`.
pub open spec fn density(a: nat, b: nat) -> nat {
    if b == 0 {
        0
    } else {
        let m = a * 1024;
        (if m > usize::MAX {
            usize::MAX as nat
        } else {
            m
        }) / b
    }
}

/// The summary of a z4 source.
pub open spec fn summary_agrees(r: Z4FileSummary, s: Seq<char>) -> bool {
    let l = labels_s(s);
    &&& r.labels == l.len()
    &&& r.hex_labels == count_hex_labels(l)
    &&& r.hex_literals == hex_lits_from(s, 0)
    &&& r.doc_hex_rows == doc_rows_from(s, 0)
    &&& r.bytes == byte_len(s)
    &&& r.lines == line_count(s)
    &&& r.label_density_per_kib == density(l.len(), byte_len(s))
    &&& r.hex_density_per_kib == density(hex_lits_from(s, 0), byte_len(s))
}

fn density_exec(a: usize, b: usize) -> (r: usize)
    ensures
        r == density(a as nat, b as nat),
{
    if b == 0 {
        0
    } else {
        let m = if a > usize::MAX / 1024 {
            usize::MAX
        } else {
            a * 1024
        };
        m / b
    }
}

/// Line-text bounds `[i, t)` for the line starting at `i` and ending at `e`.
pub fn line_text_end(v: &[char], i: usize, e: usize) -> (t: usize)
    requires
        i <= e <= v.len(),
        e == next_nl(v@, i as int),
    ensures
        i <= t <= e,
        line_text(v@, i as int) == v@.subrange(i as int, t as int),
{
    if e < v.len() && e > i && v[e - 1] == '\r' {
        e - 1
    } else {
        e
    }
}

fn doc_rows_exec(v: &[char]) -> (n: usize)
    ensures
        n == doc_rows_from(v@, 0),
{
    let marker = chars_of("DATA DOC:\"0x");
    let mut i: usize = 0;
    let mut n: usize = 0;
    while i < v.len()
        invariant
            i <= v.len(),
            marker@ == doc_row_marker(),
            n <= i,
            n + doc_rows_from(v@, i as int) == doc_rows_from(v@, 0),
        decreases v.len() - i,
    {
        let e = next_nl_exec(v, i);
        proof {
            lemma_next_nl(v@, i as int);
        }
        let t = line_text_end(v, i, e);
        let line = slice_chars(v, i, t);
        assert(doc_rows_from(v@, i as int) == (if contains_s(line_text(v@, i as int), doc_row_marker()) {
            1nat
        } else {
            0nat
        }) + doc_rows_from(v@, e + 1));
        if contains(&line, &marker) {
            n += 1;
        }
        assert(doc_rows_from(v@, v.len() as int) == 0);
        i = if e < v.len() {
            e + 1
        } else {
            e
        };
    }
    n
}

/// A copy of `v[a..b]`.
pub fn slice_chars(v: &[char], a: usize, b: usize) -> (r: Vec<char>)
    requires
        a <= b <= v.len(),
    ensures
        r@ == v@.subrange(a as int, b as int),
{
    let mut r: Vec<char> = Vec::new();
    let mut i = a;
    while i < b
        invariant
            a <= i <= b <= v.len(),
            r@ == v@.subrange(a as int, i as int),
        decreases b - i,
    {
        r.push(v[i]);
        i += 1;
    }
    r
}

fn count_hex_labels_exec(labels: &Vec<Z4LabelLine>, Ghost(l): Ghost<Seq<LabelSpec>>, Ghost(
    s,
): Ghost<Seq<char>>) -> (n: usize)
    requires
        labels.len() == l.len(),
        forall|j: int| 0 <= j < labels.len() ==> label_agrees(#[trigger] labels@[j], l[j], s),
    ensures
        n == count_hex_labels(l),
{
    let mut n: usize = 0;
    let mut k: usize = 0;
    while k < labels.len()
        invariant
            k <= labels.len() == l.len(),
            forall|j: int| 0 <= j < labels.len() ==> label_agrees(#[trigger] labels@[j], l[j], s),
            n == count_hex_labels(l.take(k as int)),
            n <= k,
        decreases labels.len() - k,
    {
        assert(l.take(k + 1).drop_last() == l.take(k as int));
        assert(label_agrees(labels@[k as int], l[k as int], s));
        if labels[k].is_hex_label {
            n += 1;
        }
        k += 1;
    }
    assert(l.take(l.len() as int) == l);
    n
}

/// Counters of a z4 source given as characters.
pub fn summary_of(v: &[char]) -> (r: Z4FileSummary)
    requires
        byte_len(v@) <= usize::MAX,
    ensures
        summary_agrees(r, v@),
{
    let labels = scan_labels(v);
    let hex_labels = count_hex_labels_exec(&labels, Ghost(labels_s(v@)), Ghost(v@));
    let bytes = byte_len_of(v);
    let lines = line_count_exec(v);
    let hex_literals = hex_lits_exec(v, 0, v.len());
    assert(v@.subrange(0, v.len() as int) == v@);
    let doc_hex_rows = doc_rows_exec(v);
    Z4FileSummary {
        labels: labels.len(),
        hex_labels,
        hex_literals,
        doc_hex_rows,
        bytes,
        lines,
        label_density_per_kib: density_exec(labels.len(), bytes),
        hex_density_per_kib: density_exec(hex_literals, bytes),
    }
}

// ───────────────────────── density map ─────────────────────────

/// Number of buckets of the density map of a text of `bytes` bytes.
pub open spec fn bucket_count_s(bytes: nat) -> nat {
    if bytes == 0 {
        1
    } else {
        let c = (bytes + 1023) / 1024;
        if c < 1 {
            1
        } else if c > 8 {
            8
        } else {
            c
        }
    }
}

/// Bytes per bucket of the density map.
pub open spec fn bucket_size_s(bytes: nat) -> nat {
    let m = if bytes == 0 {
        1
    } else {
        bytes
    };
    let c = bucket_count_s(bytes);
    ((m + c - 1) as nat) / c
}

/// The bucket a label starting at byte `start` falls into.
pub open spec fn bucket_of(start: nat, size: nat, count: nat) -> nat {
    let b = start / size;
    if b > count - 1 {
        (count - 1) as nat
    } else {
        b
    }
}

/// (labels, hex labels, hex literals) of the labels `l` of `s` that fall into bucket `b`.
pub open spec fn bucket_stats(s: Seq<char>, l: Seq<LabelSpec>, b: nat, size: nat, count: nat) -> (
    nat,
    nat,
    nat,
)
    decreases l.len(),
{
    if l.len() == 0 {
        (0, 0, 0)
    } else {
        let p = bucket_stats(s, l.drop_last(), b, size, count);
        let g = l.last();
        if bucket_of(byte_len(s.take(g.start_char)), size, count) == b {
            (p.0 + 1, p.1 + if g.is_hex_label {
                1nat
            } else {
                0nat
            }, p.2 + g.hex_literal_count)
        } else {
            p
        }
    }
}

/// `min(a * b, usize::MAX)`.
pub open spec fn sat_mul(a: nat, b: nat) -> nat {
    if a * b > usize::MAX {
        usize::MAX as nat
    } else {
        a * b
    }
}

/// The line describing bucket `b`.
pub open spec fn bucket_line(s: Seq<char>, b: nat) -> Seq<char> {
    let bytes = byte_len(s);
    let size = bucket_size_s(bytes);
    let count = bucket_count_s(bytes);
    let st = bucket_stats(s, labels_s(s), b, size, count);
    let start = sat_mul(b, size);
    let end0 = sat_mul(b + 1, size);
    let end = if end0 < bytes {
        end0
    } else {
        bytes
    };
    "0x"@ + hex4_s(start) + "..0x"@ + hex4_s(end) + " labels=0x"@ + hex_s(st.0)
        + " hex_labels=0x"@ + hex_s(st.1) + " hex_literals=0x"@ + hex_s(st.2) + "\n"@
}

/// Lines of buckets `b..count`.
pub open spec fn bucket_lines(s: Seq<char>, b: nat, count: nat) -> Seq<char>
    decreases count - b,
{
    if b >= count {
        seq![]
    } else {
        bucket_line(s, b) + bucket_lines(s, b + 1, count)
    }
}

/// The counter line of the density map.
pub open spec fn density_counters(s: Seq<char>) -> Seq<char> {
    let l = labels_s(s);
    "labels=0x"@ + hex_s(l.len()) + " hex_labels=0x"@ + hex_s(count_hex_labels(l))
        + " hex_literals=0x"@ + hex_s(hex_lits_from(s, 0)) + " doc_hex_rows=0x"@ + hex_s(
        doc_rows_from(s, 0),
    ) + " bytes=0x"@ + hex_s(byte_len(s)) + " lines=0x"@ + hex_s(line_count(s))
        + " label_density_per_kib=0x"@ + hex_s(density(l.len(), byte_len(s)))
        + " hex_density_per_kib=0x"@ + hex_s(density(hex_lits_from(s, 0), byte_len(s))) + "\n"@
}

/// The whole density map of a z4 source.
pub open spec fn density_map_s(s: Seq<char>) -> Seq<char> {
    "# Z4_HEX_LABEL_DENSITY\n"@ + density_counters(s) + bucket_lines(
        s,
        0,
        bucket_count_s(byte_len(s)),
    )
}

/// `lab`, `hexl` and `lits` hold the per-bucket statistics of the labels `l` of `s`.
pub open spec fn buckets_hold(
    lab: Seq<usize>,
    hexl: Seq<usize>,
    lits: Seq<usize>,
    s: Seq<char>,
    l: Seq<LabelSpec>,
    size: nat,
    count: nat,
) -> bool {
    &&& lab.len() == count && hexl.len() == count && lits.len() == count
    &&& forall|j: int|
        #![trigger lab[j]]
        0 <= j < count ==> lab[j] == bucket_stats(s, l, j as nat, size, count).0 && hexl[j]
            == bucket_stats(s, l, j as nat, size, count).1 && lits[j] == bucket_stats(
            s,
            l,
            j as nat,
            size,
            count,
        ).2 && bucket_stats(s, l, j as nat, size, count).0 <= l.len() && bucket_stats(
            s,
            l,
            j as nat,
            size,
            count,
        ).1 <= l.len() && bucket_stats(s, l, j as nat, size, count).2 <= hex_sum(l)
}

proof fn lemma_bucket_step(
    s: Seq<char>,
    l: Seq<LabelSpec>,
    k: int,
    j: nat,
    size: nat,
    count: nat,
)
    requires
        0 <= k < l.len(),
        size >= 1,
        count >= 1,
    ensures
        ({
            let g = l[k];
            let p = bucket_stats(s, l.take(k), j, size, count);
            let q = bucket_stats(s, l.take(k + 1), j, size, count);
            if bucket_of(byte_len(s.take(g.start_char)), size, count) == j {
                q == (p.0 + 1, p.1 + if g.is_hex_label {
                    1nat
                } else {
                    0nat
                }, p.2 + g.hex_literal_count)
            } else {
                q == p
            }
        }),
{
    assert(l.take(k + 1).drop_last() == l.take(k));
    assert(l.take(k + 1).last() == l[k]);
}

proof fn lemma_buckets_update(
    lab0: Seq<usize>,
    hexl0: Seq<usize>,
    lits0: Seq<usize>,
    lab: Seq<usize>,
    hexl: Seq<usize>,
    lits: Seq<usize>,
    s: Seq<char>,
    l: Seq<LabelSpec>,
    k: int,
    idx: int,
    size: nat,
    count: nat,
)
    requires
        0 <= k < l.len(),
        size >= 1,
        count >= 1,
        0 <= idx < count,
        idx == bucket_of(byte_len(s.take(l[k].start_char)), size, count),
        buckets_hold(lab0, hexl0, lits0, s, l.take(k), size, count),
        lab == lab0.update(idx, (lab0[idx] + 1) as usize),
        hexl == if l[k].is_hex_label {
            hexl0.update(idx, (hexl0[idx] + 1) as usize)
        } else {
            hexl0
        },
        lits == lits0.update(idx, (lits0[idx] + l[k].hex_literal_count) as usize),
        lab0[idx] + 1 <= usize::MAX,
        hexl0[idx] + 1 <= usize::MAX,
        lits0[idx] + l[k].hex_literal_count <= usize::MAX,
        hex_sum(l.take(k + 1)) == hex_sum(l.take(k)) + l[k].hex_literal_count,
    ensures
        buckets_hold(lab, hexl, lits, s, l.take(k + 1), size, count),
{
    assert forall|j: int| 0 <= j < count implies {
        let st = bucket_stats(s, l.take(k + 1), j as nat, size, count);
        &&& #[trigger] lab[j] == st.0
        &&& hexl[j] == st.1
        &&& lits[j] == st.2
        &&& st.0 <= l.take(k + 1).len()
        &&& st.1 <= l.take(k + 1).len()
        &&& st.2 <= hex_sum(l.take(k + 1))
    } by {
        lemma_bucket_step(s, l, k, j as nat, size, count);
        let p = bucket_stats(s, l.take(k), j as nat, size, count);
        assert(lab0.len() == count);
        assert(lab0[j] == bucket_stats(s, l.take(k), j as nat, size, count).0);
        assert(lab0[j] == p.0 && hexl0[j] == p.1 && lits0[j] == p.2);
        assert(p.0 <= k && p.1 <= k && p.2 <= hex_sum(l.take(k)));
        let st = bucket_stats(s, l.take(k + 1), j as nat, size, count);
        if j == idx {
            assert(st.0 == p.0 + 1);
            assert(lab[j] == st.0);
            assert(lits[j] == st.2);
            assert(hexl[j] == st.1);
        } else {
            assert(st == p);
            assert(lab[j] == st.0);
            assert(lits[j] == st.2);
            assert(hexl[j] == st.1);
        }
    }
}

fn push_bucket_line(
    out: &mut String,
    b: usize,
    size: usize,
    count: usize,
    len: usize,
    nl: usize,
    nh: usize,
    nx: usize,
    Ghost(s): Ghost<Seq<char>>,
)
    requires
        len == byte_len(s),
        size == bucket_size_s(len as nat),
        count == bucket_count_s(len as nat),
        b < count <= 8,
        ({
            let st = bucket_stats(s, labels_s(s), b as nat, size as nat, count as nat);
            nl == st.0 && nh == st.1 && nx == st.2
        }),
    ensures
        final(out)@ == old(out)@ + bucket_line(s, b as nat),
{
    let ghost o = out@;
    let start = sat_mul_exec(b, size);
    let end0 = sat_mul_exec(b + 1, size);
    let end = if end0 < len {
        end0
    } else {
        len
    };
    push_str(out, "0x");
    push_hex4(out, start as u64);
    push_str(out, "..0x");
    push_hex4(out, end as u64);
    push_str(out, " labels=0x");
    push_hex_usize(out, nl);
    push_str(out, " hex_labels=0x");
    push_hex_usize(out, nh);
    push_str(out, " hex_literals=0x");
    push_hex_usize(out, nx);
    push_str(out, "\n");
    assert(out@ == o + bucket_line(s, b as nat));
}

fn push_hex_usize(out: &mut String, n: usize)
    ensures
        final(out)@ == old(out)@ + hex_s(n as nat),
{
    push_hex(out, n as u64);
}

fn push_counters(out: &mut String, sm: &Z4FileSummary, Ghost(s): Ghost<Seq<char>>)
    requires
        summary_agrees(*sm, s),
    ensures
        final(out)@ == old(out)@ + density_counters(s),
{
    let ghost o = out@;
    push_str(out, "labels=0x");
    push_hex_usize(out, sm.labels);
    push_str(out, " hex_labels=0x");
    push_hex_usize(out, sm.hex_labels);
    push_str(out, " hex_literals=0x");
    push_hex_usize(out, sm.hex_literals);
    push_str(out, " doc_hex_rows=0x");
    push_hex_usize(out, sm.doc_hex_rows);
    push_str(out, " bytes=0x");
    push_hex_usize(out, sm.bytes);
    push_str(out, " lines=0x");
    push_hex_usize(out, sm.lines);
    push_str(out, " label_density_per_kib=0x");
    push_hex_usize(out, sm.label_density_per_kib);
    push_str(out, " hex_density_per_kib=0x");
    push_hex_usize(out, sm.hex_density_per_kib);
    push_str(out, "\n");
    assert(out@ == o + density_counters(s));
}

fn sat_mul_exec(a: usize, b: usize) -> (r: usize)
    ensures
        r == sat_mul(a as nat, b as nat),
{
    if b != 0 && a > usize::MAX / b {
        proof {
            assert(a * b > usize::MAX) by (nonlinear_arith)
                requires
                    b != 0,
                    a > usize::MAX / b,
            ;
        }
        usize::MAX
    } else {
        proof {
            assert(a * b <= usize::MAX) by (nonlinear_arith)
                requires
                    b == 0 || a <= usize::MAX / b,
            ;
        }
        a * b
    }
}

/// The density map of a z4 source given as characters.
pub fn density_map_of(v: &[char]) -> (out: String)
    requires
        byte_len(v@) <= usize::MAX,
    ensures
        out@ == density_map_s(v@),
{
    let ghost s = v@;
    let summary = summary_of(v);
    let labels = scan_labels(v);
    let ghost l = labels_s(s);
    let len = summary.bytes;
    let bucket_count: usize = if len == 0 {
        1
    } else {
        let c = len / 1024 + if len % 1024 == 0 {
            0
        } else {
            1
        };
        if c < 1 {
            1
        } else if c > 8 {
            8
        } else {
            c
        }
    };
    assert(bucket_count == bucket_count_s(len as nat));
    let m = if len == 0 {
        1
    } else {
        len
    };
    proof {
        let mm = m as int;
        let cc = bucket_count as int;
        assert(mm % cc != 0 ==> mm / cc < mm) by (nonlinear_arith)
            requires
                cc >= 1,
                mm >= 1,
        ;
    }
    let bucket_size = m / bucket_count + if m % bucket_count == 0 {
        0
    } else {
        1
    };
    proof {
        let mm = m as int;
        let cc = bucket_count as int;
        assert((mm + cc - 1) / cc == mm / cc + (if mm % cc == 0 {
            0int
        } else {
            1int
        }) && (mm >= 1 ==> (mm + cc - 1) / cc >= 1)) by (nonlinear_arith)
            requires
                cc >= 1,
                mm >= 0,
        ;
    }
    assert(bucket_size == bucket_size_s(len as nat));
    assert(bucket_size >= 1);
    let mut lab: Vec<usize> = Vec::new();
    let mut hexl: Vec<usize> = Vec::new();
    let mut lits: Vec<usize> = Vec::new();
    let mut b: usize = 0;
    while b < bucket_count
        invariant
            b <= bucket_count <= 8,
            lab.len() == b && hexl.len() == b && lits.len() == b,
            forall|j: int| 0 <= j < b ==> lab@[j] == 0 && hexl@[j] == 0 && lits@[j] == 0,
        decreases bucket_count - b,
    {
        lab.push(0);
        hexl.push(0);
        lits.push(0);
        b += 1;
    }
    proof {
        lemma_hex_sum_labels(s, 0, 0);
        assert(l.take(0) == Seq::<LabelSpec>::empty());
    }
    let mut k: usize = 0;
    while k < labels.len()
        invariant
            k <= labels.len() == l.len(),
            l == labels_s(s),
            s == v@,
            hex_sum(l) <= s.len(),
            1 <= bucket_count <= 8,
            bucket_size >= 1,
            forall|j: int| 0 <= j < labels.len() ==> label_agrees(#[trigger] labels@[j], l[j], s),
            buckets_hold(
                lab@,
                hexl@,
                lits@,
                s,
                l.take(k as int),
                bucket_size as nat,
                bucket_count as nat,
            ),
        decreases labels.len() - k,
    {
        let item = &labels[k];
        assert(label_agrees(labels@[k as int], l[k as int], s));
        let q = item.start_byte / bucket_size;
        let idx = if q > bucket_count - 1 {
            bucket_count - 1
        } else {
            q
        };
        let ghost lk = l.take(k as int);
        let ghost lk1 = l.take(k + 1);
        proof {
            assert(lk1.drop_last() == lk);
            assert(lk1.last() == l[k as int]);
            lemma_hex_sum_prefix(l, k + 1);
        }
        let h = item.hex_literal_count;
        assert(lab@[idx as int] == lab@[idx as int]);
        assert(hex_sum(lk1) == hex_sum(lk) + h);
        assert(s.len() == v.len());
        let ghost lab0 = lab@;
        let ghost hexl0 = hexl@;
        let ghost lits0 = lits@;
        let a = lab[idx] + 1;
        lab.set(idx, a);
        if item.is_hex_label {
            let c = hexl[idx] + 1;
            hexl.set(idx, c);
        }
        let d = lits[idx] + h;
        lits.set(idx, d);
        proof {
            lemma_buckets_update(
                lab0,
                hexl0,
                lits0,
                lab@,
                hexl@,
                lits@,
                s,
                l,
                k as int,
                idx as int,
                bucket_size as nat,
                bucket_count as nat,
            );
        }
        k += 1;
    }
    assert(l.take(labels.len() as int) == l);
    let mut out = String::from_str("# Z4_HEX_LABEL_DENSITY\n");
    push_counters(&mut out, &summary, Ghost(s));
    let ghost target = density_map_s(s);
    assert(out@ + bucket_lines(s, 0, bucket_count as nat) == target);
    let mut b: usize = 0;
    while b < bucket_count
        invariant
            b <= bucket_count,
            1 <= bucket_count <= 8,
            bucket_count == bucket_count_s(len as nat),
            bucket_size == bucket_size_s(len as nat),
            len == byte_len(s),
            l == labels_s(s),
            target == density_map_s(s),
            buckets_hold(lab@, hexl@, lits@, s, l, bucket_size as nat, bucket_count as nat),
            out@ + bucket_lines(s, b as nat, bucket_count as nat) == target,
        decreases bucket_count - b,
    {
        let ghost o = out@;
        assert(lab@[b as int] == lab@[b as int]);
        push_bucket_line(&mut out, b, bucket_size, bucket_count, len, lab[b], hexl[b], lits[b], Ghost(s));
        assert(bucket_lines(s, b as nat, bucket_count as nat) == bucket_line(s, b as nat)
            + bucket_lines(s, (b + 1) as nat, bucket_count as nat));
        b += 1;
    }
    out
}

/// Sum of the hex literal counts of `l`.
pub open spec fn hex_sum(l: Seq<LabelSpec>) -> nat
    decreases l.len(),
{
    if l.len() == 0 {
        0
    } else {
        hex_sum(l.drop_last()) + l.last().hex_literal_count
    }
}

proof fn lemma_hex_sum_cons(g: LabelSpec, r: Seq<LabelSpec>)
    ensures
        hex_sum(seq![g] + r) == g.hex_literal_count + hex_sum(r),
    decreases r.len(),
{
    if r.len() > 0 {
        assert((seq![g] + r).drop_last() == seq![g] + r.drop_last());
        lemma_hex_sum_cons(g, r.drop_last());
    } else {
        assert(seq![g] + r == seq![g]);
        assert(seq![g].drop_last().len() == 0);
    }
}

proof fn lemma_hex_sum_prefix(l: Seq<LabelSpec>, k: int)
    requires
        0 <= k <= l.len(),
    ensures
        hex_sum(l.take(k)) <= hex_sum(l),
    decreases l.len() - k,
{
    if k < l.len() {
        lemma_hex_sum_prefix(l.drop_last(), k);
        assert(l.drop_last().take(k) == l.take(k));
    } else {
        assert(l.take(k) == l);
    }
}

proof fn lemma_hex_lits_le(t: Seq<char>, i: int)
    requires
        0 <= i <= t.len(),
    ensures
        hex_lits_from(t, i) <= t.len() - i,
    decreases t.len() - i,
{
    if i < t.len() {
        if i + 2 < t.len() && t[i] == '0' && t[i + 1] == 'x' && is_ascii_hex(t[i + 2]) {
            lemma_runs(t, i + 2);
            lemma_hex_lits_le(t, hex_run(t, i + 2));
        } else {
            lemma_hex_lits_le(t, i + 1);
        }
    }
}

proof fn lemma_strip_eol_len(t: Seq<char>)
    ensures
        strip_eol(t).len() <= t.len(),
    decreases t.len(),
{
    if t.len() > 0 && (t.last() == '\r' || t.last() == '\n') {
        lemma_strip_eol_len(t.drop_last());
    }
}

proof fn lemma_hex_sum_labels(s: Seq<char>, i: int, line: int)
    requires
        0 <= i,
    ensures
        hex_sum(labels_from(s, i, line)) + i <= s.len() || (i > s.len() && hex_sum(
            labels_from(s, i, line),
        ) == 0),
    decreases s.len() + 1 - i,
{
    if i < s.len() {
        lemma_labels_step(s, i, line);
        lemma_next_nl(s, i);
        let e = next_nl(s, i);
        lemma_hex_sum_labels(s, e + 1, line + 1);
        let text = strip_eol(s.subrange(i, e));
        lemma_strip_eol_len(s.subrange(i, e));
        lemma_hex_lits_le(text, 0);
        let rest = labels_from(s, e + 1, line + 1);
        match label_name(text) {
            Some(name) => {
                let g = LabelSpec {
                    name,
                    line,
                    start_char: i,
                    signature: trim_s(text),
                    hex_literal_count: hex_lits_from(text, 0),
                    is_hex_label: is_hex_label_line(text),
                };
                lemma_hex_sum_cons(g, rest);
            },
            None => {},
        }
    }
}

// ───────────────────────── reading one symbol ─────────────────────────

/// The first `n` elements of `s` (all of them when there are fewer).
pub open spec fn first_n<A>(s: Seq<A>, n: int) -> Seq<A> {
    if s.len() <= n {
        s
    } else {
        s.take(n)
    }
}

/// The texts `parts` joined with `'\n'` between them.
pub open spec fn join_nl(parts: Seq<Seq<char>>) -> Seq<char>
    decreases parts.len(),
{
    if parts.len() == 0 {
        seq![]
    } else if parts.len() == 1 {
        parts[0]
    } else {
        join_nl(parts.drop_last()) + seq!['\n'] + parts.last()
    }
}

/// Indices `k < n` of labels named exactly `q`, in order.
pub open spec fn exact_matches(l: Seq<LabelSpec>, q: Seq<char>, n: int) -> Seq<int>
    decreases n,
{
    if n <= 0 {
        seq![]
    } else if l[n - 1].name == q {
        exact_matches(l, q, n - 1).push(n - 1)
    } else {
        exact_matches(l, q, n - 1)
    }
}

/// Indices `k < n` of labels named `q` ignoring ASCII case, in order.
pub open spec fn case_matches(l: Seq<LabelSpec>, q: Seq<char>, n: int) -> Seq<int>
    decreases n,
{
    if n <= 0 {
        seq![]
    } else if eq_ignore_case(l[n - 1].name, q) {
        case_matches(l, q, n - 1).push(n - 1)
    } else {
        case_matches(l, q, n - 1)
    }
}

/// Labels a query selects: exact name matches, else case-insensitive ones.
pub open spec fn candidates(l: Seq<LabelSpec>, q: Seq<char>) -> Seq<int> {
    let e = exact_matches(l, q, l.len() as int);
    if e.len() > 0 {
        e
    } else {
        case_matches(l, q, l.len() as int)
    }
}

/// The listing entry of a label in the not-found message.
pub open spec fn listing_entry(g: LabelSpec) -> Seq<char> {
    "  "@ + label_kind(g) + " "@ + g.name
}

/// The message for a symbol that is not defined; `listing` is the sorted listing.
pub open spec fn not_found_text(q: Seq<char>, path: Seq<char>, listing: Seq<Seq<char>>) -> Seq<
    char,
> {
    "Symbol `"@ + q + "` not found in "@ + path + ".\nAvailable symbols (showing "@ + dec_s(
        listing.len(),
    ) + "):\n"@ + join_nl(listing)
}

/// The instance picked among `n` candidates.
pub open spec fn pick_index(instance: Option<usize>, n: nat) -> nat {
    let want: nat = match instance {
        Some(i) => i as nat,
        None => 0,
    };
    if want > n - 1 {
        (n - 1) as nat
    } else {
        want
    }
}

/// The disambiguation note shown when several labels match.
pub open spec fn disambiguation_text(name: Seq<char>, idx: nat, n: nat) -> Seq<char> {
    if n > 1 {
        "// \u{26a0}\u{fe0f} Disambiguation: Found "@ + dec_s(n) + " instances of `"@ + name
            + "` in this file. Showing instance "@ + dec_s(idx + 1) + " of "@ + dec_s(n)
            + " (1-based). Use `instance_index` param (0-based, 0.."@ + dec_s((n - 1) as nat)
            + ") to select a specific one.\n"@
    } else {
        seq![]
    }
}

/// Limit on the number of lines a symbol read shows.
pub open spec fn max_symbol_lines() -> nat {
    500
}

/// The text `read_symbol` returns for label `k` of `s`.
pub open spec fn symbol_read_text(
    s: Seq<char>,
    path: Seq<char>,
    k: int,
    idx: nat,
    n: nat,
    skeleton_only: bool,
) -> Seq<char> {
    let g = labels_s(s)[k];
    let start_line = g.line as u32 as nat + 1;
    let end_line = symbol_line_end(s, k) as nat + 1;
    let header = disambiguation_text(g.name, idx, n) + "// "@ + label_kind(g) + " `"@ + g.name
        + "` \u{2014} "@ + path + ":L"@ + dec_s(start_line) + "-L"@ + dec_s(end_line) + "\n"@;
    let rendered = if skeleton_only {
        g.signature + "\n"@
    } else {
        s.subrange(g.start_char, symbol_end_char(s, k))
    };
    let symbol_lines: nat = (if end_line >= start_line {
        end_line - start_line
    } else {
        0
    }) as nat + 1;
    if symbol_lines > max_symbol_lines() && !skeleton_only {
        header + join_nl(first_n(lines_s(rendered), max_symbol_lines() as int)) + "\n\n> \u{26a0}\u{fe0f} **Symbol truncated** \u{2014} `"@
            + g.name + "` is "@ + dec_s(symbol_lines) + " lines (limit: 500, stopped at L"@
            + dec_s(start_line + 499) + ")."@
    } else {
        header + rendered
    }
}

/// Bounds of the lines of `v` (`str::lines`).
pub fn line_bounds(v: &[char]) -> (r: Vec<(usize, usize)>)
    ensures
        r.len() == lines_s(v@).len(),
        forall|k: int|
            0 <= k < r.len() ==> {
                let (a, b) = #[trigger] r@[k];
                &&& a <= b <= v.len()
                &&& v@.subrange(a as int, b as int) == lines_s(v@)[k]
            },
{
    let mut r: Vec<(usize, usize)> = Vec::new();
    let mut i: usize = 0;
    let ghost whole = lines_s(v@);
    while i < v.len()
        invariant
            i <= v.len(),
            whole == lines_s(v@),
            r.len() + lines_from(v@, i as int).len() == whole.len(),
            forall|k: int|
                0 <= k < r.len() ==> {
                    let (a, b) = #[trigger] r@[k];
                    &&& a <= b <= v.len()
                    &&& v@.subrange(a as int, b as int) == whole[k]
                },
            forall|k: int|
                0 <= k < lines_from(v@, i as int).len() ==> #[trigger] whole[r.len() + k]
                    == lines_from(v@, i as int)[k],
        decreases v.len() - i,
    {
        let e = next_nl_exec(v, i);
        proof {
            lemma_next_nl(v@, i as int);
        }
        let t = line_text_end(v, i, e);
        let ghost cur = lines_from(v@, i as int);
        let ghost rest = lines_from(v@, e + 1);
        assert(cur == seq![line_text(v@, i as int)] + rest);
        let ghost n0 = r.len() as int;
        r.push((i, t));
        assert(whole[n0 + 0] == cur[0]);
        assert forall|k: int| 0 <= k < rest.len() implies #[trigger] whole[r.len() + k]
            == rest[k] by {
            assert(cur[k + 1] == rest[k]);
            assert(whole[n0 + (k + 1)] == cur[k + 1]);
        }
        assert(lines_from(v@, v.len() as int).len() == 0);
        i = if e < v.len() {
            e + 1
        } else {
            e
        };
    }
    r
}

/// Appends `join_nl` of the first `m` parts given by their bounds in `v`.
fn push_joined(out: &mut String, v: &[char], parts: &Vec<(usize, usize)>, m: usize, Ghost(
    ps,
): Ghost<Seq<Seq<char>>>)
    requires
        m <= parts.len() == ps.len(),
        forall|k: int|
            0 <= k < parts.len() ==> {
                let (a, b) = #[trigger] parts@[k];
                &&& a <= b <= v.len()
                &&& v@.subrange(a as int, b as int) == ps[k]
            },
    ensures
        final(out)@ == old(out)@ + join_nl(ps.take(m as int)),
{
    let ghost o = out@;
    let mut k: usize = 0;
    while k < m
        invariant
            k <= m <= parts.len() == ps.len(),
            forall|j: int|
                0 <= j < parts.len() ==> {
                    let (a, b) = #[trigger] parts@[j];
                    &&& a <= b <= v.len()
                    &&& v@.subrange(a as int, b as int) == ps[j]
                },
            out@ == o + join_nl(ps.take(k as int)),
        decreases m - k,
    {
        let (a, b) = parts[k];
        assert(parts@[k as int] == (a, b));
        if k > 0 {
            push_char(out, '\n');
        }
        push_chars_range(out, v, a, b);
        proof {
            assert(ps.take(k + 1).drop_last() == ps.take(k as int));
            assert(ps.take(k + 1).last() == ps[k as int]);
            if k == 0 {
                assert(ps.take(1) == seq![ps[0]]);
            }
        }
        k += 1;
    }
}

/// Appends `v[a..b]`.
fn push_chars_range(out: &mut String, v: &[char], a: usize, b: usize)
    requires
        a <= b <= v.len(),
    ensures
        final(out)@ == old(out)@ + v@.subrange(a as int, b as int),
{
    let ghost o = out@;
    let mut i = a;
    while i < b
        invariant
            a <= i <= b <= v.len(),
            out@ == o + v@.subrange(a as int, i as int),
        decreases b - i,
    {
        push_char(out, v[i]);
        i += 1;
    }
}

fn candidates_exec(names: &Vec<Vec<char>>, q: &[char], Ghost(l): Ghost<Seq<LabelSpec>>) -> (r: Vec<
    usize,
>)
    requires
        names.len() == l.len(),
        forall|k: int| 0 <= k < names.len() ==> #[trigger] names@[k]@ == l[k].name,
    ensures
        r@.map_values(|x: usize| x as int) == candidates(l, q@),
        forall|j: int| 0 <= j < r.len() ==> #[trigger] r@[j] < names.len(),
{
    let mut e: Vec<usize> = Vec::new();
    let mut k: usize = 0;
    while k < names.len()
        invariant
            k <= names.len() == l.len(),
            forall|j: int| 0 <= j < names.len() ==> #[trigger] names@[j]@ == l[j].name,
            e@.map_values(|x: usize| x as int) == exact_matches(l, q@, k as int),
            forall|j: int| 0 <= j < e.len() ==> #[trigger] e@[j] < k,
        decreases names.len() - k,
    {
        assert(names@[k as int]@ == l[k as int].name);
        if crate::text::matches_at(&names[k], 0, q) && names[k].len() == q.len() {
            assert(names@[k as int]@ == q@) by {
                assert(names@[k as int]@.subrange(0, q@.len() as int) == names@[k as int]@);
            }
            e.push(k);
        } else {
            assert(names@[k as int]@ != q@) by {
                if names@[k as int]@ == q@ {
                    assert(names@[k as int]@.subrange(0, q@.len() as int) == q@);
                }
            }
        }
        k += 1;
    }
    if e.len() > 0 {
        return e;
    }
    let mut c: Vec<usize> = Vec::new();
    let mut k: usize = 0;
    while k < names.len()
        invariant
            k <= names.len() == l.len(),
            forall|j: int| 0 <= j < names.len() ==> #[trigger] names@[j]@ == l[j].name,
            exact_matches(l, q@, l.len() as int).len() == 0,
            c@.map_values(|x: usize| x as int) == case_matches(l, q@, k as int),
            forall|j: int| 0 <= j < c.len() ==> #[trigger] c@[j] < k,
        decreases names.len() - k,
    {
        assert(names@[k as int]@ == l[k as int].name);
        if eq_ignore_case_exec(&names[k], q) {
            c.push(k);
        }
        k += 1;
    }
    c
}

/// Appends the not-found message for `q`.
fn not_found_message(
    labels: &Vec<Z4LabelLine>,
    q: &str,
    path: &str,
    Ghost(l): Ghost<Seq<LabelSpec>>,
    Ghost(s): Ghost<Seq<char>>,
) -> (msg: String)
    requires
        labels.len() == l.len(),
        forall|j: int| 0 <= j < labels.len() ==> label_agrees(#[trigger] labels@[j], l[j], s),
    ensures
        exists|listing: Seq<Seq<char>>|
            is_sorted_of(listing, l.map_values(|g: LabelSpec| listing_entry(g))) && msg@
                == not_found_text(q@, path@, first_n(listing, 30)),
{
    let ghost keys_s = l.map_values(|g: LabelSpec| listing_entry(g));
    let mut keys: Vec<Vec<char>> = Vec::new();
    let mut k: usize = 0;
    while k < labels.len()
        invariant
            k <= labels.len() == l.len(),
            keys_s == l.map_values(|g: LabelSpec| listing_entry(g)),
            forall|j: int| 0 <= j < labels.len() ==> label_agrees(#[trigger] labels@[j], l[j], s),
            keys.len() == k,
            forall|j: int| 0 <= j < k ==> #[trigger] keys@[j]@ == keys_s[j],
        decreases labels.len() - k,
    {
        assert(label_agrees(labels@[k as int], l[k as int], s));
        let mut entry = String::from_str("  ");
        if labels[k].is_hex_label {
            push_str(&mut entry, "hex_label");
        } else {
            push_str(&mut entry, "label");
        }
        push_str(&mut entry, " ");
        push_str(&mut entry, labels[k].name.as_str());
        keys.push(chars_of(entry.as_str()));
        k += 1;
    }
    assert(keys@.map_values(|kk: Vec<char>| kk@) == keys_s);
    let p = sort_perm(&keys);
    let shown = if p.len() > 30 {
        30
    } else {
        p.len()
    };
    let mut msg = String::from_str("Symbol `");
    push_str(&mut msg, q);
    push_str(&mut msg, "` not found in ");
    push_str(&mut msg, path);
    push_str(&mut msg, ".\nAvailable symbols (showing ");
    push_dec(&mut msg, shown as u64);
    push_str(&mut msg, "):\n");
    let ghost listing = Seq::new(p.len() as nat, |i: int| keys_s[p@[i] as int]);
    let ghost m0 = msg@;
    let mut i: usize = 0;
    while i < shown
        invariant
            i <= shown <= p.len() == keys.len() == keys_s.len(),
            shown <= 30,
            forall|j: int| 0 <= j < keys.len() ==> #[trigger] keys@[j]@ == keys_s[j],
            is_perm(p@, keys.len() as nat),
            listing == Seq::new(p.len() as nat, |i: int| keys_s[p@[i] as int]),
            msg@ == m0 + join_nl(listing.take(i as int)),
        decreases shown - i,
    {
        if i > 0 {
            push_char(&mut msg, '\n');
        }
        let key = &keys[p[i]];
        assert(key@ == listing[i as int]);
        push_chars(&mut msg, key);
        proof {
            assert(listing.take(i + 1).drop_last() == listing.take(i as int));
            assert(listing.take(i + 1).last() == listing[i as int]);
            if i == 0 {
                assert(listing.take(1) == seq![listing[0]]);
            }
        }
        i += 1;
    }
    proof {
        assert(first_n(listing, 30) == listing.take(shown as int));
        assert(is_sorted_of(listing, keys_s)) by {
            assert(keys@.map_values(|kk: Vec<char>| kk@) == keys_s);
        }
    }
    msg
}

/// Appends the disambiguation note.
fn push_disambiguation(out: &mut String, name: &str, idx: usize, n: usize)
    requires
        idx < n,
    ensures
        final(out)@ == old(out)@ + disambiguation_text(name@, idx as nat, n as nat),
{
    if n > 1 {
        let ghost o = out@;
        push_str(out, "// \u{26a0}\u{fe0f} Disambiguation: Found ");
        push_dec(out, n as u64);
        push_str(out, " instances of `");
        push_str(out, name);
        push_str(out, "` in this file. Showing instance ");
        push_dec(out, (idx + 1) as u64);
        push_str(out, " of ");
        push_dec(out, n as u64);
        push_str(out, " (1-based). Use `instance_index` param (0-based, 0..");
        push_dec(out, (n - 1) as u64);
        push_str(out, ") to select a specific one.\n");
        assert(out@ == o + disambiguation_text(name@, idx as nat, n as nat));
    }
}

/// The text of the symbol for label `k` of `v`, given the candidate position.
fn render_symbol_read(
    v: &[char],
    labels: &Vec<Z4LabelLine>,
    syms: &Vec<Symbol>,
    path: &str,
    k: usize,
    idx: usize,
    n: usize,
    skeleton_only: bool,
) -> (out: String)
    requires
        k < labels.len(),
        idx < n,
        labels.len() == labels_s(v@).len() == syms.len(),
        forall|j: int|
            0 <= j < labels.len() ==> label_agrees(#[trigger] labels@[j], labels_s(v@)[j], v@),
        forall|j: int| 0 <= j < syms.len() ==> symbol_agrees(#[trigger] syms@[j], v@, j),
    ensures
        out@ == symbol_read_text(v@, path@, k as int, idx as nat, n as nat, skeleton_only),
{
    let ghost l = labels_s(v@);
    let lab = &labels[k];
    let sym = &syms[k];
    assert(label_agrees(labels@[k as int], l[k as int], v@));
    assert(symbol_agrees(syms@[k as int], v@, k as int));
    proof {
        lemma_labels_from_bounds(v@, 0, 0);
    }
    let mut out = String::new();
    push_disambiguation(&mut out, lab.name.as_str(), idx, n);
    let start_line: u64 = lab.line as u64 + 1;
    let end_line: u64 = sym.line_end as u64 + 1;
    push_str(&mut out, "// ");
    push_str(&mut out, sym.kind.as_str());
    push_str(&mut out, " `");
    push_str(&mut out, lab.name.as_str());
    push_str(&mut out, "` \u{2014} ");
    push_str(&mut out, path);
    push_str(&mut out, ":L");
    push_dec(&mut out, start_line);
    push_str(&mut out, "-L");
    push_dec(&mut out, end_line);
    push_str(&mut out, "\n");
    let ghost header = out@;
    let end_char = if k + 1 < labels.len() {
        assert(label_agrees(labels@[k + 1], l[k + 1], v@));
        labels[k + 1].start_char
    } else {
        v.len()
    };
    assert(end_char == symbol_end_char(v@, k as int));
    let rendered: Vec<char> = if skeleton_only {
        let sig = match &sym.signature {
            Some(sg) => chars_of(sg.as_str()),
            None => Vec::new(),
        };
        let mut r = sig;
        r.push('\n');
        r
    } else {
        slice_chars(v, lab.start_char, end_char)
    };
    let ghost g = l[k as int];
    assert(rendered@ == (if skeleton_only {
        g.signature + "\n"@
    } else {
        v@.subrange(g.start_char, symbol_end_char(v@, k as int))
    })) by {
        if skeleton_only {
            reveal_strlit("\n");
        }
    }
    let symbol_lines: u64 = (if end_line >= start_line {
        end_line - start_line
    } else {
        0
    }) + 1;
    if symbol_lines > 500 && !skeleton_only {
        let lines = line_bounds(&rendered);
        let m = if lines.len() > 500 {
            500
        } else {
            lines.len()
        };
        push_joined(&mut out, &rendered, &lines, m, Ghost(lines_s(rendered@)));
        proof {
            assert(first_n(lines_s(rendered@), 500) == lines_s(rendered@).take(m as int));
        }
        push_str(&mut out, "\n\n> \u{26a0}\u{fe0f} **Symbol truncated** \u{2014} `");
        push_str(&mut out, lab.name.as_str());
        push_str(&mut out, "` is ");
        push_dec(&mut out, symbol_lines);
        push_str(&mut out, " lines (limit: 500, stopped at L");
        push_dec(&mut out, start_line + 499);
        push_str(&mut out, ").");
    } else {
        push_chars(&mut out, &rendered);
    }
    out
}

// ───────────────────────── the language driver ─────────────────────────

/// Language driver for z4 sources.
pub struct Z4LanguageDriver;

/// Whether a path names a z4 source (extension `z4`, any ASCII case).
pub open spec fn handles_path_s(p: Seq<char>) -> bool {
    extension_s(p) matches Some(e) && eq_ignore_case(e, "z4"@)
}

/// Whether a path names a build-unit catalog (`.filelist` or `.project.z4`).
pub open spec fn is_catalog_path_s(p: Seq<char>) -> bool {
    ends_with_s(p, ".filelist"@) || ends_with_s(p, ".project.z4"@)
}

impl Z4LanguageDriver {
    /// Whether `path` is a z4 source file.
    pub fn handles_path(path: &str) -> (r: bool)
        ensures
            r == handles_path_s(path@),
    {
        let v = chars_of(path);
        let ext = chars_of("z4");
        has_extension_ignore_case(&v, &ext)
    }

    /// Whether `path` is a build-unit catalog.
    pub fn is_catalog_path(path: &str) -> (r: bool)
        ensures
            r == is_catalog_path_s(path@),
    {
        let v = chars_of(path);
        let a = chars_of(".filelist");
        let b = chars_of(".project.z4");
        ends_with(&v, &a) || ends_with(&v, &b)
    }

    /// The labelled lines of `source_text`.
    pub fn scan_labels(source_text: &str) -> (r: Vec<Z4LabelLine>)
        requires
            byte_len(source_text@) <= usize::MAX,
        ensures
            r.len() == labels_s(source_text@).len(),
            forall|k: int|
                0 <= k < r.len() ==> label_agrees(
                    #[trigger] r@[k],
                    labels_s(source_text@)[k],
                    source_text@,
                ),
    {
        let v = chars_of(source_text);
        scan_labels(&v)
    }

    /// One symbol per label: a label's symbol runs up to the next label.
    pub fn extract_symbols(source_text: &str) -> (r: Vec<Symbol>)
        requires
            byte_len(source_text@) <= usize::MAX,
        ensures
            r.len() == labels_s(source_text@).len(),
            forall|k: int| 0 <= k < r.len() ==> symbol_agrees(#[trigger] r@[k], source_text@, k),
    {
        let v = chars_of(source_text);
        symbols_of(&v)
    }

    /// Counters describing `source_text`.
    pub fn summarize_file(source_text: &str) -> (r: Z4FileSummary)
        requires
            byte_len(source_text@) <= usize::MAX,
        ensures
            summary_agrees(r, source_text@),
    {
        let v = chars_of(source_text);
        summary_of(&v)
    }

    /// The text of one symbol of `source_text`, chosen by name.
    ///
    /// Exact name matches are preferred over ASCII-case-insensitive ones; among
    /// several matches `instance_index` (0-based, clamped) picks one.  Symbols
    /// longer than 500 lines are cut unless only the signature is asked for.
    pub fn read_symbol(
        path: &str,
        source_text: &str,
        symbol_name: &str,
        skeleton_only: bool,
        instance_index: Option<usize>,
    ) -> (r: Result<String, String>)
        requires
            byte_len(source_text@) <= usize::MAX,
        ensures
            ({
                let l = labels_s(source_text@);
                let c = candidates(l, symbol_name@);
                &&& c.len() == 0 ==> (r matches Err(msg) && exists|listing: Seq<Seq<char>>|
                    is_sorted_of(listing, l.map_values(|g: LabelSpec| listing_entry(g)))
                        && msg@ == not_found_text(symbol_name@, path@, first_n(listing, 30)))
                &&& c.len() > 0 ==> (r matches Ok(t) && t@ == symbol_read_text(
                    source_text@,
                    path@,
                    c[pick_index(instance_index, c.len()) as int],
                    pick_index(instance_index, c.len()),
                    c.len(),
                    skeleton_only,
                ))
            }),
    {
        let v = chars_of(source_text);
        let labels = scan_labels(&v);
        let syms = symbols_of(&v);
        let ghost l = labels_s(v@);
        let mut names: Vec<Vec<char>> = Vec::new();
        let mut k: usize = 0;
        while k < labels.len()
            invariant
                k <= labels.len() == l.len(),
                forall|j: int| 0 <= j < labels.len() ==> label_agrees(#[trigger] labels@[j], l[j], v@),
                names.len() == k,
                forall|j: int| 0 <= j < k ==> #[trigger] names@[j]@ == l[j].name,
            decreases labels.len() - k,
        {
            assert(label_agrees(labels@[k as int], l[k as int], v@));
            names.push(chars_of(labels[k].name.as_str()));
            k += 1;
        }
        let q = chars_of(symbol_name);
        let cands = candidates_exec(&names, &q, Ghost(l));
        proof {
            assert(cands@.map_values(|x: usize| x as int).len() == cands.len());
        }
        if cands.len() == 0 {
            return Err(not_found_message(&labels, symbol_name, path, Ghost(l), Ghost(v@)));
        }
        let want = match instance_index {
            Some(i) => i,
            None => 0,
        };
        let idx = if want > cands.len() - 1 {
            cands.len() - 1
        } else {
            want
        };
        let k = cands[idx];
        assert(candidates(l, q@)[idx as int] == k as int);
        Ok(render_symbol_read(&v, &labels, &syms, path, k, idx, cands.len(), skeleton_only))
    }

    /// Label and hex-literal density of `source_text` over at most eight buckets.
    pub fn render_density_map(source_text: &str) -> (r: String)
        requires
            byte_len(source_text@) <= usize::MAX,
        ensures
            r@ == density_map_s(source_text@),
    {
        let v = chars_of(source_text);
        density_map_of(&v)
    }
}


// ───────────────────────── laws ─────────────────────────

/// The symbols extracted from a source and its summary agree: as many
/// symbols as labels, and as many `hex_label` symbols as hex labels.
pub proof fn law_symbols_agree_with_summary(s: Seq<char>, syms: Seq<Symbol>, sm: Z4FileSummary)
    requires
        syms.len() == labels_s(s).len(),
        forall|k: int| 0 <= k < syms.len() ==> symbol_agrees(#[trigger] syms[k], s, k),
        summary_agrees(sm, s),
    ensures
        syms.len() == sm.labels,
        forall|k: int| 0 <= k < syms.len() ==> ((#[trigger] syms[k]).kind@ == "hex_label"@ <==> labels_s(s)[k].is_hex_label),
{
    reveal_strlit("hex_label");
    reveal_strlit("label");
    assert forall|k: int| 0 <= k < syms.len() implies ((#[trigger] syms[k]).kind@ == "hex_label"@ <==> labels_s(s)[k].is_hex_label) by {
        assert(symbol_agrees(syms[k], s, k));
        if !labels_s(s)[k].is_hex_label {
            assert("label"@.len() != "hex_label"@.len());
        }
    }
}

// ───────────────────────── symbols tile the source ─────────────────────────

proof fn lemma_strip_eol_prefix(x: Seq<char>)
    ensures
        strip_eol(x).len() <= x.len(),
        strip_eol(x) == x.take(strip_eol(x).len() as int),
    decreases x.len(),
{
    if x.len() > 0 && (x.last() == '\r' || x.last() == '\n') {
        lemma_strip_eol_prefix(x.drop_last());
        let t = strip_eol(x.drop_last());
        assert(x.drop_last().take(t.len() as int) == x.take(t.len() as int));
    } else {
        assert(x.take(x.len() as int) == x);
    }
}

/// Position `c` of `s` starts a line that begins with `@name:`.
pub open spec fn starts_label_line(s: Seq<char>, c: int, name: Seq<char>) -> bool {
    &&& (c == 0 || (0 < c <= s.len() && s[c - 1] == '\n'))
    &&& crate::text::occurs_at(s, "@"@ + name + ":"@, c)
}

#[verifier::spinoff_prover]
#[verifier::rlimit(40)]
proof fn lemma_labels_start_lines(s: Seq<char>, i: int, line: int)
    requires
        0 <= i,
        i == 0 || i >= s.len() || s[i - 1] == '\n',
    ensures
        forall|k: int|
            0 <= k < labels_from(s, i, line).len() ==> starts_label_line(
                s,
                (#[trigger] labels_from(s, i, line)[k]).start_char,
                labels_from(s, i, line)[k].name,
            ),
    decreases s.len() + 1 - i,
{
    if i < s.len() {
        lemma_next_nl(s, i);
        let e = next_nl(s, i);
        lemma_labels_start_lines(s, e + 1, line + 1);
        lemma_labels_step(s, i, line);
        let rest = labels_from(s, e + 1, line + 1);
        let cur = labels_from(s, i, line);
        let text = strip_eol(s.subrange(i, e));
        if let Some(name) = label_name(text) {
            assert forall|k: int| 0 <= k < rest.len() implies cur[k + 1] == rest[k] by {}
            lemma_strip_eol_prefix(s.subrange(i, e));
            let w = word_run(text, 1);
            let pat = "@"@ + name + ":"@;
            reveal_strlit("@");
            reveal_strlit(":");
            assert(pat.len() == w + 1);
            assert forall|j: int| 0 <= j < pat.len() implies s.subrange(i, i + pat.len())[j] == pat[j] by {
                assert(text[j] == s.subrange(i, e)[j]);
                if j == 0 {
                } else if j < w {
                    assert(pat[j] == name[j - 1]);
                    assert(name[j - 1] == text[j]);
                } else {
                    assert(pat[j] == ':');
                }
            }
            assert(s.subrange(i, i + pat.len()) =~= pat);
            assert(starts_label_line(s, cur[0].start_char, cur[0].name));
            assert forall|k: int| 0 <= k < cur.len() implies starts_label_line(
                s,
                (#[trigger] cur[k]).start_char,
                cur[k].name,
            ) by {
                if k > 0 {
                    assert(cur[k] == rest[k - 1]);
                }
            }
        }
    }
}

/// The symbols of a z4 source tile it: each begins at the start of its
/// `@name:` line, ends where the next begins (its last line the one before
/// the next symbol's), and the last ends at the end of the source.
pub proof fn law_symbols_tile_the_source(source: Seq<char>, syms: Seq<Symbol>)
    requires
        source.len() <= u32::MAX,
        syms.len() == labels_s(source).len(),
        forall|k: int| 0 <= k < syms.len() ==> symbol_agrees(#[trigger] syms[k], source, k),
    ensures
        forall|k: int|
            0 <= k < syms.len() ==> starts_label_line(
                source,
                labels_s(source)[k].start_char,
                (#[trigger] syms[k]).name@,
            ) && syms[k].start_byte == byte_len(source.take(labels_s(source)[k].start_char))
                && syms[k].start_byte < syms[k].end_byte,
        forall|k: int|
            0 <= k < syms.len() - 1 ==> (#[trigger] syms[k]).end_byte == syms[k + 1].start_byte
                && syms[k].line_end + 1 == syms[k + 1].line,
        syms.len() > 0 ==> syms[syms.len() - 1].end_byte == byte_len(source),
{
    let l = labels_s(source);
    lemma_labels_from_bounds(source, 0, 0);
    lemma_labels_start_lines(source, 0, 0);
    assert forall|k: int| 0 <= k < syms.len() implies starts_label_line(
        source,
        l[k].start_char,
        (#[trigger] syms[k]).name@,
    ) && syms[k].start_byte == byte_len(source.take(l[k].start_char)) && syms[k].start_byte
        < syms[k].end_byte by {
        assert(symbol_agrees(syms[k], source, k));
        let c = l[k].start_char;
        let d = symbol_end_char(source, k);
        if k + 1 < l.len() {
            assert(l[k].start_char < l[k + 1].start_char);
        }
        crate::text::lemma_byte_len_strict(source, c, d);
    }
    assert forall|k: int| 0 <= k < syms.len() - 1 implies (#[trigger] syms[k]).end_byte == syms[k
        + 1].start_byte && syms[k].line_end + 1 == syms[k + 1].line by {
        assert(symbol_agrees(syms[k], source, k));
        assert(symbol_agrees(syms[k + 1], source, k + 1));
        assert(l[k].line < l[k + 1].line);
        assert(l[k + 1].line <= l[k + 1].start_char);
    }
    if syms.len() > 0 {
        assert(symbol_agrees(syms[syms.len() - 1], source, syms.len() - 1));
        assert(source.take(source.len() as int) == source);
    }
}

// ───────────────────────── one symbol per label line ─────────────────────────

/// How many of `ls` are label lines (`^@[A-Za-z0-9_]+:`).
pub open spec fn label_line_count(ls: Seq<Seq<char>>) -> nat
    decreases ls.len(),
{
    if ls.len() == 0 {
        0
    } else {
        label_line_count(ls.drop_first()) + if label_name(ls[0]) is Some { 1nat } else { 0nat }
    }
}

proof fn lemma_strip_eol_tail(x: Seq<char>)
    ensures
        forall|k: int| strip_eol(x).len() <= k < x.len() ==> x[k] == '\r' || x[k] == '\n',
    decreases x.len(),
{
    lemma_strip_eol_prefix(x);
    if x.len() > 0 && (x.last() == '\r' || x.last() == '\n') {
        lemma_strip_eol_tail(x.drop_last());
        assert(strip_eol(x) == strip_eol(x.drop_last()));
        assert forall|k: int| strip_eol(x).len() <= k < x.len() implies x[k] == '\r' || x[k] == '\n' by {
            if k < x.len() - 1 {
                assert(x.drop_last()[k] == x[k]);
            }
        }
    }
}

proof fn lemma_word_run_prefix(t2: Seq<char>, m1: int, j: int)
    requires
        1 <= j <= m1 <= t2.len(),
    ensures
        j <= word_run(t2.take(m1), j) <= m1,
        word_run(t2.take(m1), j) < m1 ==> word_run(t2, j) == word_run(t2.take(m1), j),
        word_run(t2.take(m1), j) == m1 ==> word_run(t2, j) == word_run(t2, m1),
    decreases m1 - j,
{
    let t1 = t2.take(m1);
    if j < m1 {
        assert(t1[j] == t2[j]);
        if is_word(t1[j]) {
            lemma_word_run_prefix(t2, m1, j + 1);
        }
    }
}

proof fn lemma_label_name_prefixes(x: Seq<char>, a: int, b: int)
    requires
        0 <= a <= b <= x.len(),
        forall|k: int| a <= k < b ==> x[k] == '\r',
    ensures
        (label_name(x.take(a)) is Some) == (label_name(x.take(b)) is Some),
{
    let t1 = x.take(a);
    let t2 = x.take(b);
    if a >= 1 {
        assert(t2.take(a) == t1);
        lemma_word_run_prefix(t2, a, 1);
        let e1 = word_run(t1, 1);
        if e1 == a && a < b {
            assert(t2[a] == '\r');
            assert(!is_word(t2[a]));
            assert(word_run(t2, a) == a);
        }
        if e1 < a {
            assert(t1[e1] == t2[e1]);
        }
        assert(t1[0] == t2[0]);
    } else if b >= 1 {
        assert(t2[0] == '\r');
    }
}

proof fn lemma_label_count_from(s: Seq<char>, i: int, line: int)
    requires
        0 <= i,
    ensures
        labels_from(s, i, line).len() == label_line_count(lines_from(s, i)),
    decreases s.len() + 1 - i,
{
    if i < s.len() {
        lemma_next_nl(s, i);
        let e = next_nl(s, i);
        lemma_label_count_from(s, e + 1, line + 1);
        lemma_labels_step(s, i, line);
        let x = s.subrange(i, e);
        let lt = line_text(s, i);
        let lf = lines_from(s, i);
        assert(lf == seq![lt] + lines_from(s, e + 1));
        assert(lf.drop_first() == lines_from(s, e + 1));
        assert(lf[0] == lt);
        lemma_strip_eol_prefix(x);
        lemma_strip_eol_tail(x);
        let m0 = strip_eol(x).len() as int;
        let m = lt.len() as int;
        if e < s.len() && e > i && s[e - 1] == '\r' {
            assert(lt == x.take(x.len() - 1));
            assert(x[x.len() - 1] == '\r');
            assert(m0 <= x.len() - 1) by {
                assert(strip_eol(x) == strip_eol(x.drop_last()));
                lemma_strip_eol_prefix(x.drop_last());
            }
        } else {
            assert(lt == x);
            assert(x.take(x.len() as int) == x);
        }
        assert forall|k: int| m0 <= k < m implies x[k] == '\r' by {
            assert(x[k] == '\r' || x[k] == '\n');
            assert(x[k] == s[i + k]);
        }
        lemma_label_name_prefixes(x, m0, m);
        assert(x.take(m0) == strip_eol(x));
        assert(x.take(m) == lt);
    }
}

/// There is one symbol per label line of the source (a line matching
/// `^@[A-Za-z0-9_]+:`).
pub proof fn law_one_symbol_per_label_line(source: Seq<char>, syms: Seq<Symbol>)
    requires
        syms.len() == labels_s(source).len(),
    ensures
        syms.len() == label_line_count(lines_s(source)),
{
    lemma_label_count_from(source, 0, 0);
}

} // verus!
