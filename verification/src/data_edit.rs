//! Values and paths of the data-file editor: how an edited value is written
//! as JSON, and how a target such as `$.paths['/users'].get` is split.
use vstd::prelude::*;
use crate::text::{
    chars_of, is_ascii_digit, lower_s, push_char, push_chars, string_of, trim_s, trim_string,
};

verus! {

// ───────────────────────── numbers ─────────────────────────

pub open spec fn all_digits(s: Seq<char>) -> bool {
    forall|i: int| 0 <= i < s.len() ==> is_ascii_digit(#[trigger] s[i])
}

/// Index of the first `c` or `d` in `s` at or after `i`, or `s.len()`.
pub open spec fn first_of(s: Seq<char>, c: char, d: char, i: int) -> int
    decreases s.len() - i,
{
    if i < 0 || i >= s.len() {
        s.len() as int
    } else if s[i] == c || s[i] == d {
        i
    } else {
        first_of(s, c, d, i + 1)
    }
}

/// `Digit+ | Digit+ '.' Digit* | Digit* '.' Digit+`.
pub open spec fn is_mantissa(m: Seq<char>) -> bool {
    let d = first_of(m, '.', '.', 0);
    if d == m.len() {
        m.len() > 0 && all_digits(m)
    } else {
        let int_part = m.take(d);
        let frac = m.subrange(d + 1, m.len() as int);
        all_digits(int_part) && all_digits(frac) && (int_part.len() > 0 || frac.len() > 0)
    }
}

/// `Sign? Digit+`.
pub open spec fn is_exponent_digits(x: Seq<char>) -> bool {
    let y = if x.len() > 0 && (x[0] == '+' || x[0] == '-') {
        x.drop_first()
    } else {
        x
    };
    y.len() > 0 && all_digits(y)
}

/// Whether `s` is accepted by `str::parse::<f64>`, whose documented grammar is
/// `Sign? ('inf' | 'infinity' | 'nan' | Number)` (the words in any case), with
/// `Number ::= Mantissa (('e' | 'E') Sign? Digit+)?`.
pub open spec fn is_float_literal(s: Seq<char>) -> bool {
    let b = if s.len() > 0 && (s[0] == '+' || s[0] == '-') {
        s.drop_first()
    } else {
        s
    };
    let l = lower_s(b);
    if l == "inf"@ || l == "infinity"@ || l == "nan"@ {
        true
    } else {
        let e = first_of(b, 'e', 'E', 0);
        is_mantissa(b.take(e)) && (e == b.len() || is_exponent_digits(b.subrange(e + 1, b.len() as int)))
    }
}

fn first_of_exec(v: &[char], c: char, d: char, lo: usize, hi: usize) -> (r: usize)
    requires
        lo <= hi <= v.len(),
    ensures
        lo <= r <= hi,
        r - lo == first_of(v@.subrange(lo as int, hi as int), c, d, 0),
{
    let ghost s = v@.subrange(lo as int, hi as int);
    let mut i = lo;
    while i < hi && v[i] != c && v[i] != d
        invariant
            lo <= i <= hi <= v.len(),
            s == v@.subrange(lo as int, hi as int),
            first_of(s, c, d, 0) == first_of(s, c, d, i - lo),
        decreases hi - i,
    {
        i += 1;
    }
    i
}

fn all_digits_exec(v: &[char], lo: usize, hi: usize) -> (r: bool)
    requires
        lo <= hi <= v.len(),
    ensures
        r == all_digits(v@.subrange(lo as int, hi as int)),
{
    let mut i = lo;
    while i < hi
        invariant
            lo <= i <= hi <= v.len(),
            forall|j: int| lo <= j < i ==> is_ascii_digit(#[trigger] v@[j]),
        decreases hi - i,
    {
        if !('0' <= v[i] && v[i] <= '9') {
            assert(!is_ascii_digit(v@.subrange(lo as int, hi as int)[i - lo]));
            return false;
        }
        i += 1;
    }
    true
}

fn is_mantissa_exec(v: &[char], lo: usize, hi: usize) -> (r: bool)
    requires
        lo <= hi <= v.len(),
    ensures
        r == is_mantissa(v@.subrange(lo as int, hi as int)),
{
    let ghost m = v@.subrange(lo as int, hi as int);
    let d = first_of_exec(v, '.', '.', lo, hi);
    if d == hi {
        hi > lo && all_digits_exec(v, lo, hi)
    } else {
        assert(m.take(d - lo) == v@.subrange(lo as int, d as int));
        assert(m.subrange(d - lo + 1, m.len() as int) == v@.subrange(d + 1, hi as int));
        all_digits_exec(v, lo, d) && all_digits_exec(v, d + 1, hi) && (d > lo || hi > d + 1)
    }
}

fn word_is(v: &[char], lo: usize, hi: usize, w: &str) -> (r: bool)
    requires
        lo <= hi <= v.len(),
    ensures
        r == (lower_s(v@.subrange(lo as int, hi as int)) == w@),
{
    let piece = crate::z4::slice_chars(v, lo, hi);
    let l = crate::text::lower_chars(&piece);
    let t = chars_of(w);
    if l.len() != t.len() {
        return false;
    }
    let mut i: usize = 0;
    while i < l.len()
        invariant
            i <= l.len() == t.len(),
            t@ == w@,
            l@ == lower_s(v@.subrange(lo as int, hi as int)),
            forall|j: int| 0 <= j < i ==> l@[j] == t@[j],
        decreases l.len() - i,
    {
        if l[i] != t[i] {
            return false;
        }
        i += 1;
    }
    assert(l@ == t@);
    true
}

/// Whether `s` is accepted by `str::parse::<f64>`.
pub fn is_float_literal_exec(s: &str) -> (r: bool)
    ensures
        r == is_float_literal(s@),
{
    let v = chars_of(s);
    let lo: usize = if v.len() > 0 && (v[0] == '+' || v[0] == '-') {
        1
    } else {
        0
    };
    let ghost b = if v@.len() > 0 && (v@[0] == '+' || v@[0] == '-') {
        v@.drop_first()
    } else {
        v@
    };
    assert(b == v@.subrange(lo as int, v.len() as int));
    if word_is(&v, lo, v.len(), "inf") || word_is(&v, lo, v.len(), "infinity") || word_is(
        &v,
        lo,
        v.len(),
        "nan",
    ) {
        return true;
    }
    let e = first_of_exec(&v, 'e', 'E', lo, v.len());
    assert(b.take(e - lo) == v@.subrange(lo as int, e as int));
    if !is_mantissa_exec(&v, lo, e) {
        return false;
    }
    if e == v.len() {
        return true;
    }
    let ghost x = b.subrange(e - lo + 1, b.len() as int);
    assert(x == v@.subrange(e + 1, v.len() as int));
    let x0: usize = if e + 1 < v.len() && (v[e + 1] == '+' || v[e + 1] == '-') {
        e + 2
    } else {
        e + 1
    };
    assert(v@.subrange(x0 as int, v.len() as int) == (if x.len() > 0 && (x[0] == '+' || x[0] == '-') {
        x.drop_first()
    } else {
        x
    }));
    x0 < v.len() && all_digits_exec(&v, x0, v.len())
}

// ───────────────────────── values ─────────────────────────

/// `s` with `\` and `"` escaped by a backslash.
pub open spec fn escape_json(s: Seq<char>) -> Seq<char>
    decreases s.len(),
{
    if s.len() == 0 {
        s
    } else {
        escape_json(s.drop_last()) + if s.last() == '\\' {
            seq!['\\', '\\']
        } else if s.last() == '"' {
            seq!['\\', '"']
        } else {
            seq![s.last()]
        }
    }
}

/// How an edited value is written into a JSON document: JSON literals,
/// quoted strings, numbers, objects and arrays pass through (trimmed); any
/// other text becomes a JSON string.
pub open spec fn coerce_json_s(val: Seq<char>) -> Seq<char> {
    let t = trim_s(val);
    if t == "true"@ || t == "false"@ || t == "null"@ {
        t
    } else if t.len() >= 2 && t[0] == '"' && t.last() == '"' {
        t
    } else if t.len() > 0 && is_float_literal(t) {
        t
    } else if t.len() > 0 && (t[0] == '{' || t[0] == '[') {
        t
    } else {
        seq!['"'] + escape_json(t) + seq!['"']
    }
}

fn chars_are(v: &Vec<char>, w: &str) -> (r: bool)
    ensures
        r == (v@ == w@),
{
    let t = chars_of(w);
    if v.len() != t.len() {
        return false;
    }
    let mut i: usize = 0;
    while i < v.len()
        invariant
            i <= v.len() == t.len(),
            t@ == w@,
            forall|j: int| 0 <= j < i ==> v@[j] == t@[j],
        decreases v.len() - i,
    {
        if v[i] != t[i] {
            return false;
        }
        i += 1;
    }
    assert(v@ == t@);
    true
}

/// Turns an edited value into JSON text.
pub fn coerce_json_value(val: &str) -> (r: String)
    ensures
        r@ == coerce_json_s(val@),
{
    let t = trim_string(val);
    let v = chars_of(t.as_str());
    let n = v.len();
    if chars_are(&v, "true") || chars_are(&v, "false") || chars_are(&v, "null") {
        return t;
    }
    if n >= 2 && v[0] == '"' && v[n - 1] == '"' {
        return t;
    }
    if n > 0 && is_float_literal_exec(t.as_str()) {
        return t;
    }
    if n > 0 && (v[0] == '{' || v[0] == '[') {
        return t;
    }
    let mut out = String::new();
    push_char(&mut out, '"');
    let ghost head = out@;
    let mut i: usize = 0;
    while i < n
        invariant
            i <= n == v.len(),
            head == seq!['"'],
            out@ == head + escape_json(v@.take(i as int)),
        decreases n - i,
    {
        assert(v@.take(i + 1).drop_last() == v@.take(i as int));
        let c = v[i];
        if c == '\\' {
            push_char(&mut out, '\\');
            push_char(&mut out, '\\');
        } else if c == '"' {
            push_char(&mut out, '\\');
            push_char(&mut out, '"');
        } else {
            push_char(&mut out, c);
        }
        i += 1;
    }
    assert(v@.take(n as int) == v@);
    push_char(&mut out, '"');
    out
}

// ───────────────────────── paths ─────────────────────────

/// The state of splitting a path after reading `s`: the finished segments,
/// the segment being read, and whether a quote is open.
pub open spec fn path_state(s: Seq<char>) -> (Seq<Seq<char>>, Seq<char>, bool)
    decreases s.len(),
{
    if s.len() == 0 {
        (seq![], seq![], false)
    } else {
        let (segs, cur, q) = path_state(s.drop_last());
        let c = s.last();
        if c == '\'' || c == '"' {
            (segs, cur, !q)
        } else if !q && (c == '.' || c == '[' || c == ']') {
            if cur.len() > 0 {
                (segs.push(cur), seq![], q)
            } else {
                (segs, cur, q)
            }
        } else {
            (segs, cur.push(c), q)
        }
    }
}

/// The segments of a data path: a leading `$` is dropped, `.`, `[` and `]`
/// separate segments outside quotes, quotes are dropped, empty segments skipped.
pub open spec fn parse_path_s(target: Seq<char>) -> Seq<Seq<char>> {
    let t = if target.len() > 0 && target[0] == '$' {
        target.drop_first()
    } else {
        target
    };
    let (segs, cur, q) = path_state(t);
    if cur.len() > 0 {
        segs.push(cur)
    } else {
        segs
    }
}

/// Splits a data path such as `$.paths['/users'].get` into its segments.
pub fn parse_path(target: &str) -> (r: Vec<String>)
    ensures
        r@.len() == parse_path_s(target@).len(),
        forall|k: int| 0 <= k < r.len() ==> (#[trigger] r@[k])@ == parse_path_s(target@)[k],
{
    let v = chars_of(target);
    let lo: usize = if v.len() > 0 && v[0] == '$' {
        1
    } else {
        0
    };
    let ghost t = v@.subrange(lo as int, v.len() as int);
    assert(t == (if target@.len() > 0 && target@[0] == '$' {
        target@.drop_first()
    } else {
        target@
    }));
    let mut segs: Vec<String> = Vec::new();
    let mut cur: Vec<char> = Vec::new();
    let mut q = false;
    let mut i = lo;
    while i < v.len()
        invariant
            lo <= i <= v.len(),
            t == v@.subrange(lo as int, v.len() as int),
            ({
                let (ss, cc, qq) = path_state(v@.subrange(lo as int, i as int));
                &&& segs@.len() == ss.len()
                &&& forall|k: int| 0 <= k < segs.len() ==> (#[trigger] segs@[k])@ == ss[k]
                &&& cur@ == cc
                &&& q == qq
            }),
        decreases v.len() - i,
    {
        assert(v@.subrange(lo as int, i + 1).drop_last() == v@.subrange(lo as int, i as int));
        let c = v[i];
        if c == '\'' || c == '"' {
            q = !q;
        } else if !q && (c == '.' || c == '[' || c == ']') {
            if cur.len() > 0 {
                segs.push(string_of(&cur));
                cur = Vec::new();
            }
        } else {
            cur.push(c);
        }
        i += 1;
    }
    assert(v@.subrange(lo as int, v.len() as int) == t);
    if cur.len() > 0 {
        segs.push(string_of(&cur));
    }
    segs
}


// ───────────────────────── laws ─────────────────────────

/// Coercing an already coerced value changes nothing: what `coerce_json_value`
/// writes is itself JSON that passes through.
pub proof fn law_coerce_json_idempotent(val: Seq<char>)
    ensures
        coerce_json_s(coerce_json_s(val)) == coerce_json_s(val),
{
    let t = trim_s(val);
    crate::text::lemma_trim_idempotent(val);
    let r = coerce_json_s(val);
    if !(t == "true"@ || t == "false"@ || t == "null"@) && !(t.len() >= 2 && t[0] == '"' && t.last()
        == '"') && !(t.len() > 0 && is_float_literal(t)) && !(t.len() > 0 && (t[0] == '{' || t[0]
        == '[')) {
        let q = seq!['"'] + escape_json(t) + seq!['"'];
        assert(r == q);
        assert(q[0] == '"' && q.last() == '"');
        crate::text::lemma_trim_fixed(q);
        reveal_strlit("true");
        reveal_strlit("false");
        reveal_strlit("null");
        assert(q != "true"@ && q != "false"@ && q != "null"@) by {
            assert(q[0] == '"');
        }
    }
}

proof fn lemma_path_state_segments(s: Seq<char>)
    ensures
        forall|k: int| 0 <= k < path_state(s).0.len() ==> (#[trigger] path_state(s).0[k]).len() > 0,
    decreases s.len(),
{
    if s.len() > 0 {
        lemma_path_state_segments(s.drop_last());
        let (segs, cur, q) = path_state(s.drop_last());
        let c = s.last();
        if !(c == '\'' || c == '"') && !q && (c == '.' || c == '[' || c == ']') && cur.len() > 0 {
            assert(path_state(s).0 == segs.push(cur));
            assert forall|k: int| 0 <= k < segs.push(cur).len() implies (#[trigger] segs.push(
                cur,
            )[k]).len() > 0 by {
                if k < segs.len() {
                    assert(segs.push(cur)[k] == segs[k]);
                }
            }
        } else {
            assert(path_state(s).0 == segs);
        }
    }
}

/// No segment of a split data path is empty.
pub proof fn law_path_segments_are_nonempty(target: Seq<char>)
    ensures
        forall|k: int| 0 <= k < parse_path_s(target).len() ==> (#[trigger] parse_path_s(target)[k]).len()
            > 0,
{
    let t = if target.len() > 0 && target[0] == '$' {
        target.drop_first()
    } else {
        target
    };
    lemma_path_state_segments(t);
}

} // verus!
