//! Character-level text primitives shared by the whole library.
//!
//! Text is modelled as `Seq<char>` (the view of `str` and `String`); byte
//! offsets are the length of the UTF-8 encoding of a prefix.
use vstd::prelude::*;
use vstd::utf8::*;
use vstd::string::*;

verus! {

broadcast use vstd::seq_lib::group_seq_properties;

// ───────────────────────── character classes ─────────────────────────

/// `char::is_whitespace`: the Unicode `White_Space` property.
pub open spec fn is_ws(c: char) -> bool {
    let u = c as u32;
    ||| (0x09 <= u && u <= 0x0d)
    ||| u == 0x20
    ||| u == 0x85
    ||| u == 0xa0
    ||| u == 0x1680
    ||| (0x2000 <= u && u <= 0x200a)
    ||| u == 0x2028
    ||| u == 0x2029
    ||| u == 0x202f
    ||| u == 0x205f
    ||| u == 0x3000
}

/// `char::is_ascii_whitespace`: space, tab, line feed, form feed, carriage return.
pub open spec fn is_ascii_ws(c: char) -> bool {
    c == ' ' || c == '\t' || c == '\n' || c == '\x0C' || c == '\r'
}

pub open spec fn is_ascii_digit(c: char) -> bool {
    '0' <= c && c <= '9'
}

pub open spec fn is_ascii_hex(c: char) -> bool {
    ('0' <= c && c <= '9') || ('a' <= c && c <= 'f') || ('A' <= c && c <= 'F')
}

pub open spec fn is_ascii_alpha(c: char) -> bool {
    ('a' <= c && c <= 'z') || ('A' <= c && c <= 'Z')
}

pub open spec fn is_ascii_alnum(c: char) -> bool {
    is_ascii_alpha(c) || is_ascii_digit(c)
}

/// The class `[A-Za-z0-9_]`.
pub open spec fn is_word(c: char) -> bool {
    is_ascii_alnum(c) || c == '_'
}

/// `char::to_ascii_lowercase`.
pub open spec fn lower(c: char) -> char {
    if 'A' <= c && c <= 'Z' {
        ((c as u32) + 32) as char
    } else {
        c
    }
}

/// `char::to_ascii_uppercase`.
pub open spec fn upper(c: char) -> char {
    if 'a' <= c && c <= 'z' {
        ((c as u32) - 32) as char
    } else {
        c
    }
}

pub open spec fn lower_s(s: Seq<char>) -> Seq<char> {
    s.map_values(|c: char| lower(c))
}

pub open spec fn upper_s(s: Seq<char>) -> Seq<char> {
    s.map_values(|c: char| upper(c))
}

/// `str::eq_ignore_ascii_case`.
pub open spec fn eq_ignore_case(a: Seq<char>, b: Seq<char>) -> bool {
    lower_s(a) == lower_s(b)
}

pub fn is_ws_exec(c: char) -> (r: bool)
    ensures
        r == is_ws(c),
{
    let u = c as u32;
    (0x09 <= u && u <= 0x0d) || u == 0x20 || u == 0x85 || u == 0xa0 || u == 0x1680 || (0x2000
        <= u && u <= 0x200a) || u == 0x2028 || u == 0x2029 || u == 0x202f || u == 0x205f || u
        == 0x3000
}

pub fn is_ascii_hex_exec(c: char) -> (r: bool)
    ensures
        r == is_ascii_hex(c),
{
    ('0' <= c && c <= '9') || ('a' <= c && c <= 'f') || ('A' <= c && c <= 'F')
}

pub fn is_word_exec(c: char) -> (r: bool)
    ensures
        r == is_word(c),
{
    ('a' <= c && c <= 'z') || ('A' <= c && c <= 'Z') || ('0' <= c && c <= '9') || c == '_'
}

pub fn lower_exec(c: char) -> (r: char)
    ensures
        r == lower(c),
{
    if 'A' <= c && c <= 'Z' {
        let u = (c as u32) + 32;
        proof {
            assert(is_scalar(u));
        }
        char_from_u32(u)
    } else {
        c
    }
}

pub fn upper_exec(c: char) -> (r: char)
    ensures
        r == upper(c),
{
    if 'a' <= c && c <= 'z' {
        let u = (c as u32) - 32;
        proof {
            assert(is_scalar(u));
        }
        char_from_u32(u)
    } else {
        c
    }
}

/// `char::from_u32(u).unwrap()` for a value known to be a scalar.
#[verifier::external_body]
fn char_from_u32(u: u32) -> (c: char)
    requires
        is_scalar(u),
    ensures
        c as u32 == u,
        c == u as char,
{
    char::from_u32(u).unwrap()
}

/// The character whose code is the ASCII byte `b`.
pub fn ascii_char(b: u8) -> (c: char)
    requires
        b < 128,
    ensures
        c as u32 == b as u32,
        c == (b as u32) as char,
{
    let u = b as u32;
    proof {
        assert(is_scalar(u));
    }
    char_from_u32(u)
}

// ───────────────────────── decoding ─────────────────────────

/// What `String::from_utf8_lossy` decodes from `bytes`.
pub uninterp spec fn utf8_lossy(bytes: Seq<u8>) -> Seq<char>;

/// `String::from_utf8_lossy` (std): decodes `bytes`, replacing each invalid
/// sequence by U+FFFD.  The contract names the result and states that valid
/// UTF-8 is decoded unchanged; what replacement produces is left unsaid.
#[verifier::external_body]
pub(crate) fn from_utf8_lossy(bytes: &[u8]) -> (s: String)
    ensures
        s@ == utf8_lossy(bytes@),
        valid_utf8(bytes@) ==> s@ == decode_utf8(bytes@),
{
    String::from_utf8_lossy(bytes).into_owned()
}

// ───────────────────────── strings and buffers ─────────────────────────

pub open spec fn str_opt(o: Option<&str>) -> Option<Seq<char>> {
    match o {
        Some(x) => Some(x@),
        None => None,
    }
}

pub open spec fn res_view(r: Result<String, String>) -> Result<Seq<char>, Seq<char>> {
    match r {
        Ok(x) => Ok(x@),
        Err(e) => Err(e@),
    }
}


/// The characters of `s`, in order.
pub fn chars_of(s: &str) -> (v: Vec<char>)
    ensures
        v@ == s@,
{
    let mut v: Vec<char> = Vec::new();
    for c in it: s.chars()
        invariant
            v@ == it.seq().take(it.index() as int),
    {
        v.push(c);
    }
    v
}

/// `String::push` (std): appends one character.
#[verifier::external_body]
pub(crate) fn push_char(s: &mut String, c: char)
    ensures
        final(s)@ == old(s)@.push(c),
{
    s.push(c);
}

/// Appends a whole string.
pub fn push_str(out: &mut String, s: &str)
    ensures
        final(out)@ == old(out)@ + s@,
{
    out.append(s);
}

/// Appends a run of characters.
pub fn push_chars(out: &mut String, v: &[char])
    ensures
        final(out)@ == old(out)@ + v@,
{
    let ghost start = out@;
    let mut i: usize = 0;
    while i < v.len()
        invariant
            i <= v.len(),
            out@ == start + v@.take(i as int),
        decreases v.len() - i,
    {
        push_char(out, v[i]);
        i += 1;
        assert(v@.take(i as int) == v@.take(i - 1).push(v@[i - 1]));
    }
    assert(v@.take(v.len() as int) == v@);
}

/// A fresh string holding `v`.
pub fn string_of(v: &[char]) -> (s: String)
    ensures
        s@ == v@,
{
    let mut s = String::new();
    push_chars(&mut s, v);
    s
}

/// A fresh string holding `v[start..end]`.
pub fn string_of_range(v: &[char], start: usize, end: usize) -> (s: String)
    requires
        start <= end <= v.len(),
    ensures
        s@ == v@.subrange(start as int, end as int),
{
    let mut s = String::new();
    let mut i = start;
    while i < end
        invariant
            start <= i <= end <= v.len(),
            s@ == v@.subrange(start as int, i as int),
        decreases end - i,
    {
        push_char(&mut s, v[i]);
        i += 1;
    }
    s
}

/// `parts` joined by `sep`.
pub open spec fn joined(parts: Seq<Seq<char>>, sep: Seq<char>) -> Seq<char>
    decreases parts.len(),
{
    if parts.len() == 0 {
        Seq::empty()
    } else if parts.len() == 1 {
        parts[0]
    } else {
        joined(parts.drop_last(), sep) + sep + parts.last()
    }
}

// ───────────────────────── trimming ─────────────────────────

pub open spec fn trim_start_s(s: Seq<char>) -> Seq<char>
    decreases s.len(),
{
    if s.len() > 0 && is_ws(s[0]) {
        trim_start_s(s.drop_first())
    } else {
        s
    }
}

pub open spec fn trim_end_s(s: Seq<char>) -> Seq<char>
    decreases s.len(),
{
    if s.len() > 0 && is_ws(s.last()) {
        trim_end_s(s.drop_last())
    } else {
        s
    }
}

/// `str::trim`.
pub open spec fn trim_s(s: Seq<char>) -> Seq<char> {
    trim_end_s(trim_start_s(s))
}

/// What `trim_start_s` leaves starts with a non-blank.
pub proof fn lemma_trim_start_shape(s: Seq<char>)
    ensures
        trim_start_s(s).len() > 0 ==> !is_ws(trim_start_s(s)[0]),
        trim_start_s(s).len() <= s.len(),
        trim_start_s(s) == s.skip(s.len() - trim_start_s(s).len()),
    decreases s.len(),
{
    if s.len() > 0 && is_ws(s[0]) {
        lemma_trim_start_shape(s.drop_first());
        assert(s.drop_first().skip(s.drop_first().len() - trim_start_s(s).len()) == s.skip(
            s.len() - trim_start_s(s).len(),
        ));
    } else {
        assert(s.skip(0) == s);
    }
}

/// What `trim_end_s` leaves is a prefix that ends with a non-blank.
pub proof fn lemma_trim_end_shape(s: Seq<char>)
    ensures
        trim_end_s(s).len() > 0 ==> !is_ws(trim_end_s(s).last()),
        trim_end_s(s).len() <= s.len(),
        trim_end_s(s) == s.take(trim_end_s(s).len() as int),
    decreases s.len(),
{
    if s.len() > 0 && is_ws(s.last()) {
        lemma_trim_end_shape(s.drop_last());
        assert(s.drop_last().take(trim_end_s(s).len() as int) == s.take(trim_end_s(s).len() as int));
    } else {
        assert(s.take(s.len() as int) == s);
    }
}

/// What `trim_s` leaves starts and ends with a non-blank.
pub proof fn lemma_trim_shape(s: Seq<char>)
    ensures
        trim_s(s).len() > 0 ==> !is_ws(trim_s(s)[0]) && !is_ws(trim_s(s).last()),
{
    let u = trim_start_s(s);
    lemma_trim_start_shape(s);
    lemma_trim_end_shape(u);
    if trim_s(s).len() > 0 {
        assert(trim_s(s)[0] == u[0]);
    }
}

/// A text that starts and ends with non-blanks is its own trim.
pub proof fn lemma_trim_fixed(s: Seq<char>)
    requires
        s.len() == 0 || (!is_ws(s[0]) && !is_ws(s.last())),
    ensures
        trim_s(s) == s,
{
}

/// Trimming twice is trimming once.
pub proof fn lemma_trim_idempotent(s: Seq<char>)
    ensures
        trim_s(trim_s(s)) == trim_s(s),
{
    lemma_trim_shape(s);
    lemma_trim_fixed(trim_s(s));
}

proof fn lemma_trim_start_skip(s: Seq<char>, i: int)
    requires
        0 <= i <= s.len(),
        forall|j: int| 0 <= j < i ==> is_ws(#[trigger] s[j]),
    ensures
        trim_start_s(s) == trim_start_s(s.skip(i)),
    decreases i,
{
    if i > 0 {
        assert(s.skip(1) == s.drop_first());
        assert(s.drop_first().skip(i - 1) == s.skip(i));
        lemma_trim_start_skip(s.drop_first(), i - 1);
    } else {
        assert(s.skip(0) == s);
    }
}

proof fn lemma_trim_end_take(s: Seq<char>, i: int)
    requires
        0 <= i <= s.len(),
        forall|j: int| i <= j < s.len() ==> is_ws(#[trigger] s[j]),
    ensures
        trim_end_s(s) == trim_end_s(s.take(i)),
    decreases s.len() - i,
{
    if i < s.len() {
        assert(s.drop_last().take(i) == s.take(i));
        lemma_trim_end_take(s.drop_last(), i);
    } else {
        assert(s.take(i) == s);
    }
}

/// Index of the first character of `v[lo..hi]` that is not whitespace (or `hi`).
pub fn skip_ws_forward(v: &[char], lo: usize, hi: usize) -> (r: usize)
    requires
        lo <= hi <= v.len(),
    ensures
        lo <= r <= hi,
        forall|j: int| lo <= j < r ==> is_ws(#[trigger] v@[j]),
        r < hi ==> !is_ws(v@[r as int]),
        trim_start_s(v@.subrange(lo as int, hi as int)) == v@.subrange(r as int, hi as int),
{
    let mut i = lo;
    while i < hi && is_ws_exec(v[i])
        invariant
            lo <= i <= hi <= v.len(),
            forall|j: int| lo <= j < i ==> is_ws(#[trigger] v@[j]),
        decreases hi - i,
    {
        i += 1;
    }
    proof {
        let s = v@.subrange(lo as int, hi as int);
        lemma_trim_start_skip(s, i - lo);
        assert(s.skip(i - lo) == v@.subrange(i as int, hi as int));
        let t = v@.subrange(i as int, hi as int);
        if t.len() > 0 {
            assert(t[0] == v@[i as int]);
        }
    }
    i
}

/// Index just past the last non-whitespace character of `v[lo..hi]` (or `lo`).
pub fn skip_ws_backward(v: &[char], lo: usize, hi: usize) -> (r: usize)
    requires
        lo <= hi <= v.len(),
    ensures
        lo <= r <= hi,
        forall|j: int| r <= j < hi ==> is_ws(#[trigger] v@[j]),
        r > lo ==> !is_ws(v@[r - 1]),
        trim_end_s(v@.subrange(lo as int, hi as int)) == v@.subrange(lo as int, r as int),
{
    let mut i = hi;
    while i > lo && is_ws_exec(v[i - 1])
        invariant
            lo <= i <= hi <= v.len(),
            forall|j: int| i <= j < hi ==> is_ws(#[trigger] v@[j]),
        decreases i - lo,
    {
        i -= 1;
    }
    proof {
        let s = v@.subrange(lo as int, hi as int);
        lemma_trim_end_take(s, i - lo);
        assert(s.take(i - lo) == v@.subrange(lo as int, i as int));
        let t = v@.subrange(lo as int, i as int);
        if t.len() > 0 {
            assert(t.last() == v@[i - 1]);
        }
    }
    i
}

/// Bounds of `str::trim` applied to `v[lo..hi]`.
pub fn trim_bounds(v: &[char], lo: usize, hi: usize) -> (r: (usize, usize))
    requires
        lo <= hi <= v.len(),
    ensures
        lo <= r.0 <= r.1 <= hi,
        trim_s(v@.subrange(lo as int, hi as int)) == v@.subrange(r.0 as int, r.1 as int),
        trim_start_s(v@.subrange(lo as int, hi as int)) == v@.subrange(r.0 as int, hi as int),
{
    let a = skip_ws_forward(v, lo, hi);
    let b = skip_ws_backward(v, a, hi);
    (a, b)
}

/// `s.trim()` as a fresh string.
pub fn trim_string(s: &str) -> (r: String)
    ensures
        r@ == trim_s(s@),
{
    let v = chars_of(s);
    let (a, b) = trim_bounds(&v, 0, v.len());
    assert(v@.subrange(0, v.len() as int) == v@);
    string_of_range(&v, a, b)
}

// ───────────────────────── searching ─────────────────────────

/// `p` occurs in `s` at position `i`.
pub open spec fn occurs_at(s: Seq<char>, p: Seq<char>, i: int) -> bool {
    0 <= i && i + p.len() <= s.len() && s.subrange(i, i + p.len()) == p
}

/// `str::contains` with a string pattern.
pub open spec fn contains_s(s: Seq<char>, p: Seq<char>) -> bool {
    exists|i: int| occurs_at(s, p, i)
}

/// `str::starts_with`.
pub open spec fn starts_with_s(s: Seq<char>, p: Seq<char>) -> bool {
    occurs_at(s, p, 0)
}

/// `str::ends_with`.
pub open spec fn ends_with_s(s: Seq<char>, p: Seq<char>) -> bool {
    occurs_at(s, p, s.len() - p.len())
}

/// Whether `p` occurs in `v` at `i`.
pub fn matches_at(v: &[char], i: usize, p: &[char]) -> (r: bool)
    ensures
        r == occurs_at(v@, p@, i as int),
{
    if i > v.len() || p.len() > v.len() - i {
        return false;
    }
    let mut k: usize = 0;
    while k < p.len()
        invariant
            i + p.len() <= v.len(),
            k <= p.len(),
            forall|j: int| 0 <= j < k ==> v@[i + j] == p@[j],
        decreases p.len() - k,
    {
        if v[i + k] != p[k] {
            proof {
                assert(v@.subrange(i as int, i + p.len())[k as int] != p@[k as int]);
            }
            return false;
        }
        k += 1;
    }
    assert(v@.subrange(i as int, i + p.len()) == p@);
    true
}

pub fn starts_with(v: &[char], p: &[char]) -> (r: bool)
    ensures
        r == starts_with_s(v@, p@),
{
    matches_at(v, 0, p)
}

pub fn ends_with(v: &[char], p: &[char]) -> (r: bool)
    ensures
        r == ends_with_s(v@, p@),
{
    if p.len() > v.len() {
        return false;
    }
    matches_at(v, v.len() - p.len(), p)
}

/// Whether two runs of characters are equal.
pub fn chars_eq(a: &[char], b: &[char]) -> (r: bool)
    ensures
        r == (a@ == b@),
{
    if a.len() != b.len() {
        return false;
    }
    let mut i: usize = 0;
    while i < a.len()
        invariant
            i <= a.len() == b.len(),
            forall|j: int| 0 <= j < i ==> a@[j] == b@[j],
        decreases a.len() - i,
    {
        if a[i] != b[i] {
            return false;
        }
        i += 1;
    }
    assert(a@ == b@);
    true
}

/// Whether `p` occurs anywhere in `v`.
pub fn contains(v: &[char], p: &[char]) -> (r: bool)
    ensures
        r == contains_s(v@, p@),
{
    if p.len() > v.len() {
        assert forall|i: int| !occurs_at(v@, p@, i) by {}
        return false;
    }
    let mut i: usize = 0;
    while i <= v.len() - p.len()
        invariant
            p.len() <= v.len(),
            i <= v.len() - p.len(),
            forall|j: int| 0 <= j < i ==> !occurs_at(v@, p@, j),
        ensures
            forall|j: int| 0 <= j <= v.len() - p.len() ==> !occurs_at(v@, p@, j),
        decreases v.len() - p.len() - i,
    {
        if matches_at(v, i, p) {
            return true;
        }
        if i == v.len() - p.len() {
            break;
        }
        i += 1;
    }
    false
}

/// Whether `c` occurs in `v`.
pub fn contains_char(v: &[char], c: char) -> (r: bool)
    ensures
        r == v@.contains(c),
{
    let mut i: usize = 0;
    while i < v.len()
        invariant
            i <= v.len(),
            forall|j: int| 0 <= j < i ==> v@[j] != c,
        decreases v.len() - i,
    {
        if v[i] == c {
            return true;
        }
        i += 1;
    }
    false
}

/// Whether `v` equals `p` ignoring ASCII case.
pub fn eq_ignore_case_exec(v: &[char], p: &[char]) -> (r: bool)
    ensures
        r == eq_ignore_case(v@, p@),
{
    if v.len() != p.len() {
        assert(lower_s(v@).len() != lower_s(p@).len());
        return false;
    }
    let mut k: usize = 0;
    while k < p.len()
        invariant
            v.len() == p.len(),
            k <= p.len(),
            forall|j: int| 0 <= j < k ==> lower(v@[j]) == lower(p@[j]),
        decreases p.len() - k,
    {
        if lower_exec(v[k]) != lower_exec(p[k]) {
            assert(lower_s(v@)[k as int] != lower_s(p@)[k as int]);
            return false;
        }
        k += 1;
    }
    assert(lower_s(v@) == lower_s(p@));
    true
}

/// Characters of `v` mapped through `char::to_ascii_lowercase`.
pub fn lower_chars(v: &[char]) -> (r: Vec<char>)
    ensures
        r@ == lower_s(v@),
{
    let mut r: Vec<char> = Vec::new();
    let mut i: usize = 0;
    while i < v.len()
        invariant
            i <= v.len(),
            r@ == lower_s(v@.take(i as int)),
        decreases v.len() - i,
    {
        r.push(lower_exec(v[i]));
        i += 1;
        assert(lower_s(v@.take(i as int)) == lower_s(v@.take(i - 1)).push(lower(v@[i - 1])));
    }
    assert(v@.take(v.len() as int) == v@);
    r
}

// ───────────────────────── UTF-8 lengths ─────────────────────────

/// Number of bytes in the UTF-8 encoding of `s`.
pub open spec fn byte_len(s: Seq<char>) -> nat {
    encode_utf8(s).len()
}

pub proof fn lemma_encode_concat(a: Seq<char>, b: Seq<char>)
    ensures
        encode_utf8(a + b) == encode_utf8(a) + encode_utf8(b),
    decreases a.len(),
{
    if a.len() == 0 {
        assert(a + b == b);
    } else {
        assert((a + b).drop_first() == a.drop_first() + b);
        lemma_encode_concat(a.drop_first(), b);
    }
}

pub proof fn lemma_byte_len_push(a: Seq<char>, c: char)
    ensures
        byte_len(a.push(c)) == byte_len(a) + encode_scalar(c as u32).len(),
{
    lemma_encode_concat(a, seq![c]);
    assert(a.push(c) == a + seq![c]);
    assert(seq![c].drop_first().len() == 0);
    assert(encode_utf8(seq![c]) == encode_scalar(c as u32) + encode_utf8(seq![c].drop_first()));
}

pub proof fn lemma_byte_len_take(a: Seq<char>, i: int)
    requires
        0 <= i < a.len(),
    ensures
        byte_len(a.take(i + 1)) == byte_len(a.take(i)) + encode_scalar(a[i] as u32).len(),
{
    assert(a.take(i + 1) == a.take(i).push(a[i]));
    lemma_byte_len_push(a.take(i), a[i]);
}

pub proof fn lemma_byte_len_add(a: Seq<char>, b: Seq<char>)
    ensures
        byte_len(a + b) == byte_len(a) + byte_len(b),
{
    lemma_encode_concat(a, b);
}

pub proof fn lemma_byte_len_mono(a: Seq<char>, i: int, j: int)
    requires
        0 <= i <= j <= a.len(),
    ensures
        byte_len(a.take(i)) <= byte_len(a.take(j)),
        byte_len(a.take(j)) <= byte_len(a),
{
    lemma_encode_concat(a.take(i), a.subrange(i, j));
    assert(a.take(i) + a.subrange(i, j) == a.take(j));
    lemma_encode_concat(a.take(j), a.skip(j));
    assert(a.take(j) + a.skip(j) == a);
}

/// The longest prefix of `s` whose UTF-8 encoding takes at most `max` bytes.
pub open spec fn fitting_prefix(s: Seq<char>, max: nat) -> Seq<char>
    decreases s.len(),
{
    if byte_len(s) <= max || s.len() == 0 {
        s
    } else {
        fitting_prefix(s.drop_last(), max)
    }
}

/// The prefix kept under a byte cap ends just before the first character
/// that would cross it.
pub proof fn lemma_fitting_prefix(s: Seq<char>, max: nat, k: int)
    requires
        0 <= k < s.len(),
        byte_len(s.take(k)) <= max,
        byte_len(s.take(k + 1)) > max,
    ensures
        fitting_prefix(s, max) == s.take(k),
    decreases s.len(),
{
    lemma_byte_len_mono(s, k + 1, s.len() as int);
    if s.len() == k + 1 {
        assert(s.take(k + 1) == s);
        assert(s.drop_last() == s.take(k));
        assert(s.take(k).take(k) == s.take(k));
        assert(fitting_prefix(s.take(k), max) == s.take(k));
    } else {
        let t = s.drop_last();
        assert(t.take(k) == s.take(k));
        assert(t.take(k + 1) == s.take(k + 1));
        lemma_fitting_prefix(t, max, k);
    }
}

/// `char::len_utf8`.
pub fn char_width(c: char) -> (w: usize)
    ensures
        w == encode_scalar(c as u32).len(),
        1 <= w <= 4,
{
    proof {
        broadcast use char_is_scalar;

        assert(is_scalar(c as u32));
    }
    let u = c as u32;
    if u <= 0x7f {
        1
    } else if u <= 0x7ff {
        2
    } else if u <= 0xffff {
        3
    } else {
        4
    }
}

/// Byte length of a character sequence; agrees with `str::len`.
pub fn byte_len_of(v: &[char]) -> (n: usize)
    requires
        byte_len(v@) <= usize::MAX,
    ensures
        n == byte_len(v@),
{
    let mut n: usize = 0;
    let mut i: usize = 0;
    while i < v.len()
        invariant
            i <= v.len(),
            n == byte_len(v@.take(i as int)),
            byte_len(v@) <= usize::MAX,
        decreases v.len() - i,
    {
        proof {
            lemma_byte_len_take(v@, i as int);
            lemma_byte_len_mono(v@, i + 1, i + 1);
        }
        n = n + char_width(v[i]);
        i += 1;
    }
    assert(v@.take(v.len() as int) == v@);
    n
}

/// Every character takes at least one byte.
pub proof fn lemma_char_width_pos(c: char)
    ensures
        encode_scalar(c as u32).len() >= 1,
{
    broadcast use char_is_scalar;

    assert(is_scalar(c as u32));
}

/// A longer prefix takes strictly more bytes.
pub proof fn lemma_byte_len_strict(a: Seq<char>, i: int, j: int)
    requires
        0 <= i < j <= a.len(),
    ensures
        byte_len(a.take(i)) < byte_len(a.take(j)),
{
    lemma_byte_len_take(a, i);
    lemma_char_width_pos(a[i]);
    lemma_byte_len_mono(a, i + 1, j);
}

/// How many leading characters of `v` fit in `max` bytes of UTF-8.
pub fn fitting_prefix_len(v: &[char], max: usize) -> (k: usize)
    ensures
        k <= v.len(),
        v@.take(k as int) == fitting_prefix(v@, max as nat),
        byte_len(v@.take(k as int)) <= max,
{
    let mut used: usize = 0;
    let mut k: usize = 0;
    while k < v.len() && char_width(v[k]) <= max - used
        invariant
            k <= v.len(),
            used == byte_len(v@.take(k as int)),
            used <= max,
        decreases v.len() - k,
    {
        proof {
            lemma_byte_len_take(v@, k as int);
        }
        used += char_width(v[k]);
        k += 1;
    }
    proof {
        if k == v.len() {
            assert(v@.take(k as int) == v@);
        } else {
            lemma_byte_len_take(v@, k as int);
            lemma_fitting_prefix(v@, max as nat, k as int);
        }
    }
    k
}

/// `str::len` is the byte length of its characters.
pub proof fn lemma_str_len(s: &str)
    ensures
        s.spec_bytes().len() == byte_len(s@),
{
}

// ───────────────────────── numbers ─────────────────────────

pub open spec fn digit_char(d: nat) -> char {
    if d < 10 {
        (('0' as u32) + d) as char
    } else {
        (('a' as u32) + (d - 10)) as char
    }
}

/// `format!("{:x}", n)`: lower-case hexadecimal without prefix.
pub open spec fn hex_s(n: nat) -> Seq<char>
    decreases n,
{
    if n < 16 {
        seq![digit_char(n)]
    } else {
        hex_s(n / 16).push(digit_char(n % 16))
    }
}

/// `format!("{}", n)` for unsigned `n`.
pub open spec fn dec_s(n: nat) -> Seq<char>
    decreases n,
{
    if n < 10 {
        seq![digit_char(n)]
    } else {
        dec_s(n / 10).push(digit_char(n % 10))
    }
}

/// `format!("{:04x}", n)`: hexadecimal left-padded with zeros to four digits.
pub open spec fn hex4_s(n: nat) -> Seq<char> {
    let h = hex_s(n);
    if h.len() >= 4 {
        h
    } else {
        Seq::new((4 - h.len()) as nat, |i: int| '0') + h
    }
}

/// `format!("0x{:x}", n)`.
pub open spec fn hex0x_s(n: nat) -> Seq<char> {
    seq!['0', 'x'] + hex_s(n)
}

fn digit_exec(d: u64) -> (c: char)
    requires
        d < 16,
    ensures
        c == digit_char(d as nat),
{
    if d < 10 {
        let u = ('0' as u32) + (d as u32);
        proof {
            assert(is_scalar(u));
        }
        char_from_u32(u)
    } else {
        let u = ('a' as u32) + ((d - 10) as u32);
        proof {
            assert(is_scalar(u));
        }
        char_from_u32(u)
    }
}

fn digits_rev(n: u64, base: u64) -> (r: Vec<char>)
    requires
        base == 10 || base == 16,
    ensures
        base == 16 ==> r@ == hex_s(n as nat),
        base == 10 ==> r@ == dec_s(n as nat),
    decreases n,
{
    if n < base {
        let mut v = Vec::new();
        v.push(digit_exec(n));
        proof {
            assert(v@ == seq![digit_char(n as nat)]);
        }
        v
    } else {
        let mut v = digits_rev(n / base, base);
        v.push(digit_exec(n % base));
        v
    }
}

/// Appends `format!("{:x}", n)`.
pub fn push_hex(out: &mut String, n: u64)
    ensures
        final(out)@ == old(out)@ + hex_s(n as nat),
{
    let v = digits_rev(n, 16);
    push_chars(out, &v);
}

/// Appends `format!("0x{:x}", n)`.
pub fn push_hex0x(out: &mut String, n: u64)
    ensures
        final(out)@ == old(out)@ + hex0x_s(n as nat),
{
    let ghost o = out@;
    push_char(out, '0');
    push_char(out, 'x');
    push_hex(out, n);
    assert(out@ == o + hex0x_s(n as nat));
}

/// Appends `format!("{:04x}", n)`.
pub fn push_hex4(out: &mut String, n: u64)
    ensures
        final(out)@ == old(out)@ + hex4_s(n as nat),
{
    let ghost o = out@;
    let v = digits_rev(n, 16);
    let mut k = v.len();
    while k < 4
        invariant
            v@ == hex_s(n as nat),
            v.len() <= k <= 4 || (k == v.len() && k >= 4),
            out@ == o + Seq::new((k - v.len()) as nat, |i: int| '0'),
        decreases 4 - k,
    {
        push_char(out, '0');
        k += 1;
        assert(out@ == o + Seq::new((k - v.len()) as nat, |i: int| '0'));
    }
    push_chars(out, &v);
    if v.len() >= 4 {
        assert(Seq::new((k - v.len()) as nat, |i: int| '0') == Seq::<char>::empty());
    }
}

/// Appends `format!("{}", n)`.
pub fn push_dec(out: &mut String, n: u64)
    ensures
        final(out)@ == old(out)@ + dec_s(n as nat),
{
    let v = digits_rev(n, 10);
    push_chars(out, &v);
}

// ───────────────────────── views of collections of strings ─────────────────────────

/// The texts of `v`.
pub open spec fn strings_view(v: Seq<String>) -> Seq<Seq<char>> {
    v.map_values(|s: String| s@)
}

/// The texts of `v`.
pub open spec fn vecs_view(v: Seq<Vec<char>>) -> Seq<Seq<char>> {
    v.map_values(|x: Vec<char>| x@)
}

/// The texts of the pairs of `v`.
pub open spec fn pairs_view(v: Seq<(String, String)>) -> Seq<(Seq<char>, Seq<char>)> {
    v.map_values(|e: (String, String)| (e.0@, e.1@))
}

/// The text of an optional string.
pub open spec fn opt_view(o: Option<String>) -> Option<Seq<char>> {
    match o {
        Some(s) => Some(s@),
        None => None,
    }
}

/// The texts of optional strings.
pub open spec fn opt_strings(v: Seq<Option<String>>) -> Seq<Option<Seq<char>>> {
    v.map_values(|o: Option<String>| opt_view(o))
}

} // verus!
