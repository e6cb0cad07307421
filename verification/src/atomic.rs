//! Checks made before an atomic z4 commit: the phase id, the commit summary,
//! and the machine-only surface of the z4 sources being committed.
use vstd::prelude::*;
use crate::hexdoc::strip_nul_escapes;
use crate::text::{
    chars_of, contains_char, is_ascii_alnum, is_ascii_hex, is_ascii_hex_exec, is_ascii_ws, is_ws,
    is_ws_exec, push_chars, push_str, res_view, string_of, string_of_range,
};

verus! {

// ───────────────────────── phase ids ─────────────────────────

/// Whether `s` matches `^0x[0-9A-Fa-f]+$`.
pub open spec fn is_phase_id_s(s: Seq<char>) -> bool {
    &&& s.len() >= 3
    &&& s[0] == '0'
    &&& s[1] == 'x'
    &&& forall|i: int| 2 <= i < s.len() ==> is_ascii_hex(#[trigger] s[i])
}

/// Whether `phase_id` is a hex phase id such as `0x16ab1d44`.
pub fn is_phase_id(phase_id: &str) -> (r: bool)
    ensures
        r == is_phase_id_s(phase_id@),
{
    let v = chars_of(phase_id);
    if v.len() < 3 || v[0] != '0' || v[1] != 'x' {
        return false;
    }
    let mut i: usize = 2;
    while i < v.len()
        invariant
            2 <= i <= v.len(),
            v@ == phase_id@,
            forall|j: int| 2 <= j < i ==> is_ascii_hex(#[trigger] v@[j]),
        decreases v.len() - i,
    {
        if !is_ascii_hex_exec(v[i]) {
            return false;
        }
        i += 1;
    }
    true
}

// ───────────────────────── commit summaries ─────────────────────────

/// The words of `s` (maximal runs of non-whitespace), each after the first
/// preceded by one space: `split_whitespace().join(" ")`.  `pending` says a
/// space is owed before the next word, `started` that a word was written.
pub open spec fn squeeze_ws(s: Seq<char>, pending: bool, started: bool) -> Seq<char>
    decreases s.len(),
{
    if s.len() == 0 {
        seq![]
    } else if is_ws(s[0]) {
        squeeze_ws(s.drop_first(), started, started)
    } else {
        (if pending {
            seq![' ']
        } else {
            seq![]
        }) + seq![s[0]] + squeeze_ws(s.drop_first(), false, true)
    }
}

/// `summary.split_whitespace().collect::<Vec<_>>().join(" ")`.
pub open spec fn normalized_summary_s(s: Seq<char>) -> Seq<char> {
    squeeze_ws(s, false, false)
}

pub open spec fn is_ascii_s(s: Seq<char>) -> bool {
    forall|i: int| 0 <= i < s.len() ==> (#[trigger] s[i] as u32) < 128
}

pub open spec fn empty_summary_msg() -> Seq<char> {
    "'summary' must not be empty"@
}

pub open spec fn ascii_summary_msg() -> Seq<char> {
    "'summary' must be ASCII-only for z4 atomic commits"@
}

/// The summary line of a commit, or why it is refused.
pub open spec fn summary_s(s: Seq<char>) -> Result<Seq<char>, Seq<char>> {
    let n = normalized_summary_s(s);
    if n.len() == 0 {
        Err(empty_summary_msg())
    } else if !is_ascii_s(n) {
        Err(ascii_summary_msg())
    } else {
        Ok(n)
    }
}

/// Collapses the blanks of a commit summary and checks that it is ASCII text.
pub fn normalize_summary(summary: &str) -> (r: Result<String, String>)
    ensures
        res_view(r) == summary_s(summary@),
{
    let v = chars_of(summary);
    let mut w: Vec<char> = Vec::new();
    let mut pending = false;
    let mut started = false;
    let mut i: usize = 0;
    assert(v@.skip(0) == v@);
    while i < v.len()
        invariant
            i <= v.len(),
            v@ == summary@,
            w@ + squeeze_ws(v@.skip(i as int), pending, started) == normalized_summary_s(v@),
            started == (w.len() > 0),
            pending ==> started,
        decreases v.len() - i,
    {
        let ghost rest = v@.skip(i as int);
        assert(rest.drop_first() == v@.skip(i + 1));
        let c = v[i];
        if is_ws_exec(c) {
            pending = started;
        } else {
            if pending {
                w.push(' ');
            }
            w.push(c);
            pending = false;
            started = true;
        }
        i += 1;
    }
    assert(v@.skip(v.len() as int).len() == 0);
    assert(w@ == normalized_summary_s(v@));
    if w.len() == 0 {
        return Err(String::from_str("'summary' must not be empty"));
    }
    let mut k: usize = 0;
    while k < w.len()
        invariant
            k <= w.len(),
            w.len() > 0,
            w@ == normalized_summary_s(summary@),
            forall|j: int| 0 <= j < k ==> (#[trigger] w@[j] as u32) < 128,
        decreases w.len() - k,
    {
        if (w[k] as u32) >= 128 {
            assert(!is_ascii_s(w@));
            return Err(String::from_str("'summary' must be ASCII-only for z4 atomic commits"));
        }
        k += 1;
    }
    Ok(string_of(&w))
}

/// The commit message of a phase: `[Z4_<phase>] <summary>`.
pub open spec fn commit_message_s(phase_id: Seq<char>, summary: Seq<char>) -> Seq<char> {
    "[Z4_"@ + phase_id + "] "@ + summary
}

/// Builds the commit message of a phase.
pub fn build_commit_message(phase_id: &str, summary: &str) -> (r: String)
    ensures
        r@ == commit_message_s(phase_id@, summary@),
{
    let mut out = String::from_str("[Z4_");
    push_str(&mut out, phase_id);
    push_str(&mut out, "] ");
    push_str(&mut out, summary);
    out
}

pub open spec fn phase_missing_msg() -> Seq<char> {
    "'phase_id' required (example: 0x16ab1d44)"@
}

pub open spec fn phase_invalid_msg() -> Seq<char> {
    "'phase_id' must match 0x[0-9A-Fa-f]+"@
}

pub open spec fn summary_missing_msg() -> Seq<char> {
    "'summary' required"@
}

/// The commit message of a sync request, or why the request is refused, in
/// the order the checks are made: phase id present, phase id well formed,
/// summary present, summary acceptable.
pub open spec fn sync_message_s(phase_id: Option<Seq<char>>, summary: Option<Seq<char>>) -> Result<
    Seq<char>,
    Seq<char>,
> {
    match phase_id {
        None => Err(phase_missing_msg()),
        Some(p) => if !is_phase_id_s(p) {
            Err(phase_invalid_msg())
        } else {
            match summary {
                None => Err(summary_missing_msg()),
                Some(s) => match summary_s(s) {
                    Err(m) => Err(m),
                    Ok(n) => Ok(commit_message_s(p, n)),
                },
            }
        },
    }
}

/// Checks the phase id and summary of a sync request and builds its commit message.
pub fn sync_commit_message(phase_id: Option<&str>, summary: Option<&str>) -> (r: Result<
    String,
    String,
>)
    ensures
        res_view(r) == sync_message_s(
            crate::text::str_opt(phase_id),
            crate::text::str_opt(summary),
        ),
{
    let p = match phase_id {
        None => {
            return Err(String::from_str("'phase_id' required (example: 0x16ab1d44)"));
        },
        Some(p) => p,
    };
    if !is_phase_id(p) {
        return Err(String::from_str("'phase_id' must match 0x[0-9A-Fa-f]+"));
    }
    let s = match summary {
        None => {
            return Err(String::from_str("'summary' required"));
        },
        Some(s) => s,
    };
    match normalize_summary(s) {
        Err(m) => Err(m),
        Ok(n) => Ok(build_commit_message(p, n.as_str())),
    }
}

// ───────────────────────── machine-only surface ─────────────────────────

/// Characters a machine string may hold besides ASCII letters and digits.
pub open spec fn is_machine_punct(c: char) -> bool {
    c == '_' || c == '.' || c == '/' || c == '-' || c == ':' || c == '%' || c == '@'
}

/// Whether a quoted string is machine text: a hex literal (`0x` then hex
/// digits, trailing `\0` escapes allowed), or a blank-free token of ASCII
/// letters, digits and `_ . / - : % @`.
pub open spec fn allow_machine_string_s(v: Seq<char>) -> bool {
    if v.len() >= 2 && v[0] == '0' && v[1] == 'x' {
        let t = strip_nul_escapes(v);
        forall|i: int| 2 <= i < t.len() ==> is_ascii_hex(#[trigger] t[i])
    } else if exists|i: int| 0 <= i < v.len() && is_ascii_ws(#[trigger] v[i]) {
        false
    } else {
        forall|i: int| 0 <= i < v.len() ==> is_ascii_alnum(#[trigger] v[i]) || is_machine_punct(v[i])
    }
}

/// Whether a quoted string is machine text.
pub fn allow_machine_string(value: &str) -> (r: bool)
    ensures
        r == allow_machine_string_s(value@),
{
    let v = chars_of(value);
    if v.len() >= 2 && v[0] == '0' && v[1] == 'x' {
        let e = crate::hexdoc::strip_nul_end(&v, 0, v.len());
        assert(v@.subrange(0, v.len() as int) == v@);
        let ghost t = strip_nul_escapes(v@);
        let mut i: usize = 2;
        while i < e
            invariant
                2 <= i,
                e <= v.len(),
                v@ == value@,
                t == strip_nul_escapes(value@),
                v.len() >= 2 && v@[0] == '0' && v@[1] == 'x',
                v@.subrange(0, e as int) == t,
                forall|j: int| 2 <= j < i && j < t.len() ==> is_ascii_hex(#[trigger] t[j]),
            decreases e - i,
        {
            if !is_ascii_hex_exec(v[i]) {
                assert(t[i as int] == v@[i as int]);
                assert(!is_ascii_hex(t[i as int]));
                return false;
            }
            i += 1;
        }
        return true;
    }
    let mut i: usize = 0;
    while i < v.len()
        invariant
            i <= v.len(),
            v@ == value@,
            !(v.len() >= 2 && v@[0] == '0' && v@[1] == 'x'),
            forall|j: int| 0 <= j < i ==> !is_ascii_ws(#[trigger] v@[j]),
        decreases v.len() - i,
    {
        let c = v[i];
        if c == ' ' || c == '\t' || c == '\n' || c == '\x0C' || c == '\r' {
            assert(is_ascii_ws(v@[i as int]));
            return false;
        }
        i += 1;
    }
    let mut k: usize = 0;
    while k < v.len()
        invariant
            k <= v.len(),
            v@ == value@,
            !(v.len() >= 2 && v@[0] == '0' && v@[1] == 'x'),
            forall|j: int| 0 <= j < v.len() ==> !is_ascii_ws(#[trigger] v@[j]),
            forall|j: int| 0 <= j < k ==> is_ascii_alnum(#[trigger] v@[j]) || is_machine_punct(v@[j]),
        decreases v.len() - k,
    {
        let c = v[k];
        let ok = ('a' <= c && c <= 'z') || ('A' <= c && c <= 'Z') || ('0' <= c && c <= '9') || c
            == '_' || c == '.' || c == '/' || c == '-' || c == ':' || c == '%' || c == '@';
        if !ok {
            assert(!(is_ascii_alnum(v@[k as int]) || is_machine_punct(v@[k as int])));
            return false;
        }
        k += 1;
    }
    true
}

/// Index of the quote closing a string whose body starts at `i`, following
/// `[^"\\]*(?:\\.[^"\\]*)*"`: an escape is a backslash and any character but
/// a line feed.
pub open spec fn quote_end(s: Seq<char>, i: int) -> Option<int>
    decreases s.len() - i,
{
    if i < 0 || i >= s.len() {
        None
    } else if s[i] == '"' {
        Some(i)
    } else if s[i] == '\\' {
        if i + 1 < s.len() && s[i + 1] != '\n' {
            quote_end(s, i + 2)
        } else {
            None
        }
    } else {
        quote_end(s, i + 1)
    }
}

pub proof fn lemma_quote_end(s: Seq<char>, i: int)
    ensures
        quote_end(s, i) matches Some(e) ==> i <= e < s.len() && s[e] == '"',
    decreases s.len() - i,
{
    if 0 <= i < s.len() && s[i] != '"' {
        if s[i] == '\\' {
            if i + 1 < s.len() && s[i + 1] != '\n' {
                lemma_quote_end(s, i + 2);
            }
        } else {
            lemma_quote_end(s, i + 1);
        }
    }
}

/// The first string, among those `"([^"\\]*(?:\\.[^"\\]*)*)"` captures when
/// scanning `s` from `p` left to right without overlap, that is not machine text.
pub open spec fn rejected_from(s: Seq<char>, p: int) -> Option<Seq<char>>
    decreases s.len() - p,
{
    if p < 0 || p >= s.len() {
        None
    } else if s[p] == '"' {
        match quote_end(s, p + 1) {
            Some(e) => {
                proof {
                    lemma_quote_end(s, p + 1);
                }
                if allow_machine_string_s(s.subrange(p + 1, e)) {
                    rejected_from(s, e + 1)
                } else {
                    Some(s.subrange(p + 1, e))
                }
            },
            None => rejected_from(s, p + 1),
        }
    } else {
        rejected_from(s, p + 1)
    }
}

pub open spec fn comment_msg(path: Seq<char>) -> Seq<char> {
    "Refusing atomic sync for '"@ + path + "': '#' comment surface detected"@
}

pub open spec fn human_msg(path: Seq<char>, inner: Seq<char>) -> Seq<char> {
    "Refusing atomic sync for '"@ + path + "': human-readable quoted string detected ("@ + inner
        + ")"@
}

/// Why a z4 source may not be committed atomically, if it may not: a `#`
/// comment surface, or a quoted string that is not machine text.
pub open spec fn lint_s(path: Seq<char>, s: Seq<char>) -> Option<Seq<char>> {
    if s.contains('#') {
        Some(comment_msg(path))
    } else {
        match rejected_from(s, 0) {
            Some(inner) => Some(human_msg(path, inner)),
            None => None,
        }
    }
}

fn quote_end_exec(v: &[char], i: usize) -> (r: Option<usize>)
    requires
        i <= v.len(),
    ensures
        match quote_end(v@, i as int) {
            Some(e) => r == Some(e as usize) && i <= e < v.len(),
            None => r is None,
        },
    decreases v.len() - i,
{
    proof {
        lemma_quote_end(v@, i as int);
    }
    let mut j = i;
    while j < v.len()
        invariant
            i <= j <= v.len(),
            quote_end(v@, i as int) == quote_end(v@, j as int),
        decreases v.len() - j,
    {
        if v[j] == '"' {
            return Some(j);
        } else if v[j] == '\\' {
            if j + 1 < v.len() && v[j + 1] != '\n' {
                j += 2;
            } else {
                return None;
            }
        } else {
            j += 1;
        }
    }
    None
}

/// Refuses a z4 source whose surface is not machine-only.
pub fn lint_z4_source(path: &str, source_text: &str) -> (r: Result<(), String>)
    ensures
        match lint_s(path@, source_text@) {
            Some(m) => r matches Err(e) && e@ == m,
            None => r is Ok,
        },
{
    let v = chars_of(source_text);
    if contains_char(&v, '#') {
        let mut m = String::from_str("Refusing atomic sync for '");
        push_str(&mut m, path);
        push_str(&mut m, "': '#' comment surface detected");
        assert(m@ == comment_msg(path@));
        return Err(m);
    }
    let mut p: usize = 0;
    while p < v.len()
        invariant
            p <= v.len(),
            v@ == source_text@,
            !v@.contains('#'),
            rejected_from(v@, 0) == rejected_from(v@, p as int),
        decreases v.len() - p,
    {
        if v[p] == '"' {
            match quote_end_exec(&v, p + 1) {
                Some(e) => {
                    let inner = string_of_range(&v, p + 1, e);
                    if !allow_machine_string(inner.as_str()) {
                        let mut m = String::from_str("Refusing atomic sync for '");
                        push_str(&mut m, path);
                        push_str(&mut m, "': human-readable quoted string detected (");
                        push_str(&mut m, inner.as_str());
                        push_str(&mut m, ")");
                        assert(rejected_from(v@, p as int) == Some(inner@));
                        assert(m@ == human_msg(path@, inner@));
                        return Err(m);
                    }
                    p = e + 1;
                },
                None => {
                    p += 1;
                },
            }
        } else {
            p += 1;
        }
    }
    Ok(())
}

} // verus!
