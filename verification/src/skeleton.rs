//! Line-based skeletons for languages without a dedicated parser: the
//! definition-like lines are kept and the gaps between them collapsed.
use vstd::prelude::*;
use crate::text::{vecs_view};
use crate::text::{
    byte_len, byte_len_of, chars_of, contains, contains_s, is_word, is_word_exec, is_ws, is_ws_exec,
    occurs_at, push_chars, push_str, starts_with_s, trim_s, trim_start_s, upper, upper_exec, upper_s,
};
use crate::z4::lines_s;
use crate::json::{items_of, json_items, json_str, json_u64, member, member_s, string_of_json, u64_of_json};
use crate::slicer::{lowercase, to_lowercase};
use crate::text::{str_opt, trim_end_s};
use crate::text::{dec_s, push_dec};

verus! {

// ───────────────────────── definition lines ─────────────────────────

/// Whether `s`, in upper case, mentions `TODO` or `FIXME`.
pub open spec fn todo_fixme_s(s: Seq<char>) -> bool {
    contains_s(upper_s(s), "TODO"@) || contains_s(upper_s(s), "FIXME"@)
}

/// Whether a line mentions `TODO` or `FIXME` in any case.
pub fn contains_todo_fixme(s: &[char]) -> (r: bool)
    ensures
        r == todo_fixme_s(s@),
{
    let mut up: Vec<char> = Vec::new();
    let mut i: usize = 0;
    while i < s.len()
        invariant
            i <= s.len(),
            up@ == upper_s(s@.take(i as int)),
        decreases s.len() - i,
    {
        up.push(upper_exec(s[i]));
        i += 1;
        assert(upper_s(s@.take(i as int)) =~= upper_s(s@.take(i - 1)).push(upper(s@[i - 1])));
    }
    assert(s@.take(s.len() as int) == s@);
    let a = chars_of("TODO");
    let b = chars_of("FIXME");
    contains(&up, &a) || contains(&up, &b)
}

/// End of the run of whitespace starting at `i`.
pub open spec fn ws_end(s: Seq<char>, i: int) -> int
    decreases s.len() - i,
{
    if 0 <= i < s.len() && is_ws(s[i]) {
        ws_end(s, i + 1)
    } else {
        i
    }
}

/// Whether `\s+[a-zA-Z0-9_]` matches `t` at `i`.
pub open spec fn ws_then_word(t: Seq<char>, i: int) -> bool {
    let e = ws_end(t, i);
    e > i && e < t.len() && is_word(t[e])
}

/// Whether `kw` followed by `\s+[a-zA-Z0-9_]` starts `t` at `i`.
pub open spec fn keyword_at(t: Seq<char>, i: int, kw: Seq<char>) -> bool {
    occurs_at(t, kw, i) && ws_then_word(t, i + kw.len())
}

/// `^\s*(function|class|def|func|struct|interface|enum)\s+([a-zA-Z0-9_]+)` on
/// a line whose leading blanks are already dropped.
pub open spec fn decl_keyword_match(t: Seq<char>) -> bool {
    ||| keyword_at(t, 0, "function"@)
    ||| keyword_at(t, 0, "class"@)
    ||| keyword_at(t, 0, "def"@)
    ||| keyword_at(t, 0, "func"@)
    ||| keyword_at(t, 0, "struct"@)
    ||| keyword_at(t, 0, "interface"@)
    ||| keyword_at(t, 0, "enum"@)
}

/// Position after an optional `public`, `private` or `protected` at `i`.
pub open spec fn after_visibility(t: Seq<char>, i: int) -> int {
    if occurs_at(t, "public"@, i) {
        i + 6
    } else if occurs_at(t, "private"@, i) {
        i + 7
    } else if occurs_at(t, "protected"@, i) {
        i + 9
    } else {
        i
    }
}

/// Position after an optional `static\s*` at `i`.
pub open spec fn after_static(t: Seq<char>, i: int) -> int {
    if occurs_at(t, "static"@, i) {
        ws_end(t, i + 6)
    } else {
        i
    }
}

/// Where the member keyword of
/// `^\s*(?:public|private|protected)?\s*(?:static\s*)?KEYWORD\s+([a-zA-Z0-9_]+)`
/// must stand, on a line whose leading blanks are already dropped.  (None of
/// the optional words can start a keyword, so taking each one when present
/// is the only way to match.)
pub open spec fn member_keyword_pos(t: Seq<char>) -> int {
    after_static(t, ws_end(t, after_visibility(t, 0)))
}

/// The two member patterns: keyword `fn`, `var` or `val`, or keyword `func`.
pub open spec fn member_keyword_match(t: Seq<char>) -> bool {
    let k = member_keyword_pos(t);
    ||| keyword_at(t, k, "fn"@)
    ||| keyword_at(t, k, "var"@)
    ||| keyword_at(t, k, "val"@)
    ||| keyword_at(t, k, "func"@)
}

/// The words a definition line may start with.
pub open spec fn starts_with_definition_word(t: Seq<char>) -> bool {
    ||| starts_with_s(t, "function"@)
    ||| starts_with_s(t, "class"@)
    ||| starts_with_s(t, "def"@)
    ||| starts_with_s(t, "func"@)
    ||| starts_with_s(t, "struct"@)
    ||| starts_with_s(t, "interface"@)
    ||| starts_with_s(t, "enum"@)
    ||| starts_with_s(t, "public"@)
    ||| starts_with_s(t, "private"@)
    ||| starts_with_s(t, "protected"@)
    ||| starts_with_s(t, "static"@)
    ||| starts_with_s(t, "fn"@)
    ||| starts_with_s(t, "var"@)
    ||| starts_with_s(t, "val"@)
}

/// Whether a line is kept in a skeleton: a `TODO`/`FIXME` line, or a line
/// that starts with a definition word and matches one of the definition patterns.
pub open spec fn is_definition_line_s(line: Seq<char>) -> bool {
    let t = trim_start_s(line);
    if t.len() == 0 {
        false
    } else if todo_fixme_s(t) {
        true
    } else {
        starts_with_definition_word(t) && (decl_keyword_match(t) || member_keyword_match(t))
    }
}

proof fn lemma_ws_run(t: Seq<char>, i: int, e: int)
    requires
        0 <= i <= e < t.len(),
        forall|j: int| i <= j < e ==> is_ws(#[trigger] t[j]),
        !is_ws(t[e]),
    ensures
        ws_end(t, i) == e,
    decreases e - i,
{
    if i < e {
        lemma_ws_run(t, i + 1, e);
    }
}

/// A line that, once its leading blanks are dropped, starts with one of the
/// declaration keywords (`function`, `class`, `def`, `func`, `struct`,
/// `interface`, `enum`), then one or more blanks, then a name character, is
/// a definition line, so skeletons keep it.
pub proof fn law_declarations_are_definition_lines(line: Seq<char>, kw: Seq<char>, blanks: int)
    requires
        kw == "function"@ || kw == "class"@ || kw == "def"@ || kw == "func"@ || kw == "struct"@
            || kw == "interface"@ || kw == "enum"@,
        blanks >= 1,
        trim_start_s(line).len() > kw.len() + blanks,
        trim_start_s(line).take(kw.len() as int) == kw,
        forall|i: int| kw.len() <= i < kw.len() + blanks ==> is_ws(#[trigger] trim_start_s(line)[i]),
        is_word(trim_start_s(line)[kw.len() + blanks]),
    ensures
        is_definition_line_s(line),
{
    let t = trim_start_s(line);
    let k = kw.len() as int;
    lemma_ws_run(t, k, k + blanks);
    assert(t.subrange(0, k) == kw);
    assert(occurs_at(t, kw, 0));
    assert(keyword_at(t, 0, kw));
    assert(starts_with_s(t, kw));
}

/// A line that, once its leading blanks are dropped, starts with a member
/// keyword (`fn`, `var`, `val`), then one or more blanks, then a name
/// character, is a definition line too.
pub proof fn law_members_are_definition_lines(line: Seq<char>, kw: Seq<char>, blanks: int)
    requires
        kw == "fn"@ || kw == "var"@ || kw == "val"@,
        blanks >= 1,
        trim_start_s(line).len() > kw.len() + blanks,
        trim_start_s(line).take(kw.len() as int) == kw,
        forall|i: int| kw.len() <= i < kw.len() + blanks ==> is_ws(#[trigger] trim_start_s(line)[i]),
        is_word(trim_start_s(line)[kw.len() + blanks]),
    ensures
        is_definition_line_s(line),
{
    let t = trim_start_s(line);
    let k = kw.len() as int;
    reveal_strlit("fn");
    reveal_strlit("var");
    reveal_strlit("val");
    reveal_strlit("public");
    reveal_strlit("private");
    reveal_strlit("protected");
    reveal_strlit("static");
    assert(t[0] == kw[0]);
    assert(!occurs_at(t, "public"@, 0) && !occurs_at(t, "private"@, 0) && !occurs_at(t, "protected"@, 0)) by {
        if occurs_at(t, "public"@, 0) {
            assert(t.subrange(0, 6)[0] == 'p');
        }
        if occurs_at(t, "private"@, 0) {
            assert(t.subrange(0, 7)[0] == 'p');
        }
        if occurs_at(t, "protected"@, 0) {
            assert(t.subrange(0, 9)[0] == 'p');
        }
    }
    assert(after_visibility(t, 0) == 0);
    assert(!is_ws(t[0]));
    assert(ws_end(t, 0) == 0);
    assert(!occurs_at(t, "static"@, 0)) by {
        if occurs_at(t, "static"@, 0) {
            assert(t.subrange(0, 6)[0] == 's');
        }
    }
    assert(member_keyword_pos(t) == 0);
    lemma_ws_run(t, k, k + blanks);
    assert(t.subrange(0, k) == kw);
    assert(occurs_at(t, kw, 0));
    assert(keyword_at(t, 0, kw));
    assert(starts_with_s(t, kw));
}

fn ws_end_exec(v: &[char], i: usize) -> (e: usize)
    requires
        i <= v.len(),
    ensures
        i <= e <= v.len(),
        e == ws_end(v@, i as int),
    decreases v.len() - i,
{
    if i < v.len() && is_ws_exec(v[i]) {
        ws_end_exec(v, i + 1)
    } else {
        i
    }
}

fn at(v: &[char], i: usize, w: &str) -> (r: bool)
    ensures
        r == occurs_at(v@, w@, i as int),
{
    let p = chars_of(w);
    crate::text::matches_at(v, i, &p)
}

fn keyword_at_exec(v: &[char], i: usize, kw: &str) -> (r: bool)
    ensures
        r == keyword_at(v@, i as int, kw@),
{
    let p = chars_of(kw);
    if !crate::text::matches_at(v, i, &p) {
        return false;
    }
    if p.len() > v.len() || i > v.len() - p.len() {
        return false;
    }
    let j = i + p.len();
    let e = ws_end_exec(v, j);
    e > j && e < v.len() && is_word_exec(v[e])
}

fn member_keyword_pos_exec(v: &[char]) -> (k: usize)
    ensures
        k <= v.len(),
        k == member_keyword_pos(v@),
{
    proof {
        reveal_strlit("public");
        reveal_strlit("private");
        reveal_strlit("protected");
        reveal_strlit("static");
    }
    let a: usize = if at(v, 0, "public") {
        6
    } else if at(v, 0, "private") {
        7
    } else if at(v, 0, "protected") {
        9
    } else {
        0
    };
    let b = ws_end_exec(v, a);
    if at(v, b, "static") {
        ws_end_exec(v, b + 6)
    } else {
        b
    }
}

/// Whether a line is kept in a skeleton.
pub fn is_definition_line(line: &[char]) -> (r: bool)
    ensures
        r == is_definition_line_s(line@),
{
    let s = crate::text::skip_ws_forward(line, 0, line.len());
    assert(line@.subrange(0, line.len() as int) == line@);
    let t = crate::z4::slice_chars(line, s, line.len());
    if t.len() == 0 {
        return false;
    }
    if contains_todo_fixme(&t) {
        return true;
    }
    let w = at(&t, 0, "function") || at(&t, 0, "class") || at(&t, 0, "def") || at(&t, 0, "func")
        || at(&t, 0, "struct") || at(&t, 0, "interface") || at(&t, 0, "enum") || at(&t, 0, "public")
        || at(&t, 0, "private") || at(&t, 0, "protected") || at(&t, 0, "static") || at(&t, 0, "fn")
        || at(&t, 0, "var") || at(&t, 0, "val");
    if !w {
        return false;
    }
    let d = keyword_at_exec(&t, 0, "function") || keyword_at_exec(&t, 0, "class") || keyword_at_exec(
        &t,
        0,
        "def",
    ) || keyword_at_exec(&t, 0, "func") || keyword_at_exec(&t, 0, "struct") || keyword_at_exec(
        &t,
        0,
        "interface",
    ) || keyword_at_exec(&t, 0, "enum");
    if d {
        return true;
    }
    let k = member_keyword_pos_exec(&t);
    keyword_at_exec(&t, k, "fn") || keyword_at_exec(&t, k, "var") || keyword_at_exec(&t, k, "val")
        || keyword_at_exec(&t, k, "func")
}

// ───────────────────────── skeletons ─────────────────────────

/// Whether one of the first five non-blank lines from `i` on (`seen` of them
/// already looked at) is longer than 2000 bytes.
pub open spec fn minified_from(ls: Seq<Seq<char>>, i: int, seen: nat) -> bool
    decreases ls.len() - i,
{
    if i < 0 || i >= ls.len() || seen >= 5 {
        false
    } else if trim_s(ls[i]).len() == 0 {
        minified_from(ls, i + 1, seen)
    } else {
        byte_len(ls[i]) > 2000 || minified_from(ls, i + 1, seen + 1)
    }
}

/// The skeleton lines from line `i` on: each definition line trimmed, with
/// `...` where lines were skipped between two kept ones, and a final `...`
/// once 600 lines are kept and more follow.
pub open spec fn skeleton_from(ls: Seq<Seq<char>>, i: int, last: Option<int>, kept: nat) -> Seq<char>
    decreases ls.len() - i,
{
    if i < 0 || i >= ls.len() {
        seq![]
    } else if kept >= 600 {
        "...\n"@
    } else if !is_definition_line_s(ls[i]) {
        skeleton_from(ls, i + 1, last, kept)
    } else {
        (if last matches Some(p) && i > p + 1 {
            "...\n"@
        } else {
            seq![]
        }) + trim_s(ls[i]) + "\n"@ + skeleton_from(ls, i + 1, Some(i), kept + 1)
    }
}

/// The first `n` lines, each trimmed, joined by line feeds.
pub open spec fn head_lines(ls: Seq<Seq<char>>, n: int) -> Seq<char>
    decreases n,
{
    if n <= 0 {
        seq![]
    } else if n == 1 {
        trim_s(ls[0])
    } else {
        head_lines(ls, n - 1) + "\n"@ + trim_s(ls[n - 1])
    }
}

/// The skeleton of a source in a language without a dedicated parser.
pub open spec fn universal_skeleton_s(s: Seq<char>) -> Seq<char> {
    let ls = lines_s(s);
    if minified_from(ls, 0, 0) {
        "/* MINIFIED_OR_GENERATED — skipped */\n"@
    } else {
        let out = skeleton_from(ls, 0, None, 0);
        if trim_s(out).len() == 0 {
            "/* TRUNCATED */\n"@ + head_lines(ls, if ls.len() < 50 { ls.len() as int } else { 50 })
                + "\n"@
        } else {
            out
        }
    }
}

/// The definition lines among lines `j..i`.
pub open spec fn defs_between(ls: Seq<Seq<char>>, j: int, i: int) -> nat
    decreases i - j,
{
    if j >= i {
        0
    } else {
        (if is_definition_line_s(ls[j]) { 1nat } else { 0nat }) + defs_between(ls, j + 1, i)
    }
}

proof fn lemma_contains_middle(x: Seq<char>, p: Seq<char>, y: Seq<char>)
    ensures
        contains_s(x + p + y, p),
{
    let r = x + p + y;
    assert(r.subrange(x.len() as int, x.len() as int + p.len()) =~= p);
    assert(occurs_at(r, p, x.len() as int));
}

proof fn lemma_contains_after(x: Seq<char>, y: Seq<char>, p: Seq<char>)
    requires
        contains_s(y, p),
    ensures
        contains_s(x + y, p),
{
    let i = choose|i: int| occurs_at(y, p, i);
    assert((x + y).subrange(x.len() + i, x.len() + i + p.len()) =~= y.subrange(i, i + p.len()));
    assert(occurs_at(x + y, p, x.len() + i));
}

proof fn lemma_kept_from(ls: Seq<Seq<char>>, j: int, last: Option<int>, kept: nat, i: int)
    requires
        0 <= j <= i < ls.len(),
        is_definition_line_s(ls[i]),
        kept + defs_between(ls, j, i) < 600,
    ensures
        contains_s(skeleton_from(ls, j, last, kept), trim_s(ls[i]) + "\n"@),
    decreases i - j,
{
    let gap: Seq<char> = if last matches Some(p) && j > p + 1 { "...\n"@ } else { seq![] };
    if j == i {
        let rest = skeleton_from(ls, i + 1, Some(i), kept + 1);
        assert(skeleton_from(ls, j, last, kept) == gap + (trim_s(ls[i]) + "\n"@) + rest);
        lemma_contains_middle(gap, trim_s(ls[i]) + "\n"@, rest);
    } else if !is_definition_line_s(ls[j]) {
        lemma_kept_from(ls, j + 1, last, kept, i);
    } else {
        lemma_kept_from(ls, j + 1, Some(j), kept + 1, i);
        let sub = skeleton_from(ls, j + 1, Some(j), kept + 1);
        assert(skeleton_from(ls, j, last, kept) == (gap + trim_s(ls[j]) + "\n"@) + sub);
        lemma_contains_after(gap + trim_s(ls[j]) + "\n"@, sub, trim_s(ls[i]) + "\n"@);
    }
}

proof fn lemma_trim_start_keeps(x: Seq<char>, j: int) -> (k: int)
    requires
        0 <= j < x.len(),
        !is_ws(x[j]),
    ensures
        0 <= k < trim_start_s(x).len(),
        !is_ws(trim_start_s(x)[k]),
    decreases x.len(),
{
    if is_ws(x[0]) {
        assert(j > 0);
        assert(x.drop_first()[j - 1] == x[j]);
        lemma_trim_start_keeps(x.drop_first(), j - 1)
    } else {
        j
    }
}

proof fn lemma_trim_end_keeps(y: Seq<char>, j: int)
    requires
        0 <= j < y.len(),
        !is_ws(y[j]),
    ensures
        trim_end_s(y).len() > 0,
    decreases y.len(),
{
    if is_ws(y.last()) {
        assert(j < y.len() - 1);
        assert(y.drop_last()[j] == y[j]);
        lemma_trim_end_keeps(y.drop_last(), j);
    }
}

/// A text with a non-blank character does not trim to nothing.
proof fn lemma_nonblank_trims_nonempty(x: Seq<char>, j: int)
    requires
        0 <= j < x.len(),
        !is_ws(x[j]),
    ensures
        trim_s(x).len() > 0,
{
    let k = lemma_trim_start_keeps(x, j);
    lemma_trim_end_keeps(trim_start_s(x), k);
}

/// Every definition line of a source that is not minified is kept, trimmed
/// and on a line of its own, in its universal skeleton, as long as fewer
/// than 600 definition lines come before it.
pub proof fn law_definition_lines_are_kept(s: Seq<char>, i: int)
    requires
        0 <= i < lines_s(s).len(),
        is_definition_line_s(lines_s(s)[i]),
        defs_between(lines_s(s), 0, i) < 600,
        !minified_from(lines_s(s), 0, 0),
    ensures
        contains_s(universal_skeleton_s(s), trim_s(lines_s(s)[i]) + "\n"@),
{
    let ls = lines_s(s);
    let p = trim_s(ls[i]) + "\n"@;
    lemma_kept_from(ls, 0, None, 0, i);
    let out = skeleton_from(ls, 0, None, 0);
    let t = trim_start_s(ls[i]);
    assert(t.len() > 0);
    crate::text::lemma_trim_start_shape(ls[i]);
    lemma_trim_end_keeps(t, 0);
    crate::text::lemma_trim_shape(ls[i]);
    assert(!is_ws(trim_s(ls[i])[0]));
    let q = choose|q: int| occurs_at(out, p, q);
    assert(out.subrange(q, q + p.len())[0] == out[q]);
    assert(p[0] == trim_s(ls[i])[0]);
    lemma_nonblank_trims_nonempty(out, q);
}

fn is_minified(ls: &Vec<Vec<char>>, Ghost(s): Ghost<Seq<char>>) -> (r: bool)
    requires
        byte_len(s) <= usize::MAX,
        forall|k: int| 0 <= k < ls.len() ==> byte_len(#[trigger] ls@[k]@) <= byte_len(s),
    ensures
        r == minified_from(vecs_view(ls@), 0, 0),
{
    let ghost lv = vecs_view(ls@);
    let mut i: usize = 0;
    let mut seen: usize = 0;
    while i < ls.len() && seen < 5
        invariant
            i <= ls.len(),
            seen <= 5,
            lv == vecs_view(ls@),
            byte_len(s) <= usize::MAX,
            forall|k: int| 0 <= k < ls.len() ==> byte_len(#[trigger] ls@[k]@) <= byte_len(s),
            minified_from(lv, 0, 0) == minified_from(lv, i as int, seen as nat),
        decreases ls.len() - i,
    {
        let line = &ls[i];
        assert(lv[i as int] == line@);
        let (a, b) = crate::text::trim_bounds(line.as_slice(), 0, line.len());
        assert(line@.subrange(0, line.len() as int) == line@);
        if a == b {
            i += 1;
        } else {
            let n = byte_len_of(line.as_slice());
            if n > 2000 {
                return true;
            }
            i += 1;
            seen += 1;
        }
    }
    false
}

/// Renders the skeleton of a source in a language without a dedicated parser.
pub fn render_universal_skeleton(source_text: &str) -> (r: String)
    requires
        byte_len(source_text@) <= usize::MAX,
    ensures
        r@ == universal_skeleton_s(source_text@),
{
    let v = chars_of(source_text);
    let ls = crate::act::lines_of(&v);
    let ghost lv = vecs_view(ls@);
    assert(lv =~= lines_s(source_text@));
    proof {
        assert forall|k: int| 0 <= k < ls.len() implies byte_len(#[trigger] ls@[k]@) <= byte_len(
            source_text@,
        ) by {
            crate::skeleton::lemma_line_bytes(source_text@, k);
        }
    }
    if is_minified(&ls, Ghost(source_text@)) {
        return String::from_str("/* MINIFIED_OR_GENERATED — skipped */\n");
    }
    let mut out = String::new();
    let mut last: Option<usize> = None;
    let mut kept: usize = 0;
    let mut i: usize = 0;
    let mut stopped = false;
    while i < ls.len() && !stopped
        invariant
            i <= ls.len(),
            lv == vecs_view(ls@),
            kept <= 600,
            last matches Some(p) ==> p < i,
            !stopped ==> out@ + skeleton_from(lv, i as int, match last {
                Some(p) => Some(p as int),
                None => None,
            }, kept as nat) == skeleton_from(lv, 0, None, 0),
            stopped ==> out@ == skeleton_from(lv, 0, None, 0),
        decreases ls.len() - i, (if stopped { 0int } else { 1int }),
    {
        let line = &ls[i];
        assert(lv[i as int] == line@);
        if kept >= 600 {
            push_str(&mut out, "...\n");
            stopped = true;
        } else if is_definition_line(line.as_slice()) {
            if let Some(p) = last {
                if i > p + 1 {
                    push_str(&mut out, "...\n");
                }
            }
            let t = crate::text::trim_bounds(line.as_slice(), 0, line.len());
            assert(line@.subrange(0, line.len() as int) == line@);
            let piece = crate::z4::slice_chars(line.as_slice(), t.0, t.1);
            push_chars(&mut out, piece.as_slice());
            push_str(&mut out, "\n");
            last = Some(i);
            kept += 1;
            i += 1;
        } else {
            i += 1;
        }
    }
    let ot = crate::text::trim_string(out.as_str());
    if chars_of(ot.as_str()).len() > 0 {
        return out;
    }
    let mut head = String::from_str("/* TRUNCATED */\n");
    let n = if ls.len() < 50 {
        ls.len()
    } else {
        50
    };
    let ghost h0 = head@;
    let mut k: usize = 0;
    while k < n
        invariant
            k <= n <= ls.len(),
            lv == vecs_view(ls@),
            head@ == h0 + head_lines(lv, k as int),
        decreases n - k,
    {
        if k > 0 {
            push_str(&mut head, "\n");
        }
        let line = &ls[k];
        assert(lv[k as int] == line@);
        let t = crate::text::trim_bounds(line.as_slice(), 0, line.len());
        assert(line@.subrange(0, line.len() as int) == line@);
        let piece = crate::z4::slice_chars(line.as_slice(), t.0, t.1);
        push_chars(&mut head, piece.as_slice());
        k += 1;
    }
    push_str(&mut head, "\n");
    head
}

/// A line of `s` is no longer, in bytes, than `s`.
pub proof fn lemma_line_bytes(s: Seq<char>, k: int)
    requires
        0 <= k < lines_s(s).len(),
    ensures
        byte_len(lines_s(s)[k]) <= byte_len(s),
{
    lemma_lines_from_bytes(s, 0, k);
}

proof fn lemma_lines_from_bytes(s: Seq<char>, i: int, k: int)
    requires
        0 <= k < crate::z4::lines_from(s, i).len(),
    ensures
        byte_len(crate::z4::lines_from(s, i)[k]) <= byte_len(s),
    decreases s.len() + 1 - i,
{
    let e = crate::z4::next_nl(s, i);
    crate::z4::lemma_next_nl(s, i);
    assert(0 <= i < s.len());
    if k == 0 {
        if e < s.len() && e > i && s[e - 1] == '\r' {
            crate::editor::lemma_byte_len_sub(s, i, e - 1);
        } else {
            crate::editor::lemma_byte_len_sub(s, i, e);
        }
    } else {
        lemma_lines_from_bytes(s, e + 1, k - 1);
    }
}

// ───────────────────────── project skeletons ─────────────────────────

/// A symbol found in a file by a language parser.
pub struct SymbolSpan {
    pub name: String,
    pub kind: String,
    pub signature: Option<String>,
    /// The symbol's source text, when its span lies inside the file.
    pub body: Option<String>,
}

/// The functions and the types of one file, as listed in a project skeleton.
pub struct FileSkeleton {
    pub fns: Vec<String>,
    pub structs: Vec<String>,
}

/// The text a symbol's tags are judged on: its body, else its signature,
/// else its name.
pub open spec fn symbol_text(s: SymbolSpan) -> Seq<char> {
    match s.body {
        Some(b) => b@,
        None => match s.signature {
            Some(g) => g@,
            None => s.name@,
        },
    }
}

/// The symbol is left unfinished.
pub open spec fn incomplete_s(t: Seq<char>) -> bool {
    contains_s(t, "todo!()"@) || contains_s(t, "todo! ()"@) || contains_s(t, "unimplemented!()"@)
        || contains_s(t, "// TODO"@) || contains_s(t, "pass"@)
}

/// The symbol stands in for something else (by its file or its name).
pub open spec fn mock_s(rel_lower: Seq<char>, name_lower: Seq<char>) -> bool {
    contains_s(rel_lower, "mock"@) || contains_s(rel_lower, "stub"@) || contains_s(rel_lower, "test_helper"@)
        || contains_s(name_lower, "mock"@) || contains_s(name_lower, "stub"@)
}

/// The tags appended to a symbol: ` <INCOMPLETE,MOCK>`, one of them, or none.
pub open spec fn tag_suffix_s(incomplete: bool, mock: bool) -> Seq<char> {
    if incomplete && mock {
        " <INCOMPLETE,MOCK>"@
    } else if incomplete {
        " <INCOMPLETE>"@
    } else if mock {
        " <MOCK>"@
    } else {
        seq![]
    }
}

/// How a function is shown: its trimmed signature, else its name.
pub open spec fn display_s(s: SymbolSpan) -> Seq<char> {
    match s.signature {
        Some(g) => if trim_s(g@).len() > 0 { trim_s(g@) } else { s.name@ },
        None => s.name@,
    }
}

pub open spec fn is_fn_kind(k: Seq<char>) -> bool {
    k == "function"@ || k == "method"@
}

pub open spec fn is_type_kind(k: Seq<char>) -> bool {
    k == "struct"@ || k == "class"@ || k == "interface"@ || k == "enum"@ || k == "trait"@ || k == "type"@
}

/// The tags of symbol `s` in the file at `rel`.
pub open spec fn symbol_tags(rel: Seq<char>, s: SymbolSpan) -> Seq<char> {
    tag_suffix_s(incomplete_s(symbol_text(s)), mock_s(crate::slicer::lowercase(rel), crate::slicer::lowercase(s.name@)))
}

/// The function entries of the first `n` symbols.
pub open spec fn fn_entries(rel: Seq<char>, syms: Seq<SymbolSpan>, n: int) -> Seq<Seq<char>>
    decreases n,
{
    if n <= 0 {
        seq![]
    } else if is_fn_kind(syms[n - 1].kind@) {
        fn_entries(rel, syms, n - 1).push(display_s(syms[n - 1]) + symbol_tags(rel, syms[n - 1]))
    } else {
        fn_entries(rel, syms, n - 1)
    }
}

/// The type entries of the first `n` symbols.
pub open spec fn type_entries(rel: Seq<char>, syms: Seq<SymbolSpan>, n: int) -> Seq<Seq<char>>
    decreases n,
{
    if n <= 0 {
        seq![]
    } else if is_type_kind(syms[n - 1].kind@) {
        type_entries(rel, syms, n - 1).push(syms[n - 1].name@ + symbol_tags(rel, syms[n - 1]))
    } else {
        type_entries(rel, syms, n - 1)
    }
}

fn has(t: &Vec<char>, lit: &str) -> (r: bool)
    ensures
        r == contains_s(t@, lit@),
{
    contains(t, &chars_of(lit))
}

fn is_lit(s: &str, lit: &str) -> (r: bool)
    ensures
        r == (s@ == lit@),
{
    crate::text::chars_eq(&chars_of(s), &chars_of(lit))
}

fn tags_of(rel_lower: &Vec<char>, s: &SymbolSpan) -> (r: String)
    ensures
        r@ == tag_suffix_s(incomplete_s(symbol_text(*s)), mock_s(rel_lower@, crate::slicer::lowercase(s.name@))),
{
    let text = match &s.body {
        Some(b) => chars_of(b.as_str()),
        None => match &s.signature {
            Some(g) => chars_of(g.as_str()),
            None => chars_of(s.name.as_str()),
        },
    };
    let inc = has(&text, "todo!()") || has(&text, "todo! ()") || has(&text, "unimplemented!()")
        || has(&text, "// TODO") || has(&text, "pass");
    let nl = chars_of(crate::slicer::to_lowercase(s.name.as_str()).as_str());
    let mock = has(rel_lower, "mock") || has(rel_lower, "stub") || has(rel_lower, "test_helper")
        || has(&nl, "mock") || has(&nl, "stub");
    if inc && mock {
        String::from_str(" <INCOMPLETE,MOCK>")
    } else if inc {
        String::from_str(" <INCOMPLETE>")
    } else if mock {
        String::from_str(" <MOCK>")
    } else {
        String::new()
    }
}

/// The skeleton of the file at `rel` from its symbols: each function or
/// method shown by its trimmed signature (else its name), each type by its
/// name, both with their tags (`INCOMPLETE` for unfinished bodies, `MOCK`
/// for stand-ins); other symbols are left out.
pub fn file_skeleton(rel: &str, symbols: &Vec<SymbolSpan>) -> (r: FileSkeleton)
    ensures
        r.fns@.map_values(|x: String| x@) == fn_entries(rel@, symbols@, symbols.len() as int),
        r.structs@.map_values(|x: String| x@) == type_entries(rel@, symbols@, symbols.len() as int),
{
    let rl = chars_of(crate::slicer::to_lowercase(rel).as_str());
    let mut fns: Vec<String> = Vec::new();
    let mut structs: Vec<String> = Vec::new();
    let mut i: usize = 0;
    while i < symbols.len()
        invariant
            i <= symbols.len(),
            rl@ == crate::slicer::lowercase(rel@),
            fns@.map_values(|x: String| x@) == fn_entries(rel@, symbols@, i as int),
            structs@.map_values(|x: String| x@) == type_entries(rel@, symbols@, i as int),
        decreases symbols.len() - i,
    {
        let s = &symbols[i];
        let k = s.kind.as_str();
        proof {
            reveal_strlit("function");
            reveal_strlit("method");
            reveal_strlit("struct");
            reveal_strlit("class");
            reveal_strlit("interface");
            reveal_strlit("enum");
            reveal_strlit("trait");
            reveal_strlit("type");
        }
        if is_lit(k, "function") || is_lit(k, "method") {
            assert(k@[0] == 'f' || k@[0] == 'm');
            assert(!is_type_kind(k@)) by {
                if is_type_kind(k@) {
                    assert(k@[0] == 's' || k@[0] == 'c' || k@[0] == 'i' || k@[0] == 'e' || k@[0] == 't');
                }
            }
            let mut e = match &s.signature {
                Some(g) => {
                    let t = crate::text::trim_string(g.as_str());
                    if chars_of(t.as_str()).len() > 0 { t } else { s.name.clone() }
                },
                None => s.name.clone(),
            };
            let tg = tags_of(&rl, s);
            push_str(&mut e, tg.as_str());
            let ghost before = fns@.map_values(|x: String| x@);
            fns.push(e);
            assert(fns@.map_values(|x: String| x@) == before.push(display_s(symbols@[i as int]) + symbol_tags(rel@, symbols@[i as int])));
        } else if is_lit(k, "struct") || is_lit(k, "class") || is_lit(k, "interface") || is_lit(k, "enum")
            || is_lit(k, "trait") || is_lit(k, "type") {
            let mut e = s.name.clone();
            let tg = tags_of(&rl, s);
            push_str(&mut e, tg.as_str());
            let ghost before = structs@.map_values(|x: String| x@);
            structs.push(e);
            assert(structs@.map_values(|x: String| x@) == before.push(symbols@[i as int].name@ + symbol_tags(rel@, symbols@[i as int])));
        }
        i += 1;
    }
    FileSkeleton { fns, structs }
}

/// The cap on files of a project skeleton: as asked, at most 500; 200 when not asked.
pub fn skeleton_max_files(asked: Option<u64>) -> (r: usize)
    ensures
        r == match asked {
            Some(n) => if (n as usize) < 500 { n as usize } else { 500 },
            None => 200,
        },
{
    match asked {
        Some(n) => {
            let m = n as usize;
            if m < 500 { m } else { 500 }
        },
        None => 200,
    }
}

/// `s` without its leading dots (`str::trim_start_matches('.')`).
pub open spec fn strip_dots(s: Seq<char>) -> Seq<char>
    decreases s.len(),
{
    if s.len() > 0 && s[0] == '.' {
        strip_dots(s.drop_first())
    } else {
        s
    }
}

/// The extensions a list of JSON items asks for: each string item without
/// its leading dots, lower-cased; other items are skipped.
pub open spec fn ext_filter_of(items: Seq<Seq<char>>) -> Seq<Seq<char>>
    decreases items.len(),
{
    if items.len() == 0 {
        seq![]
    } else {
        let rest = ext_filter_of(items.drop_last());
        match json_str(items.last()) {
            Some(e) => rest.push(lowercase(strip_dots(e))),
            None => rest,
        }
    }
}

/// The extensions the arguments of a skeleton request (JSON text) ask for:
/// from their `extensions` array; none when it is missing.
pub open spec fn skeleton_extensions_s(args: Seq<char>) -> Seq<Seq<char>> {
    match member_s(args, "extensions"@) {
        Some(t) => match json_items(t) {
            Some(items) => ext_filter_of(items),
            None => seq![],
        },
        None => seq![],
    }
}

/// The whole number `max_files` of a skeleton request's arguments, if any.
pub open spec fn skeleton_asked_s(args: Seq<char>) -> Option<u64> {
    match member_s(args, "max_files"@) {
        Some(v) => json_u64(v),
        None => None,
    }
}

/// The extensions a project skeleton takes when none are asked for.
pub open spec fn supported_extensions() -> Seq<Seq<char>> {
    seq![
        "rs"@, "ts"@, "tsx"@, "js"@, "jsx"@, "py"@, "go"@, "java"@, "cs"@, "cpp"@, "c"@, "h"@,
        "hpp"@, "rb"@, "php"@, "dart"@, "swift"@, "kt"@,
    ]
}

/// Whether a project skeleton takes a file with extension `ext` (none when
/// the file has none): its lower-cased extension is among those asked for,
/// or among the supported ones when none are asked for.
pub open spec fn keeps_extension_s(ext: Option<Seq<char>>, filter: Seq<Seq<char>>) -> bool {
    let e = match ext {
        Some(x) => lowercase(x),
        None => ""@,
    };
    if filter.len() == 0 {
        supported_extensions().contains(e)
    } else {
        filter.contains(e)
    }
}

fn without_dots(s: &str) -> (r: String)
    ensures
        r@ == strip_dots(s@),
{
    let v = chars_of(s);
    let mut i: usize = 0;
    assert(v@.skip(0) == v@);
    while i < v.len() && v[i] == '.'
        invariant
            i <= v.len(),
            strip_dots(v@) == strip_dots(v@.skip(i as int)),
        decreases v.len() - i,
    {
        assert(v@.skip(i as int).drop_first() == v@.skip(i + 1));
        i += 1;
    }
    assert(v@.subrange(i as int, v.len() as int) == v@.skip(i as int));
    crate::text::string_of_range(&v, i, v.len())
}

/// The extensions the arguments of a skeleton request (JSON text) ask for:
/// the string items of its `extensions` array, each without leading dots
/// and lower-cased.
pub fn skeleton_extensions(args: &str) -> (r: Vec<String>)
    ensures
        r@.map_values(|s: String| s@) == skeleton_extensions_s(args@),
{
    let items: Vec<String> = match member(args, "extensions") {
        Some(t) => match items_of(t.as_str()) {
            Some(items) => items,
            None => Vec::new(),
        },
        None => Vec::new(),
    };
    let ghost iv = items@.map_values(|s: String| s@);
    let mut out: Vec<String> = Vec::new();
    let mut i: usize = 0;
    while i < items.len()
        invariant
            i <= items.len(),
            iv == items@.map_values(|s: String| s@),
            out@.map_values(|s: String| s@) == ext_filter_of(iv.take(i as int)),
        decreases items.len() - i,
    {
        assert(iv.take(i + 1).drop_last() == iv.take(i as int));
        assert(iv.take(i + 1).last() == items@[i as int]@);
        let ghost before = out@.map_values(|s: String| s@);
        if let Some(e) = string_of_json(items[i].as_str()) {
            let d = without_dots(e.as_str());
            let l = to_lowercase(d.as_str());
            out.push(l);
            assert(out@.map_values(|s: String| s@) == before.push(lowercase(strip_dots(e@))));
        }
        i += 1;
    }
    assert(iv.take(items.len() as int) == iv);
    out
}

/// The cap on files a skeleton request's arguments (JSON text) ask for.
pub fn skeleton_max_files_of(args: &str) -> (r: usize)
    ensures
        r == match skeleton_asked_s(args@) {
            Some(n) => if (n as usize) < 500 { n as usize } else { 500 },
            None => 200,
        },
{
    let asked = match member(args, "max_files") {
        Some(v) => u64_of_json(v.as_str()),
        None => None,
    };
    skeleton_max_files(asked)
}

fn contains_text(items: &Vec<String>, t: &str) -> (r: bool)
    ensures
        r == items@.map_values(|s: String| s@).contains(t@),
{
    let ghost iv = items@.map_values(|s: String| s@);
    let tv = chars_of(t);
    let mut i: usize = 0;
    while i < items.len()
        invariant
            i <= items.len(),
            iv == items@.map_values(|s: String| s@),
            tv@ == t@,
            forall|j: int| 0 <= j < i ==> iv[j] != t@,
        decreases items.len() - i,
    {
        let v = chars_of(items[i].as_str());
        if crate::text::chars_eq(&v, &tv) {
            assert(iv[i as int] == t@);
            return true;
        }
        i += 1;
    }
    false
}

/// Whether a project skeleton takes a file with extension `ext`: its
/// lower-cased extension is in `filter`, or, when `filter` is empty, among
/// the supported extensions.
pub fn keeps_extension(ext: Option<&str>, filter: &Vec<String>) -> (r: bool)
    ensures
        r == keeps_extension_s(str_opt(ext), filter@.map_values(|s: String| s@)),
{
    let e = match ext {
        Some(x) => to_lowercase(x),
        None => String::from_str(""),
    };
    if filter.len() > 0 {
        return contains_text(filter, e.as_str());
    }
    let names: [&str; 18] = [
        "rs", "ts", "tsx", "js", "jsx", "py", "go", "java", "cs", "cpp", "c", "h", "hpp", "rb", "php",
        "dart", "swift", "kt",
    ];
    let mut supported: Vec<String> = Vec::new();
    let mut i: usize = 0;
    assert(names@.map_values(|n: &str| n@) =~= supported_extensions());
    while i < 18
        invariant
            i <= 18,
            names@.map_values(|n: &str| n@) == supported_extensions(),
            supported@.map_values(|s: String| s@) == supported_extensions().take(i as int),
        decreases 18 - i,
    {
        let ghost before = supported@.map_values(|s: String| s@);
        supported.push(String::from_str(names[i]));
        assert(names@.map_values(|n: &str| n@)[i as int] == names[i as int]@);
        assert(supported@.map_values(|s: String| s@) == before.push(names@[i as int]@));
        assert(supported_extensions().take(i + 1) == supported_extensions().take(i as int).push(
            supported_extensions()[i as int],
        ));
        i += 1;
    }
    assert(supported_extensions().take(18) == supported_extensions());
    contains_text(&supported, e.as_str())
}

/// A file of a project skeleton as plain values: path, functions, types.
pub open spec fn skel_file_v(f: (String, FileSkeleton)) -> (Seq<char>, Seq<Seq<char>>, Seq<Seq<char>>) {
    (f.0@, f.1.fns@.map_values(|x: String| x@), f.1.structs@.map_values(|x: String| x@))
}

/// The lines of one file in a project skeleton.
pub open spec fn skel_block(f: (Seq<char>, Seq<Seq<char>>, Seq<Seq<char>>)) -> Seq<char> {
    f.0 + ":\n"@ + (if f.1.len() > 0 {
        "  fn: ["@ + crate::text::joined(f.1, ", "@) + "]\n"@
    } else {
        seq![]
    }) + (if f.2.len() > 0 {
        "  struct: ["@ + crate::text::joined(f.2, ", "@) + "]\n"@
    } else {
        seq![]
    })
}

/// Position `j` of the sorted order is the last of its path (a later file
/// of the same path replaces an earlier one).
pub open spec fn last_of_path(fs: Seq<(Seq<char>, Seq<Seq<char>>, Seq<Seq<char>>)>, p: Seq<usize>, j: int) -> bool {
    j == p.len() - 1 || fs[p[j + 1] as int].0 != fs[p[j] as int].0
}

/// The blocks of the first `n` positions of the sorted order.
pub open spec fn skel_body(fs: Seq<(Seq<char>, Seq<Seq<char>>, Seq<Seq<char>>)>, p: Seq<usize>, n: int) -> Seq<char>
    decreases n,
{
    if n <= 0 {
        seq![]
    } else {
        skel_body(fs, p, n - 1) + if last_of_path(fs, p, n - 1) { skel_block(fs[p[n - 1] as int]) } else { seq![] }
    }
}

/// The skeleton text before the line cap.
pub open spec fn skel_raw(root: Seq<char>, fs: Seq<(Seq<char>, Seq<Seq<char>>, Seq<Seq<char>>)>, p: Seq<usize>, cap: nat) -> Seq<char> {
    "# Project Skeleton — `"@ + root + "`\n# Files: "@ + dec_s(fs.len()) + "  (cap: "@ + dec_s(cap) + ")\n\n"@
        + skel_body(fs, p, p.len() as int)
}

/// A project skeleton: the files in path order (the last given for a path
/// standing), under a header; at most 2000 lines, with a note of the total
/// when cut; a note when there are no files.
pub open spec fn skeleton_text_s(root: Seq<char>, fs: Seq<(Seq<char>, Seq<Seq<char>>, Seq<Seq<char>>)>, p: Seq<usize>, cap: nat) -> Seq<char> {
    if fs.len() == 0 {
        "*No supported source files found in `"@ + root + "`.*"@
    } else {
        let raw = skel_raw(root, fs, p, cap);
        let ls = lines_s(raw);
        if ls.len() > 2000 {
            crate::text::joined(ls.take(2000), "\n"@) + "\n# ... (truncated at 2000 lines / "@ + dec_s(ls.len())
                + " total)"@
        } else {
            raw
        }
    }
}

fn push_joined(out: &mut String, parts: &Vec<String>, sep: &str)
    ensures
        final(out)@ == old(out)@ + crate::text::joined(parts@.map_values(|x: String| x@), sep@),
{
    let j = crate::store::join_strings(parts, sep);
    push_str(out, j.as_str());
}

fn push_block(out: &mut String, f: &(String, FileSkeleton))
    ensures
        final(out)@ == old(out)@ + skel_block(skel_file_v(*f)),
{
    push_str(out, f.0.as_str());
    push_str(out, ":\n");
    if f.1.fns.len() > 0 {
        push_str(out, "  fn: [");
        push_joined(out, &f.1.fns, ", ");
        push_str(out, "]\n");
    }
    if f.1.structs.len() > 0 {
        push_str(out, "  struct: [");
        push_joined(out, &f.1.structs, ", ");
        push_str(out, "]\n");
    }
}

/// The project skeleton of `root` from the skeletons of its files (path,
/// skeleton), given in the order they were found, under the cap `cap`.
pub fn project_skeleton_text(root: &str, files: &Vec<(String, FileSkeleton)>, cap: usize) -> (r: String)
    ensures
        exists|p: Seq<usize>|
            #![trigger crate::sort::is_perm(p, files.len() as nat)]
            crate::sort::is_perm(p, files.len() as nat) && crate::sort::orders(
                p,
                files@.map_values(|f: (String, FileSkeleton)| f.0@),
            ) && crate::sort::stable(p, files@.map_values(|f: (String, FileSkeleton)| f.0@))
                && r@ == skeleton_text_s(
                root@,
                files@.map_values(|f: (String, FileSkeleton)| skel_file_v(f)),
                p,
                cap as nat,
            ),
{
    let ghost fs = files@.map_values(|f: (String, FileSkeleton)| skel_file_v(f));
    let ghost ks = files@.map_values(|f: (String, FileSkeleton)| f.0@);
    let mut keys: Vec<Vec<char>> = Vec::new();
    let mut k: usize = 0;
    while k < files.len()
        invariant
            k <= files.len(),
            keys.len() == k,
            forall|j: int| 0 <= j < k ==> (#[trigger] keys@[j])@ == files@[j].0@,
        decreases files.len() - k,
    {
        keys.push(chars_of(files[k].0.as_str()));
        k += 1;
    }
    assert(keys@.map_values(|v: Vec<char>| v@) =~= ks);
    let p = crate::sort::sort_perm(&keys);
    if files.len() == 0 {
        let mut m = String::from_str("*No supported source files found in `");
        push_str(&mut m, root);
        push_str(&mut m, "`.*");
        assert(crate::sort::is_perm(p@, files.len() as nat));
        return m;
    }
    let mut out = String::from_str("# Project Skeleton — `");
    push_str(&mut out, root);
    push_str(&mut out, "`\n# Files: ");
    push_dec(&mut out, files.len() as u64);
    push_str(&mut out, "  (cap: ");
    push_dec(&mut out, cap as u64);
    push_str(&mut out, ")\n\n");
    let ghost head = out@;
    let mut j: usize = 0;
    while j < p.len()
        invariant
            j <= p.len() == files.len() == keys.len(),
            crate::sort::is_perm(p@, files.len() as nat),
            forall|q: int| 0 <= q < keys.len() ==> (#[trigger] keys@[q])@ == files@[q].0@,
            fs == files@.map_values(|f: (String, FileSkeleton)| skel_file_v(f)),
            out@ == head + skel_body(fs, p@, j as int),
        decreases p.len() - j,
    {
        let x = p[j];
        let last = j + 1 == p.len() || !crate::text::chars_eq(&keys[p[j + 1]], &keys[x]);
        proof {
            if j + 1 < p.len() {
                assert(keys@[p@[j + 1] as int]@ == fs[p@[j + 1] as int].0);
            }
            assert(keys@[x as int]@ == fs[x as int].0);
        }
        if last {
            push_block(&mut out, &files[x]);
        }
        proof {
            assert(skel_body(fs, p@, j + 1) == skel_body(fs, p@, j as int) + if last_of_path(fs, p@, j as int) {
                skel_block(fs[p@[j as int] as int])
            } else {
                seq![]
            });
        }
        j += 1;
    }
    let ghost raw = out@;
    assert(raw == skel_raw(root@, fs, p@, cap as nat));
    let v = chars_of(out.as_str());
    let ls = crate::act::lines_of(&v);
    if ls.len() > 2000 {
        let mut t = String::new();
        let ghost lv = lines_s(raw);
        let mut i: usize = 0;
        while i < 2000
            invariant
                i <= 2000 < ls.len(),
                ls@.len() == lv.len(),
                forall|q: int| 0 <= q < ls.len() ==> (#[trigger] ls@[q])@ == lv[q],
                t@ == crate::text::joined(lv.take(i as int), "\n"@),
            decreases 2000 - i,
        {
            let ghost before = t@;
            if i > 0 {
                push_str(&mut t, "\n");
            }
            crate::text::push_chars(&mut t, &ls[i]);
            proof {
                reveal_strlit("\n");
                assert(lv.take(i + 1).drop_last() == lv.take(i as int));
                assert(lv.take(i + 1).last() == lv[i as int]);
                if i == 0 {
                    assert(lv.take(1).len() == 1 && lv.take(1)[0] == lv[0]);
                    assert(t@ == lv[0]);
                }
            }
            i += 1;
        }
        push_str(&mut t, "\n# ... (truncated at 2000 lines / ");
        push_dec(&mut t, ls.len() as u64);
        push_str(&mut t, " total)");
        return t;
    }
    out
}

} // verus!
