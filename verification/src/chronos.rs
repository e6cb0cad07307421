//! Symbol checkpoints: their records, file naming, lookup by symbol and tag,
//! the comparison of two snapshots of a symbol, and what saving, listing and
//! deleting checkpoints decide and report.
use vstd::prelude::*;
use crate::text::{strings_view};
use crate::path::extension_bounds;
use crate::sort::is_perm;
use crate::text::{
    chars_of, is_ascii_alnum, is_ws, is_ws_exec, lower, lower_chars, push_chars, push_str, res_view,
    trim_bounds, trim_end_s, trim_s,
};

verus! {

/// A stored snapshot of one symbol.
#[derive(Debug, Clone)]
pub struct CheckpointRecord {
    pub tag: String,
    pub path: String,
    pub symbol: String,
    pub code: String,
    pub created_unix_ms: u64,
}

// ───────────────────────── file names ─────────────────────────

/// The character that stands for `c` in a file name.
pub open spec fn filename_char(c: char) -> char {
    if is_ascii_alnum(c) || c == '_' || c == '-' {
        c
    } else if is_ws(c) {
        '_'
    } else {
        '-'
    }
}

/// `s` with every run of `_` shortened to one `_`.
pub open spec fn collapse_underscores(s: Seq<char>) -> Seq<char>
    decreases s.len(),
{
    if s.len() == 0 {
        s
    } else {
        let r = collapse_underscores(s.drop_last());
        if s.last() == '_' && r.len() > 0 && r.last() == '_' {
            r
        } else {
            r.push(s.last())
        }
    }
}

/// `s` without leading and trailing `_`.
pub open spec fn trim_underscores(s: Seq<char>) -> Seq<char>
    decreases s.len(),
{
    if s.len() > 0 && s[0] == '_' {
        trim_underscores(s.drop_first())
    } else if s.len() > 0 && s.last() == '_' {
        trim_underscores(s.drop_last())
    } else {
        s
    }
}

/// A file-name-safe form of `s`: letters, digits, `_` and `-` stay, blanks
/// become `_`, anything else `-`; runs of `_` are shortened to one and `_`
/// is trimmed from both ends.
pub open spec fn sanitize_s(s: Seq<char>) -> Seq<char> {
    trim_underscores(collapse_underscores(s.map_values(|c: char| filename_char(c))))
}

fn filename_char_exec(c: char) -> (r: char)
    ensures
        r == filename_char(c),
{
    if ('a' <= c && c <= 'z') || ('A' <= c && c <= 'Z') || ('0' <= c && c <= '9') || c == '_' || c
        == '-' {
        c
    } else if is_ws_exec(c) {
        '_'
    } else {
        '-'
    }
}

/// Makes a string safe to use in a file name.
pub fn sanitize_for_filename(s: &str) -> (r: String)
    ensures
        r@ == sanitize_s(s@),
{
    let v = chars_of(s);
    let ghost mapped = v@.map_values(|c: char| filename_char(c));
    let mut w: Vec<char> = Vec::new();
    let mut i: usize = 0;
    while i < v.len()
        invariant
            i <= v.len(),
            mapped == v@.map_values(|c: char| filename_char(c)),
            w@ == collapse_underscores(mapped.take(i as int)),
        decreases v.len() - i,
    {
        assert(mapped.take(i + 1).drop_last() == mapped.take(i as int));
        let c = filename_char_exec(v[i]);
        if !(c == '_' && w.len() > 0 && w[w.len() - 1] == '_') {
            w.push(c);
        }
        i += 1;
    }
    assert(mapped.take(v.len() as int) == mapped);
    let mut a: usize = 0;
    let mut b: usize = w.len();
    assert(w@ == w@.subrange(0, w.len() as int));
    while a < b && (w[a] == '_' || w[b - 1] == '_')
        invariant
            a <= b <= w.len(),
            trim_underscores(w@) == trim_underscores(w@.subrange(a as int, b as int)),
        decreases b - a,
    {
        if w[a] == '_' {
            assert(w@.subrange(a as int, b as int).drop_first() == w@.subrange(a + 1, b as int));
            a += 1;
        } else {
            assert(w@.subrange(a as int, b as int).drop_last() == w@.subrange(a as int, b - 1));
            b -= 1;
        }
    }
    assert(w@ == w@.subrange(0, w.len() as int));
    let mut out = String::new();
    let mut k = a;
    while k < b
        invariant
            a <= k <= b <= w.len(),
            out@ == w@.subrange(a as int, k as int),
        decreases b - k,
    {
        crate::text::push_char(&mut out, w[k]);
        k += 1;
    }
    out
}

// ───────────────────────── code fences ─────────────────────────

/// The code-fence language of a path, from its extension (any case).
pub open spec fn fence_of_ext(e: Seq<char>) -> Seq<char> {
    if e == "rs"@ {
        "rust"@
    } else if e == "py"@ {
        "python"@
    } else if e == "ts"@ {
        "typescript"@
    } else if e == "tsx"@ {
        "tsx"@
    } else if e == "js"@ {
        "javascript"@
    } else if e == "jsx"@ {
        "jsx"@
    } else if e == "go"@ {
        "go"@
    } else if e == "java"@ {
        "java"@
    } else if e == "kt"@ {
        "kotlin"@
    } else if e == "cs"@ {
        "csharp"@
    } else if e == "cpp"@ || e == "cc"@ || e == "cxx"@ || e == "hpp"@ || e == "h"@ {
        "cpp"@
    } else {
        ""@
    }
}

pub open spec fn guess_code_fence_s(path: Seq<char>) -> Seq<char> {
    match crate::path::extension_s(path) {
        Some(e) => fence_of_ext(crate::text::lower_s(e)),
        None => ""@,
    }
}

fn seq_is(v: &Vec<char>, lit: &str) -> (r: bool)
    ensures
        r == (v@ == lit@),
{
    let t = chars_of(lit);
    if v.len() != t.len() {
        return false;
    }
    let mut i: usize = 0;
    while i < v.len()
        invariant
            i <= v.len() == t.len(),
            t@ == lit@,
            forall|j: int| 0 <= j < i ==> v@[j] == t@[j],
        decreases v.len() - i,
    {
        if v[i] != t[i] {
            return false;
        }
        i += 1;
    }
    assert(v@ == t@);
    true
}

/// The code-fence language for a file path.
pub fn guess_code_fence(path: &str) -> (r: &'static str)
    ensures
        r@ == guess_code_fence_s(path@),
{
    let v = chars_of(path);
    let e = match extension_bounds(&v) {
        None => {
            return "";
        },
        Some((a, b)) => lower_chars(&crate::z4::slice_chars(&v, a, b)),
    };
    proof {
        reveal_strlit("rust");
    }
    if seq_is(&e, "rs") {
        "rust"
    } else if seq_is(&e, "py") {
        "python"
    } else if seq_is(&e, "ts") {
        "typescript"
    } else if seq_is(&e, "tsx") {
        "tsx"
    } else if seq_is(&e, "js") {
        "javascript"
    } else if seq_is(&e, "jsx") {
        "jsx"
    } else if seq_is(&e, "go") {
        "go"
    } else if seq_is(&e, "java") {
        "java"
    } else if seq_is(&e, "kt") {
        "kotlin"
    } else if seq_is(&e, "cs") {
        "csharp"
    } else if seq_is(&e, "cpp") || seq_is(&e, "cc") || seq_is(&e, "cxx") || seq_is(&e, "hpp")
        || seq_is(&e, "h") {
        "cpp"
    } else {
        ""
    }
}

// ───────────────────────── lookup ─────────────────────────

/// Whether record `r` (stored at the normalized path `p`) is a snapshot of
/// `symbol` under `tag`, at the path `hint` when one is given.
pub open spec fn rec_matches(
    r: CheckpointRecord,
    p: Seq<char>,
    symbol: Seq<char>,
    tag: Seq<char>,
    hint: Option<Seq<char>>,
) -> bool {
    &&& r.symbol@ == symbol
    &&& r.tag@ == tag
    &&& (hint matches Some(h) ==> p == h)
}

/// Indices, among the first `n` records, of those that match.
pub open spec fn matching(
    recs: Seq<CheckpointRecord>,
    paths: Seq<Seq<char>>,
    symbol: Seq<char>,
    tag: Seq<char>,
    hint: Option<Seq<char>>,
    n: int,
) -> Seq<int>
    decreases n,
{
    if n <= 0 {
        seq![]
    } else {
        let m = matching(recs, paths, symbol, tag, hint, n - 1);
        if rec_matches(recs[n - 1], paths[n - 1], symbol, tag, hint) {
            m.push(n - 1)
        } else {
            m
        }
    }
}

/// `- <path>` lines for the given records.
pub open spec fn listing(recs: Seq<CheckpointRecord>, idx: Seq<int>) -> Seq<char>
    decreases idx.len(),
{
    if idx.len() == 0 {
        seq![]
    } else {
        listing(recs, idx.drop_last()) + "- "@ + recs[idx.last()].path@ + "\n"@
    }
}

pub open spec fn none_found_msg(symbol: Seq<char>, tag: Seq<char>) -> Seq<char> {
    "No checkpoint found for symbol `"@ + symbol + "` at tag `"@ + tag + "`"@
}

pub open spec fn ambiguous_msg(symbol: Seq<char>, tag: Seq<char>, listed: Seq<char>) -> Seq<char> {
    "Multiple checkpoints match symbol `"@ + symbol + "` at tag `"@ + tag
        + "`. Please disambiguate with `path`.\nMatches:\n"@ + listed
}

/// The one record of `symbol` at `tag` (at `hint` when given), or why there is none.
pub open spec fn find_one_s(
    recs: Seq<CheckpointRecord>,
    paths: Seq<Seq<char>>,
    symbol: Seq<char>,
    tag: Seq<char>,
    hint: Option<Seq<char>>,
) -> Result<int, Seq<char>> {
    let m = matching(recs, paths, symbol, tag, hint, recs.len() as int);
    if m.len() == 0 {
        Err(none_found_msg(symbol, tag))
    } else if m.len() == 1 {
        Ok(m[0])
    } else {
        Err(ambiguous_msg(symbol, tag, listing(recs, m.take(if m.len() < 10 { m.len() as int } else { 10 }))))
    }
}

fn str_eq(a: &str, b: &str) -> (r: bool)
    ensures
        r == (a@ == b@),
{
    let x = chars_of(a);
    seq_is(&x, b)
}

proof fn lemma_matching_bound(
    recs: Seq<CheckpointRecord>,
    paths: Seq<Seq<char>>,
    symbol: Seq<char>,
    tag: Seq<char>,
    hint: Option<Seq<char>>,
    n: int,
)
    ensures
        forall|k: int|
            0 <= k < matching(recs, paths, symbol, tag, hint, n).len() ==> 0 <= #[trigger] matching(
                recs,
                paths,
                symbol,
                tag,
                hint,
                n,
            )[k] < n,
        matching(recs, paths, symbol, tag, hint, n).len() <= if n < 0 { 0 } else { n },
    decreases n,
{
    if n > 0 {
        lemma_matching_bound(recs, paths, symbol, tag, hint, n - 1);
    }
}

/// Finds the one checkpoint of `symbol` at `tag`; `paths` holds the
/// normalized path of each record and `hint` the normalized path asked for.
pub fn find_one(
    recs: &Vec<CheckpointRecord>,
    paths: &Vec<String>,
    symbol: &str,
    tag: &str,
    hint: Option<&str>,
) -> (r: Result<usize, String>)
    requires
        paths.len() == recs.len(),
    ensures
        match find_one_s(recs@, strings_view(paths@), symbol@, tag@, crate::text::str_opt(hint)) {
            Ok(k) => r matches Ok(j) && j as int == k && j < recs.len(),
            Err(m) => r matches Err(e) && e@ == m,
        },
{
    let ghost pv = strings_view(paths@);
    let ghost hv = crate::text::str_opt(hint);
    let mut m: Vec<usize> = Vec::new();
    let mut i: usize = 0;
    while i < recs.len()
        invariant
            i <= recs.len() == paths.len(),
            pv == strings_view(paths@),
            hv == crate::text::str_opt(hint),
            m@.len() == matching(recs@, pv, symbol@, tag@, hv, i as int).len(),
            forall|k: int|
                0 <= k < m.len() ==> (#[trigger] m@[k]) as int == matching(
                    recs@,
                    pv,
                    symbol@,
                    tag@,
                    hv,
                    i as int,
                )[k],
            forall|k: int| 0 <= k < m.len() ==> #[trigger] m@[k] < i,
        decreases recs.len() - i,
    {
        let r = &recs[i];
        let ok_hint = match hint {
            None => true,
            Some(h) => str_eq(paths[i].as_str(), h),
        };
        assert(pv[i as int] == paths@[i as int]@);
        if str_eq(r.symbol.as_str(), symbol) && str_eq(r.tag.as_str(), tag) && ok_hint {
            m.push(i);
        }
        i += 1;
    }
    let ghost ms = matching(recs@, pv, symbol@, tag@, hv, recs.len() as int);
    if m.len() == 0 {
        let mut e = String::from_str("No checkpoint found for symbol `");
        push_str(&mut e, symbol);
        push_str(&mut e, "` at tag `");
        push_str(&mut e, tag);
        push_str(&mut e, "`");
        return Err(e);
    }
    if m.len() == 1 {
        return Ok(m[0]);
    }
    let mut e = String::from_str("Multiple checkpoints match symbol `");
    push_str(&mut e, symbol);
    push_str(&mut e, "` at tag `");
    push_str(&mut e, tag);
    push_str(&mut e, "`. Please disambiguate with `path`.\nMatches:\n");
    let ghost head = e@;
    let n = if m.len() < 10 {
        m.len()
    } else {
        10
    };
    let mut k: usize = 0;
    while k < n
        invariant
            k <= n <= m.len(),
            m@.len() == ms.len(),
            forall|j: int| 0 <= j < m.len() ==> (#[trigger] m@[j]) as int == ms[j],
            forall|j: int| 0 <= j < m.len() ==> #[trigger] m@[j] < recs.len(),
            e@ == head + listing(recs@, ms.take(k as int)),
        decreases n - k,
    {
        assert(ms.take(k + 1).drop_last() == ms.take(k as int));
        push_str(&mut e, "- ");
        push_str(&mut e, recs[m[k]].path.as_str());
        push_str(&mut e, "\n");
        k += 1;
    }
    Err(e)
}

// ───────────────────────── comparison ─────────────────────────

pub open spec fn no_checkpoints_msg(dir: Seq<char>) -> Seq<char> {
    "No checkpoints found (directory missing or empty): "@ + dir
}

pub open spec fn missing_args_msg() -> Seq<char> {
    "Missing required args: symbol_name, tag_a, tag_b"@
}

pub open spec fn live_needs_path_msg() -> Seq<char> {
    "tag_b='__live__' requires 'path' (the source file containing the symbol)."@
}

/// The report comparing snapshot `a` (at `tag_a`) with snapshot `b` (at `tag_b`).
pub open spec fn comparison_text(
    symbol: Seq<char>,
    tag_a: Seq<char>,
    tag_b: Seq<char>,
    a: CheckpointRecord,
    b: CheckpointRecord,
) -> Seq<char> {
    let head = "## Comparison: `"@ + symbol + "` (`"@ + tag_a + "` vs `"@ + tag_b + "`)\n\n"@;
    if trim_s(a.code@) == trim_s(b.code@) {
        head + "\n✅ **NO STRUCTURAL DIFF** — `"@ + symbol
            + "` is identical in both snapshots.\n- `"@ + tag_a + "` path: `"@ + a.path@
            + "`\n- `"@ + tag_b + "` path: `"@ + b.path@
            + "`\n\nNo action needed. The symbol was not changed between the two checkpoints."@
    } else {
        let fence = guess_code_fence_s(a.path@);
        head + "### `"@ + tag_a + "` — `"@ + a.path@ + "`\n"@ + "```"@ + fence + "\n"@
            + trim_end_s(a.code@) + "\n```\n\n"@ + "### `"@ + tag_b + "` — `"@ + b.path@ + "`\n"@
            + "```"@ + fence + "\n"@ + trim_end_s(b.code@) + "\n```\n"@
    }
}

proof fn lemma_occurs_in_middle(x: Seq<char>, p: Seq<char>, y: Seq<char>)
    ensures
        crate::text::contains_s(x + p + y, p),
{
    let r = x + p + y;
    assert(r.subrange(x.len() as int, x.len() as int + p.len()) =~= p);
    assert(crate::text::occurs_at(r, p, x.len() as int));
}

/// A comparison says there is no structural difference exactly when the
/// two snapshots' code is the same once trimmed; whenever it differs, the
/// report shows the code of both snapshots, each closed by its fence.
pub proof fn law_changed_symbols_show_both_snapshots(
    symbol: Seq<char>,
    tag_a: Seq<char>,
    tag_b: Seq<char>,
    a: CheckpointRecord,
    b: CheckpointRecord,
)
    ensures
        trim_s(a.code@) == trim_s(b.code@) ==> crate::text::contains_s(
            comparison_text(symbol, tag_a, tag_b, a, b),
            "NO STRUCTURAL DIFF"@,
        ),
        trim_s(a.code@) != trim_s(b.code@) ==> crate::text::contains_s(
            comparison_text(symbol, tag_a, tag_b, a, b),
            "\n"@ + trim_end_s(a.code@) + "\n```\n"@,
        ) && crate::text::contains_s(
            comparison_text(symbol, tag_a, tag_b, a, b),
            "\n"@ + trim_end_s(b.code@) + "\n```\n"@,
        ),
{
    let r = comparison_text(symbol, tag_a, tag_b, a, b);
    let head = "## Comparison: `"@ + symbol + "` (`"@ + tag_a + "` vs `"@ + tag_b + "`)\n\n"@;
    reveal_strlit("\n✅ **NO STRUCTURAL DIFF** — `");
    reveal_strlit("NO STRUCTURAL DIFF");
    reveal_strlit("\n");
    reveal_strlit("\n```\n");
    reveal_strlit("\n```\n\n");
    if trim_s(a.code@) == trim_s(b.code@) {
        let lead = "\n✅ **NO STRUCTURAL DIFF** — `"@;
        assert(lead =~= "\n✅ **"@ + "NO STRUCTURAL DIFF"@ + "** — `"@) by {
            reveal_strlit("\n✅ **");
            reveal_strlit("** — `");
        }
        let rest = "** — `"@ + symbol
            + "` is identical in both snapshots.\n- `"@ + tag_a + "` path: `"@ + a.path@
            + "`\n- `"@ + tag_b + "` path: `"@ + b.path@
            + "`\n\nNo action needed. The symbol was not changed between the two checkpoints."@;
        assert(r =~= (head + "\n✅ **"@) + "NO STRUCTURAL DIFF"@ + rest);
        lemma_occurs_in_middle(head + "\n✅ **"@, "NO STRUCTURAL DIFF"@, rest);
    } else {
        let fence = guess_code_fence_s(a.path@);
        let pa = "\n"@ + trim_end_s(a.code@) + "\n```\n"@;
        let pb = "\n"@ + trim_end_s(b.code@) + "\n```\n"@;
        let xa = head + "### `"@ + tag_a + "` — `"@ + a.path@ + "`\n"@ + "```"@ + fence;
        let ya = "\n"@ + "### `"@ + tag_b + "` — `"@ + b.path@ + "`\n"@ + "```"@ + fence + "\n"@
            + trim_end_s(b.code@) + "\n```\n"@;
        assert("\n```\n\n"@ =~= "\n```\n"@ + "\n"@);
        assert(r =~= xa + pa + ya);
        lemma_occurs_in_middle(xa, pa, ya);
        let xb = xa + "\n"@ + trim_end_s(a.code@) + "\n```\n\n"@ + "### `"@ + tag_b + "` — `"@
            + b.path@ + "`\n"@ + "```"@ + fence;
        assert(r =~= xb + pb + Seq::<char>::empty());
        lemma_occurs_in_middle(xb, pb, Seq::<char>::empty());
    }
}

/// What comparing two snapshots of a symbol answers.  `live` is the current
/// state of the symbol read from `path`, used when `tag_b` is `__live__`.
pub open spec fn compare_symbol_s(
    dir: Seq<char>,
    recs: Seq<CheckpointRecord>,
    paths: Seq<Seq<char>>,
    symbol: Seq<char>,
    tag_a: Seq<char>,
    tag_b: Seq<char>,
    path: Option<Seq<char>>,
    hint: Option<Seq<char>>,
    live: Result<CheckpointRecord, Seq<char>>,
) -> Result<Seq<char>, Seq<char>> {
    let (s, ta, tb) = (trim_s(symbol), trim_s(tag_a), trim_s(tag_b));
    if recs.len() == 0 {
        Err(no_checkpoints_msg(dir))
    } else if s.len() == 0 || ta.len() == 0 || tb.len() == 0 {
        Err(missing_args_msg())
    } else {
        match find_one_s(recs, paths, s, ta, hint) {
            Err(m) => Err(m),
            Ok(ia) => {
                let rb: Result<CheckpointRecord, Seq<char>> = if tb == "__live__"@ {
                    if !(path matches Some(p) && trim_s(p).len() > 0) {
                        Err(live_needs_path_msg())
                    } else {
                        live
                    }
                } else {
                    match find_one_s(recs, paths, s, tb, hint) {
                        Err(m) => Err(m),
                        Ok(ib) => Ok(recs[ib]),
                    }
                };
                match rb {
                    Err(m) => Err(m),
                    Ok(b) => Ok(comparison_text(s, ta, tb, recs[ia], b)),
                }
            },
        }
    }
}

fn trimmed(s: &str) -> (r: String)
    ensures
        r@ == trim_s(s@),
{
    crate::text::trim_string(s)
}

fn push_trim_end(out: &mut String, s: &str)
    ensures
        final(out)@ == old(out)@ + trim_end_s(s@),
{
    let v = chars_of(s);
    let mut b = v.len();
    assert(v@.take(v.len() as int) == v@);
    while b > 0 && is_ws_exec(v[b - 1])
        invariant
            b <= v.len(),
            v@ == s@,
            trim_end_s(s@) == trim_end_s(v@.take(b as int)),
        decreases b,
    {
        assert(v@.take(b as int).drop_last() == v@.take(b - 1));
        b -= 1;
    }
    assert(v@.take(v.len() as int) == v@);
    let w = crate::z4::slice_chars(&v, 0, b);
    assert(w@ == v@.take(b as int));
    push_chars(out, &w);
}

fn render_comparison(
    symbol: &str,
    tag_a: &str,
    tag_b: &str,
    a: &CheckpointRecord,
    b: &CheckpointRecord,
) -> (r: String)
    ensures
        r@ == comparison_text(symbol@, tag_a@, tag_b@, *a, *b),
{
    let mut out = String::from_str("## Comparison: `");
    push_str(&mut out, symbol);
    push_str(&mut out, "` (`");
    push_str(&mut out, tag_a);
    push_str(&mut out, "` vs `");
    push_str(&mut out, tag_b);
    push_str(&mut out, "`)\n\n");
    let ca = trimmed(a.code.as_str());
    let cb = trimmed(b.code.as_str());
    if str_eq(ca.as_str(), cb.as_str()) {
        push_str(&mut out, "\n✅ **NO STRUCTURAL DIFF** — `");
        push_str(&mut out, symbol);
        push_str(&mut out, "` is identical in both snapshots.\n- `");
        push_str(&mut out, tag_a);
        push_str(&mut out, "` path: `");
        push_str(&mut out, a.path.as_str());
        push_str(&mut out, "`\n- `");
        push_str(&mut out, tag_b);
        push_str(&mut out, "` path: `");
        push_str(&mut out, b.path.as_str());
        push_str(
            &mut out,
            "`\n\nNo action needed. The symbol was not changed between the two checkpoints.",
        );
        return out;
    }
    let fence = guess_code_fence(a.path.as_str());
    push_str(&mut out, "### `");
    push_str(&mut out, tag_a);
    push_str(&mut out, "` — `");
    push_str(&mut out, a.path.as_str());
    push_str(&mut out, "`\n");
    push_str(&mut out, "```");
    push_str(&mut out, fence);
    push_str(&mut out, "\n");
    push_trim_end(&mut out, a.code.as_str());
    push_str(&mut out, "\n```\n\n");
    push_str(&mut out, "### `");
    push_str(&mut out, tag_b);
    push_str(&mut out, "` — `");
    push_str(&mut out, b.path.as_str());
    push_str(&mut out, "`\n");
    push_str(&mut out, "```");
    push_str(&mut out, fence);
    push_str(&mut out, "\n");
    push_trim_end(&mut out, b.code.as_str());
    push_str(&mut out, "\n```\n");
    out
}

pub open spec fn live_view(l: Result<CheckpointRecord, String>) -> Result<CheckpointRecord, Seq<char>> {
    match l {
        Ok(r) => Ok(r),
        Err(e) => Err(e@),
    }
}

/// Compares two snapshots of a symbol.  `dir` is the checkpoint directory
/// (for messages), `recs` the records read from it and `paths` their
/// normalized paths, `hint` the normalized form of `path`, and `live` the
/// current state of the symbol read from `path` (used when `tag_b` is `__live__`).
pub fn compare_symbol(
    dir: &str,
    recs: &Vec<CheckpointRecord>,
    paths: &Vec<String>,
    symbol_name: &str,
    tag_a: &str,
    tag_b: &str,
    path: Option<&str>,
    hint: Option<&str>,
    live: Result<CheckpointRecord, String>,
) -> (r: Result<String, String>)
    requires
        paths.len() == recs.len(),
    ensures
        res_view(r) == compare_symbol_s(
            dir@,
            recs@,
            strings_view(paths@),
            symbol_name@,
            tag_a@,
            tag_b@,
            crate::text::str_opt(path),
            crate::text::str_opt(hint),
            live_view(live),
        ),
{
    if recs.len() == 0 {
        let mut m = String::from_str("No checkpoints found (directory missing or empty): ");
        push_str(&mut m, dir);
        return Err(m);
    }
    let s = trimmed(symbol_name);
    let ta = trimmed(tag_a);
    let tb = trimmed(tag_b);
    let sv = chars_of(s.as_str());
    let av = chars_of(ta.as_str());
    let bv = chars_of(tb.as_str());
    if sv.len() == 0 || av.len() == 0 || bv.len() == 0 {
        return Err(String::from_str("Missing required args: symbol_name, tag_a, tag_b"));
    }
    let ia = match find_one(recs, paths, s.as_str(), ta.as_str(), hint) {
        Err(m) => {
            return Err(m);
        },
        Ok(i) => i,
    };
    if seq_is(&bv, "__live__") {
        let has_path = match path {
            None => false,
            Some(p) => {
                let pt = trimmed(p);
                chars_of(pt.as_str()).len() > 0
            },
        };
        if !has_path {
            return Err(
                String::from_str(
                    "tag_b='__live__' requires 'path' (the source file containing the symbol).",
                ),
            );
        }
        match live {
            Err(m) => Err(m),
            Ok(b) => Ok(render_comparison(s.as_str(), ta.as_str(), tb.as_str(), &recs[ia], &b)),
        }
    } else {
        match find_one(recs, paths, s.as_str(), tb.as_str(), hint) {
            Err(m) => Err(m),
            Ok(ib) => Ok(render_comparison(s.as_str(), ta.as_str(), tb.as_str(), &recs[ia], &recs[ib])),
        }
    }
}


// ───────────────────────── laws ─────────────────────────

pub open spec fn is_filename_char(c: char) -> bool {
    is_ascii_alnum(c) || c == '_' || c == '-'
}

proof fn lemma_collapse_shape(s: Seq<char>)
    requires
        forall|i: int| 0 <= i < s.len() ==> is_filename_char(#[trigger] s[i]),
    ensures
        forall|i: int| 0 <= i < collapse_underscores(s).len() ==> is_filename_char(#[trigger] collapse_underscores(s)[i]),
        forall|i: int| 0 <= i < collapse_underscores(s).len() - 1 ==> !(#[trigger] collapse_underscores(s)[i] == '_' && collapse_underscores(s)[i + 1] == '_'),
    decreases s.len(),
{
    if s.len() > 0 {
        lemma_collapse_shape(s.drop_last());
        let r = collapse_underscores(s.drop_last());
        if !(s.last() == '_' && r.len() > 0 && r.last() == '_') {
            let t = r.push(s.last());
            assert forall|i: int| 0 <= i < t.len() implies is_filename_char(#[trigger] t[i]) by {
                if i < r.len() {
                    assert(t[i] == r[i]);
                }
            }
            assert forall|i: int| 0 <= i < t.len() - 1 implies !(#[trigger] t[i] == '_' && t[i + 1] == '_') by {
                assert(t[i] == r[i]);
                if i + 1 < r.len() {
                    assert(t[i + 1] == r[i + 1]);
                }
            }
        }
    }
}

proof fn lemma_trim_underscores_shape(s: Seq<char>)
    ensures
        trim_underscores(s).len() > 0 ==> trim_underscores(s)[0] != '_' && trim_underscores(s).last() != '_',
        exists|a: int, b: int| 0 <= a <= b <= s.len() && trim_underscores(s) == s.subrange(a, b),
    decreases s.len(),
{
    if s.len() > 0 && s[0] == '_' {
        lemma_trim_underscores_shape(s.drop_first());
        let (a, b) = choose|a: int, b: int| 0 <= a <= b <= s.drop_first().len() && trim_underscores(s.drop_first()) == s.drop_first().subrange(a, b);
        assert(s.drop_first().subrange(a, b) == s.subrange(a + 1, b + 1));
    } else if s.len() > 0 && s.last() == '_' {
        lemma_trim_underscores_shape(s.drop_last());
        let (a, b) = choose|a: int, b: int| 0 <= a <= b <= s.drop_last().len() && trim_underscores(s.drop_last()) == s.drop_last().subrange(a, b);
        assert(s.drop_last().subrange(a, b) == s.subrange(a, b));
    } else {
        assert(s.subrange(0, s.len() as int) == s);
    }
}

/// A sanitized file name holds only ASCII letters, digits, `_` and `-`,
/// never two `_` in a row, and neither starts nor ends with `_`.
pub proof fn law_sanitized_names_are_clean(s: Seq<char>)
    ensures
        forall|i: int| 0 <= i < sanitize_s(s).len() ==> is_filename_char(#[trigger] sanitize_s(s)[i]),
        forall|i: int| 0 <= i < sanitize_s(s).len() - 1 ==> !(#[trigger] sanitize_s(s)[i] == '_' && sanitize_s(s)[i + 1] == '_'),
        sanitize_s(s).len() > 0 ==> sanitize_s(s)[0] != '_' && sanitize_s(s).last() != '_',
{
    let m = s.map_values(|c: char| filename_char(c));
    assert forall|i: int| 0 <= i < m.len() implies is_filename_char(#[trigger] m[i]) by {}
    lemma_collapse_shape(m);
    let c = collapse_underscores(m);
    lemma_trim_underscores_shape(c);
    let (a, b) = choose|a: int, b: int| 0 <= a <= b <= c.len() && trim_underscores(c) == c.subrange(a, b);
    let t = sanitize_s(s);
    assert forall|i: int| 0 <= i < t.len() implies is_filename_char(#[trigger] t[i]) by {
        assert(t[i] == c[a + i]);
    }
    assert forall|i: int| 0 <= i < t.len() - 1 implies !(#[trigger] t[i] == '_' && t[i + 1] == '_') by {
        assert(t[i] == c[a + i]);
        assert(t[i + 1] == c[a + i + 1]);
    }
}

// ───────────────────────── deleting ─────────────────────────

/// A filter argument as used: trimmed, and none when blank.
pub open spec fn filter_arg(o: Option<Seq<char>>) -> Option<Seq<char>> {
    match o {
        Some(s) => if trim_s(s).len() == 0 {
            None
        } else {
            Some(trim_s(s))
        },
        None => None,
    }
}

/// The checkpoint namespace named by an argument: trimmed, `default` when
/// absent or blank.
pub open spec fn namespace_s(o: Option<Seq<char>>) -> Seq<char> {
    let t = trim_s(
        match o {
            Some(s) => s,
            None => "default"@,
        },
    );
    if t.len() == 0 {
        "default"@
    } else {
        t
    }
}

/// What a delete request does.
#[derive(Debug, Clone)]
pub enum DeletePlan {
    /// No filter was given: the whole namespace goes.
    PurgeNamespace { namespace: String },
    /// The records of the namespace that pass every given filter go.
    Filtered {
        namespace: String,
        symbol: Option<String>,
        tag: Option<String>,
        path_hint: Option<String>,
    },
}

/// The view of an optional string.
pub open spec fn string_opt(o: Option<String>) -> Option<Seq<char>> {
    match o {
        Some(s) => Some(s@),
        None => None,
    }
}

fn filter_arg_exec(o: Option<&str>) -> (r: Option<String>)
    ensures
        string_opt(r) == filter_arg(crate::text::str_opt(o)),
{
    match o {
        None => None,
        Some(s) => {
            let t = crate::text::trim_string(s);
            let tv = chars_of(t.as_str());
            if tv.len() == 0 {
                None
            } else {
                Some(t)
            }
        },
    }
}

/// Decides a delete request: the namespace it works in, and whether it
/// purges the namespace (no filter given) or deletes what passes the filters.
pub fn plan_checkpoint_delete(
    symbol_name: Option<&str>,
    semantic_tag: Option<&str>,
    path_hint: Option<&str>,
    namespace: Option<&str>,
) -> (r: DeletePlan)
    ensures
        ({
            let sym = filter_arg(crate::text::str_opt(symbol_name));
            let tag = filter_arg(crate::text::str_opt(semantic_tag));
            let hint = filter_arg(crate::text::str_opt(path_hint));
            let ns = namespace_s(crate::text::str_opt(namespace));
            match r {
                DeletePlan::PurgeNamespace { namespace: n } => sym is None && tag is None && hint is None
                    && n@ == ns,
                DeletePlan::Filtered { namespace: n, symbol: s, tag: t, path_hint: h } => !(sym is None
                    && tag is None && hint is None) && n@ == ns && string_opt(s) == sym && string_opt(t)
                    == tag && string_opt(h) == hint,
            }
        }),
{
    let raw = match namespace {
        Some(n) => crate::text::trim_string(n),
        None => {
            let d = crate::text::trim_string("default");
            proof {
                reveal_strlit("default");
                crate::text::lemma_trim_fixed("default"@);
            }
            d
        },
    };
    let rv = chars_of(raw.as_str());
    let ns = if rv.len() == 0 {
        String::from_str("default")
    } else {
        raw
    };
    let sym = filter_arg_exec(symbol_name);
    let tag = filter_arg_exec(semantic_tag);
    let hint = filter_arg_exec(path_hint);
    if sym.is_none() && tag.is_none() && hint.is_none() {
        DeletePlan::PurgeNamespace { namespace: ns }
    } else {
        DeletePlan::Filtered { namespace: ns, symbol: sym, tag, path_hint: hint }
    }
}

/// Whether record `r`, stored at the normalized path `p`, passes every given filter.
pub open spec fn passes_filters(
    r: CheckpointRecord,
    p: Seq<char>,
    symbol: Option<Seq<char>>,
    tag: Option<Seq<char>>,
    hint: Option<Seq<char>>,
) -> bool {
    &&& (symbol matches Some(s) ==> r.symbol@ == s)
    &&& (tag matches Some(t) ==> r.tag@ == t)
    &&& (hint matches Some(h) ==> p == h)
}

/// Indices, among the first `n` records, of those that pass the filters.
pub open spec fn passing_filters(
    recs: Seq<CheckpointRecord>,
    paths: Seq<Seq<char>>,
    symbol: Option<Seq<char>>,
    tag: Option<Seq<char>>,
    hint: Option<Seq<char>>,
    n: int,
) -> Seq<int>
    decreases n,
{
    if n <= 0 {
        seq![]
    } else {
        let m = passing_filters(recs, paths, symbol, tag, hint, n - 1);
        if passes_filters(recs[n - 1], paths[n - 1], symbol, tag, hint) {
            m.push(n - 1)
        } else {
            m
        }
    }
}

fn opt_eq(a: &Option<String>, b: &String) -> (r: bool)
    ensures
        r == (a matches Some(x) ==> x@ == b@),
{
    match a {
        Some(x) => *x == *b,
        None => true,
    }
}

/// The records to delete: those passing every given filter, in order
/// (`paths[k]` is where record `k` is stored, normalized as the hint is).
pub fn delete_selection(
    recs: &Vec<CheckpointRecord>,
    paths: &Vec<String>,
    symbol: &Option<String>,
    tag: &Option<String>,
    path_hint: &Option<String>,
) -> (r: Vec<usize>)
    requires
        paths.len() == recs.len(),
    ensures
        r@.map_values(|k: usize| k as int) == passing_filters(
            recs@,
            strings_view(paths@),
            string_opt(*symbol),
            string_opt(*tag),
            string_opt(*path_hint),
            recs.len() as int,
        ),
{
    let ghost pv = strings_view(paths@);
    let mut out: Vec<usize> = Vec::new();
    let mut i: usize = 0;
    while i < recs.len()
        invariant
            i <= recs.len() == paths.len(),
            pv == strings_view(paths@),
            out@.map_values(|k: usize| k as int) == passing_filters(
                recs@,
                pv,
                string_opt(*symbol),
                string_opt(*tag),
                string_opt(*path_hint),
                i as int,
            ),
        decreases recs.len() - i,
    {
        assert(pv[i as int] == paths@[i as int]@);
        let ok = opt_eq(symbol, &recs[i].symbol) && opt_eq(tag, &recs[i].tag) && opt_eq(
            path_hint,
            &paths[i],
        );
        if ok {
            let ghost before = out@.map_values(|k: usize| k as int);
            out.push(i);
            assert(out@.map_values(|k: usize| k as int) =~= before.push(i as int));
        }
        i += 1;
    }
    out
}

/// The error of a purge of a namespace that does not exist.
pub open spec fn missing_namespace_msg(ns: Seq<char>) -> Seq<char> {
    "Error: Namespace '"@ + ns + "' does not exist. If '"@ + ns
        + "' is actually a semantic tag, you must call delete_checkpoint with semantic_tag='"@ + ns
        + "' (leaving namespace as 'default')."@
}

/// Why a purge of namespace `ns` found nothing to purge.
pub fn missing_namespace_error(ns: &str) -> (r: String)
    ensures
        r@ == missing_namespace_msg(ns@),
{
    let mut m = String::new();
    push_str(&mut m, "Error: Namespace '");
    push_str(&mut m, ns);
    push_str(&mut m, "' does not exist. If '");
    push_str(&mut m, ns);
    push_str(
        &mut m,
        "' is actually a semantic tag, you must call delete_checkpoint with semantic_tag='",
    );
    push_str(&mut m, ns);
    push_str(&mut m, "' (leaving namespace as 'default').");
    m
}

/// The report of a purged namespace.
pub open spec fn purge_report_s(ns: Seq<char>, count: nat, dir: Seq<char>) -> Seq<char> {
    "Purged namespace '"@ + ns + "': deleted "@ + crate::text::dec_s(count)
        + " checkpoint file(s) and the directory "@ + dir + "."@
}

/// Reports the purge of namespace `ns`, stored in `dir`, that held `count` checkpoint files.
pub fn purge_report(ns: &str, count: usize, dir: &str) -> (r: String)
    ensures
        r@ == purge_report_s(ns@, count as nat, dir@),
{
    let mut m = String::new();
    push_str(&mut m, "Purged namespace '");
    push_str(&mut m, ns);
    push_str(&mut m, "': deleted ");
    crate::text::push_dec(&mut m, count as u64);
    push_str(&mut m, " checkpoint file(s) and the directory ");
    push_str(&mut m, dir);
    push_str(&mut m, ".");
    m
}

/// The filters of a delete, as `name='value'`, in order.
pub open spec fn filter_terms(
    symbol: Option<Seq<char>>,
    tag: Option<Seq<char>>,
    hint: Option<Seq<char>>,
) -> Seq<Seq<char>> {
    (match symbol {
        Some(s) => seq!["symbol='"@ + s + "'"@],
        None => Seq::<Seq<char>>::empty(),
    }) + (match tag {
        Some(t) => seq!["tag='"@ + t + "'"@],
        None => Seq::<Seq<char>>::empty(),
    }) + (match hint {
        Some(h) => seq!["path='"@ + h + "'"@],
        None => Seq::<Seq<char>>::empty(),
    })
}

/// The report of a delete that matched nothing.
pub open spec fn no_match_report_s(
    symbol: Option<Seq<char>>,
    tag: Option<Seq<char>>,
    hint: Option<Seq<char>>,
) -> Seq<char> {
    let fs = filter_terms(symbol, tag, hint);
    "No checkpoints matched the provided filters ("@ + (if fs.len() == 0 {
        "no filters"@
    } else {
        crate::text::joined(fs, ", "@)
    }) + ").\nTip: run list_checkpoints to see what exists."@
}

/// The report of a delete that matched nothing, naming its filters.
pub fn no_match_report(symbol: &Option<String>, tag: &Option<String>, path_hint: &Option<String>) -> (r:
    String)
    ensures
        r@ == no_match_report_s(string_opt(*symbol), string_opt(*tag), string_opt(*path_hint)),
{
    let mut terms: Vec<String> = Vec::new();
    if let Some(s) = symbol {
        let mut t = String::new();
        push_str(&mut t, "symbol='");
        push_str(&mut t, s.as_str());
        push_str(&mut t, "'");
        terms.push(t);
    }
    if let Some(g) = tag {
        let mut t = String::new();
        push_str(&mut t, "tag='");
        push_str(&mut t, g.as_str());
        push_str(&mut t, "'");
        terms.push(t);
    }
    if let Some(h) = path_hint {
        let mut t = String::new();
        push_str(&mut t, "path='");
        push_str(&mut t, h.as_str());
        push_str(&mut t, "'");
        terms.push(t);
    }
    assert(terms@.map_values(|x: String| x@) =~= filter_terms(
        string_opt(*symbol),
        string_opt(*tag),
        string_opt(*path_hint),
    ));
    let mut m = String::new();
    push_str(&mut m, "No checkpoints matched the provided filters (");
    if terms.len() == 0 {
        push_str(&mut m, "no filters");
    } else {
        let j = crate::store::join_strings(&terms, ", ");
        push_str(&mut m, j.as_str());
    }
    push_str(&mut m, ").\nTip: run list_checkpoints to see what exists.");
    m
}

/// The report of a delete that matched: how many of the matched records
/// went, from where, and the failures.
pub open spec fn delete_report_s(
    ns: Seq<char>,
    location: Seq<char>,
    from_legacy: bool,
    deleted: nat,
    matched: nat,
    errors: Seq<Seq<char>>,
) -> Seq<char> {
    let source = if from_legacy {
        "legacy flat store ("@ + location + ")"@
    } else {
        "namespace '"@ + ns + "' ("@ + location + ")"@
    };
    "Deleted "@ + crate::text::dec_s(deleted) + "/"@ + crate::text::dec_s(matched)
        + " checkpoint(s) from "@ + source + "."@ + if errors.len() > 0 {
        "\n\nSome deletes failed:\n"@ + crate::text::joined(errors, "\n"@)
    } else {
        Seq::<char>::empty()
    }
}

/// Reports a delete: `deleted` of the `matched` records went from
/// `location` (the legacy flat store when `from_legacy`), with one line per
/// failed delete.
pub fn delete_report(
    ns: &str,
    location: &str,
    from_legacy: bool,
    deleted: usize,
    matched: usize,
    errors: &Vec<String>,
) -> (r: String)
    ensures
        r@ == delete_report_s(
            ns@,
            location@,
            from_legacy,
            deleted as nat,
            matched as nat,
            strings_view(errors@),
        ),
{
    let mut m = String::new();
    push_str(&mut m, "Deleted ");
    crate::text::push_dec(&mut m, deleted as u64);
    push_str(&mut m, "/");
    crate::text::push_dec(&mut m, matched as u64);
    push_str(&mut m, " checkpoint(s) from ");
    if from_legacy {
        push_str(&mut m, "legacy flat store (");
        push_str(&mut m, location);
        push_str(&mut m, ")");
    } else {
        push_str(&mut m, "namespace '");
        push_str(&mut m, ns);
        push_str(&mut m, "' (");
        push_str(&mut m, location);
        push_str(&mut m, ")");
    }
    push_str(&mut m, ".");
    if errors.len() > 0 {
        push_str(&mut m, "\n\nSome deletes failed:\n");
        let j = crate::store::join_strings(errors, "\n");
        push_str(&mut m, j.as_str());
    }
    m
}

// ───────────────────────── listing ─────────────────────────

/// One listed checkpoint.
pub open spec fn listed_line(r: CheckpointRecord) -> Seq<char> {
    "- `"@ + r.symbol@ + "` — `"@ + r.path@ + "`\n"@
}

/// The listed checkpoints `rs`, in order.
pub open spec fn listed_lines(rs: Seq<CheckpointRecord>) -> Seq<char>
    decreases rs.len(),
{
    if rs.len() == 0 {
        Seq::empty()
    } else {
        listed_lines(rs.drop_last()) + listed_line(rs.last())
    }
}

/// The block of one tag's checkpoints `run` (newest first): its heading, at
/// most 50 of them, and how many more there are.
pub open spec fn tag_block(run: Seq<CheckpointRecord>) -> Seq<char> {
    "#### `"@ + run[0].tag@ + "`\n"@ + listed_lines(
        if run.len() > 50 {
            run.take(50)
        } else {
            run
        },
    ) + (if run.len() > 50 {
        "- *... "@ + crate::text::dec_s((run.len() - 50) as nat) + " more*\n"@
    } else {
        Seq::<char>::empty()
    }) + "\n"@
}

/// Just past the run of records that share the tag of record `i`.
pub open spec fn tag_run_end(srt: Seq<CheckpointRecord>, i: int) -> int
    decreases srt.len() - i,
{
    if 0 <= i && i + 1 < srt.len() && srt[i + 1].tag@ == srt[i].tag@ {
        tag_run_end(srt, i + 1)
    } else {
        i + 1
    }
}

pub proof fn lemma_tag_run_end(srt: Seq<CheckpointRecord>, i: int)
    ensures
        tag_run_end(srt, i) > i,
        0 <= i < srt.len() ==> tag_run_end(srt, i) <= srt.len(),
    decreases srt.len() - i,
{
    if 0 <= i && i + 1 < srt.len() && srt[i + 1].tag@ == srt[i].tag@ {
        lemma_tag_run_end(srt, i + 1);
    }
}

/// The tag blocks of the ordered records from position `i` on.
pub open spec fn tag_blocks_from(srt: Seq<CheckpointRecord>, i: int) -> Seq<char>
    decreases srt.len() - i,
{
    if i < 0 || i >= srt.len() {
        Seq::empty()
    } else {
        let j = tag_run_end(srt, i);
        proof {
            lemma_tag_run_end(srt, i);
        }
        tag_block(srt.subrange(i, j)) + tag_blocks_from(srt, j)
    }
}

/// `recs` in the order `p`.
pub open spec fn permuted(recs: Seq<CheckpointRecord>, p: Seq<usize>) -> Seq<CheckpointRecord> {
    p.map_values(|k: usize| recs[k as int])
}

/// The listing order of records: by tag, then newest first.
pub open spec fn listing_order(recs: Seq<CheckpointRecord>) -> spec_fn(int, int) -> bool {
    crate::sort::text_then_count_desc(
        recs.map_values(|r: CheckpointRecord| r.tag@),
        recs.map_values(|r: CheckpointRecord| r.created_unix_ms),
    )
}

/// The block of namespace `ns`, its records listed in the order `p`; empty
/// when it holds none.
pub open spec fn namespace_block_s(ns: Seq<char>, recs: Seq<CheckpointRecord>, p: Seq<usize>) -> Seq<
    char,
> {
    if recs.len() == 0 {
        Seq::empty()
    } else {
        "\n### Namespace: `"@ + ns + "`\n\n"@ + tag_blocks_from(permuted(recs, p), 0)
    }
}

/// `text` is the block of namespace `ns`: its records grouped by tag in
/// ascending order, newest first within a tag (records alike in both keep
/// their order).
pub open spec fn is_namespace_block(ns: Seq<char>, recs: Seq<CheckpointRecord>, text: Seq<char>) -> bool {
    exists|p: Seq<usize>|
        #![trigger is_perm(p, recs.len())]
        is_perm(p, recs.len()) && crate::sort::sorted_by(p, listing_order(recs))
            && crate::sort::stable_by(p, listing_order(recs)) && text == namespace_block_s(ns, recs, p)
}

/// The listing block of one namespace.
pub fn namespace_block(ns: &str, recs: &Vec<CheckpointRecord>) -> (r: String)
    ensures
        is_namespace_block(ns@, recs@, r@),
{
    if recs.len() == 0 {
        let ghost w = Seq::<usize>::empty();
        assert(is_perm(w, recs.len() as nat) && crate::sort::sorted_by(w, listing_order(recs@))
            && crate::sort::stable_by(w, listing_order(recs@)) && Seq::<char>::empty()
            == namespace_block_s(ns@, recs@, w));
        return String::new();
    }
    let mut keys: Vec<Vec<char>> = Vec::new();
    let mut stamps: Vec<u64> = Vec::new();
    let mut k: usize = 0;
    while k < recs.len()
        invariant
            k <= recs.len(),
            keys@.map_values(|v: Vec<char>| v@) == recs@.map_values(|r: CheckpointRecord| r.tag@).take(
                k as int,
            ),
            stamps@ == recs@.map_values(|r: CheckpointRecord| r.created_unix_ms).take(k as int),
        decreases recs.len() - k,
    {
        let ghost old_keys = keys@;
        let kv = chars_of(recs[k].tag.as_str());
        keys.push(kv);
        stamps.push(recs[k].created_unix_ms);
        assert(keys@.map_values(|v: Vec<char>| v@) =~= old_keys.map_values(|v: Vec<char>| v@).push(
            kv@,
        ));
        assert(keys@.map_values(|v: Vec<char>| v@) =~= recs@.map_values(
            |r: CheckpointRecord| r.tag@,
        ).take(k + 1));
        assert(stamps@ =~= recs@.map_values(|r: CheckpointRecord| r.created_unix_ms).take(k + 1));
        k += 1;
    }
    assert(recs@.map_values(|r: CheckpointRecord| r.tag@).take(recs.len() as int) == recs@.map_values(
        |r: CheckpointRecord| r.tag@,
    ));
    assert(recs@.map_values(|r: CheckpointRecord| r.created_unix_ms).take(recs.len() as int)
        == recs@.map_values(|r: CheckpointRecord| r.created_unix_ms));
    let p = crate::sort::sort_perm_text_then_count_desc(&keys, &stamps);
    let ghost srt = permuted(recs@, p@);
    let n = p.len();
    let mut out = String::new();
    push_str(&mut out, "\n### Namespace: `");
    push_str(&mut out, ns);
    push_str(&mut out, "`\n\n");
    let ghost head = out@;
    let mut i: usize = 0;
    assert(srt.len() == n);
    while i < n
        invariant
            i <= n == p.len() == recs.len(),
            is_perm(p@, recs.len() as nat),
            srt == permuted(recs@, p@),
            out@ + tag_blocks_from(srt, i as int) == head + tag_blocks_from(srt, 0),
        decreases n - i,
    {
        let tag = &recs[p[i]].tag;
        let mut j = i + 1;
        while j < n && recs[p[j]].tag == *tag
            invariant
                i < j <= n == p.len() == recs.len(),
                is_perm(p@, recs.len() as nat),
                srt == permuted(recs@, p@),
                *tag == srt[i as int].tag,
                tag_run_end(srt, i as int) == tag_run_end(srt, j - 1),
                forall|q: int| i <= q < j ==> (#[trigger] srt[q]).tag@ == srt[i as int].tag@,
            decreases n - j,
        {
            assert(srt[j as int] == recs@[p@[j as int] as int]);
            j += 1;
        }
        proof {
            if j < n {
                assert(srt[j as int] == recs@[p@[j as int] as int]);
            }
            assert(tag_run_end(srt, j - 1) == j);
            lemma_tag_run_end(srt, i as int);
        }
        let ghost run = srt.subrange(i as int, j as int);
        let count = j - i;
        let shown = if count > 50 {
            50
        } else {
            count
        };
        let ghost kept = if run.len() > 50 {
            run.take(50)
        } else {
            run
        };
        assert(kept == run.take(shown as int));
        let mut block = String::new();
        push_str(&mut block, "#### `");
        push_str(&mut block, tag.as_str());
        push_str(&mut block, "`\n");
        let ghost bhead = block@;
        let mut q: usize = 0;
        while q < shown
            invariant
                q <= shown <= count == j - i,
                j <= n == p.len() == recs.len(),
                is_perm(p@, recs.len() as nat),
                srt == permuted(recs@, p@),
                run == srt.subrange(i as int, j as int),
                block@ == bhead + listed_lines(run.take(q as int)),
            decreases shown - q,
        {
            let r = &recs[p[i + q]];
            assert(run[q as int] == srt[i + q] && srt[i + q] == recs@[p@[i + q] as int]);
            assert(run.take(q + 1).drop_last() == run.take(q as int));
            push_str(&mut block, "- `");
            push_str(&mut block, r.symbol.as_str());
            push_str(&mut block, "` — `");
            push_str(&mut block, r.path.as_str());
            push_str(&mut block, "`\n");
            q += 1;
        }
        if count > 50 {
            push_str(&mut block, "- *... ");
            crate::text::push_dec(&mut block, (count - 50) as u64);
            push_str(&mut block, " more*\n");
        }
        push_str(&mut block, "\n");
        assert(run[0] == srt[i as int]);
        assert(block@ == tag_block(run));
        push_str(&mut out, block.as_str());
        i = j;
    }
    assert(is_perm(p@, recs.len() as nat) && crate::sort::sorted_by(p@, listing_order(recs@))
        && crate::sort::stable_by(p@, listing_order(recs@)) && out@ == namespace_block_s(
        ns@,
        recs@,
        p@,
    ));
    out
}

/// The blocks, one after another.
pub open spec fn blocks_text(blocks: Seq<Seq<char>>) -> Seq<char>
    decreases blocks.len(),
{
    if blocks.len() == 0 {
        Seq::empty()
    } else {
        blocks_text(blocks.drop_last()) + blocks.last()
    }
}

/// The whole listing of the namespace blocks `blocks`, in order: a heading
/// and the blocks, or a note that there are no checkpoints when every block is empty.
pub open spec fn listing_s(blocks: Seq<Seq<char>>) -> Seq<char> {
    let body = blocks_text(blocks);
    if body.len() == 0 {
        "*(no checkpoints yet)*"@
    } else {
        "## Checkpoints\n"@ + body
    }
}

/// The names of namespaces given with their records.
pub open spec fn namespace_names(named: Seq<(String, Vec<CheckpointRecord>)>) -> Seq<Seq<char>> {
    named.map_values(|x: (String, Vec<CheckpointRecord>)| x.0@)
}

/// `blocks` are the blocks of the namespaces in `named` taken in `order`,
/// then, when it holds any, of the legacy flat store.
pub open spec fn listing_blocks_ok(
    named: Seq<(String, Vec<CheckpointRecord>)>,
    legacy: Seq<CheckpointRecord>,
    order: Seq<usize>,
    blocks: Seq<Seq<char>>,
) -> bool {
    &&& is_perm(order, named.len())
    &&& crate::sort::orders(order, namespace_names(named))
    &&& crate::sort::stable(order, namespace_names(named))
    &&& blocks.len() == named.len() + if legacy.len() > 0 {
        1int
    } else {
        0int
    }
    &&& forall|k: int|
        0 <= k < named.len() ==> is_namespace_block(
            named[order[k] as int].0@,
            named[order[k] as int].1@,
            #[trigger] blocks[k],
        )
    &&& legacy.len() > 0 ==> is_namespace_block("(legacy)"@, legacy, blocks[named.len() as int])
}

/// The listing of all checkpoints: the namespaces `named` (each a name and
/// its records) ordered by name, then the legacy flat store when it holds
/// any; a note that there are none when no namespace holds a checkpoint.
pub fn checkpoint_listing(named: &Vec<(String, Vec<CheckpointRecord>)>, legacy: &Vec<CheckpointRecord>) -> (r:
    String)
    ensures
        exists|order: Seq<usize>, blocks: Seq<Seq<char>>|
            #![trigger listing_blocks_ok(named@, legacy@, order, blocks)]
            listing_blocks_ok(named@, legacy@, order, blocks) && r@ == listing_s(blocks),
{
    let mut names: Vec<Vec<char>> = Vec::new();
    let mut k: usize = 0;
    while k < named.len()
        invariant
            k <= named.len(),
            names@.map_values(|v: Vec<char>| v@) == namespace_names(named@).take(k as int),
        decreases named.len() - k,
    {
        let ghost old_names = names@;
        let nv = chars_of(named[k].0.as_str());
        names.push(nv);
        assert(names@.map_values(|v: Vec<char>| v@) =~= old_names.map_values(|v: Vec<char>| v@).push(
            nv@,
        ));
        assert(names@.map_values(|v: Vec<char>| v@) =~= namespace_names(named@).take(k + 1));
        k += 1;
    }
    assert(namespace_names(named@).take(named.len() as int) == namespace_names(named@));
    let order = crate::sort::sort_perm(&names);
    let ghost mut blocks: Seq<Seq<char>> = seq![];
    let mut body = String::new();
    let mut m: usize = 0;
    while m < order.len()
        invariant
            m <= order.len() == named.len(),
            is_perm(order@, named.len() as nat),
            blocks.len() == m,
            forall|q: int|
                0 <= q < m ==> is_namespace_block(
                    named@[order@[q] as int].0@,
                    named@[order@[q] as int].1@,
                    #[trigger] blocks[q],
                ),
            body@ == blocks_text(blocks),
        decreases order.len() - m,
    {
        let entry = &named[order[m]];
        let b = namespace_block(entry.0.as_str(), &entry.1);
        proof {
            assert(blocks.push(b@).drop_last() == blocks);
            blocks = blocks.push(b@);
        }
        push_str(&mut body, b.as_str());
        m += 1;
    }
    if legacy.len() > 0 {
        let b = namespace_block("(legacy)", legacy);
        proof {
            assert(blocks.push(b@).drop_last() == blocks);
            blocks = blocks.push(b@);
        }
        push_str(&mut body, b.as_str());
    }
    assert(listing_blocks_ok(named@, legacy@, order@, blocks));
    let bv = chars_of(body.as_str());
    if bv.len() == 0 {
        String::from_str("*(no checkpoints yet)*")
    } else {
        let mut out = String::new();
        push_str(&mut out, "## Checkpoints\n");
        push_str(&mut out, body.as_str());
        out
    }
}

/// The note for a namespace that holds no checkpoints yet.
pub fn empty_namespace_note(ns: &str) -> (r: String)
    ensures
        r@ == "*(no checkpoints in namespace '"@ + ns@ + "' yet)*"@,
{
    let mut m = String::new();
    push_str(&mut m, "*(no checkpoints in namespace '");
    push_str(&mut m, ns);
    push_str(&mut m, "' yet)*");
    m
}

// ───────────────────────── saving ─────────────────────────

/// A checkpoint request with its arguments as used.
#[derive(Debug, Clone)]
pub struct CheckpointRequest {
    pub tag: String,
    pub symbol: String,
    pub path: String,
    pub namespace: String,
}

/// The arguments of a save, trimmed, or the first one missing: tag, then
/// symbol, then path.
pub open spec fn checkpoint_request_s(
    path: Seq<char>,
    symbol: Seq<char>,
    tag: Seq<char>,
) -> Result<(Seq<char>, Seq<char>, Seq<char>), Seq<char>> {
    if trim_s(tag).len() == 0 {
        Err("Missing semantic tag"@)
    } else if trim_s(symbol).len() == 0 {
        Err("Missing symbol_name"@)
    } else if trim_s(path).len() == 0 {
        Err("Missing path"@)
    } else {
        Ok((trim_s(tag), trim_s(symbol), trim_s(path)))
    }
}

/// Checks the arguments of a save: tag, symbol and path must not be blank;
/// all are trimmed, and the namespace defaults to `default`.
pub fn checkpoint_request(path: &str, symbol_name: &str, tag: &str, namespace: Option<&str>) -> (r:
    Result<CheckpointRequest, String>)
    ensures
        match checkpoint_request_s(path@, symbol_name@, tag@) {
            Err(m) => r matches Err(e) && e@ == m,
            Ok((t, s, p)) => r matches Ok(q) && q.tag@ == t && q.symbol@ == s && q.path@ == p
                && q.namespace@ == namespace_s(crate::text::str_opt(namespace)),
        },
{
    let t = crate::text::trim_string(tag);
    if chars_of(t.as_str()).len() == 0 {
        return Err(String::from_str("Missing semantic tag"));
    }
    let s = crate::text::trim_string(symbol_name);
    if chars_of(s.as_str()).len() == 0 {
        return Err(String::from_str("Missing symbol_name"));
    }
    let p = crate::text::trim_string(path);
    if chars_of(p.as_str()).len() == 0 {
        return Err(String::from_str("Missing path"));
    }
    let raw = match namespace {
        Some(n) => crate::text::trim_string(n),
        None => {
            let d = crate::text::trim_string("default");
            proof {
                reveal_strlit("default");
                crate::text::lemma_trim_fixed("default"@);
            }
            d
        },
    };
    let ns = if chars_of(raw.as_str()).len() == 0 {
        String::from_str("default")
    } else {
        raw
    };
    Ok(CheckpointRequest { tag: t, symbol: s, path: p, namespace: ns })
}

/// The file a checkpoint is saved in: `<tag>__<symbol>__<created ms>.json`,
/// tag and symbol made safe for file names.
pub open spec fn checkpoint_file_name_s(tag: Seq<char>, symbol: Seq<char>, created_unix_ms: u64) -> Seq<
    char,
> {
    sanitize_s(tag) + "__"@ + sanitize_s(symbol) + "__"@ + crate::text::dec_s(created_unix_ms as nat)
        + ".json"@
}

/// The name of the file a checkpoint of `symbol` at `tag`, made at `created_unix_ms`, is saved in.
pub fn checkpoint_file_name(tag: &str, symbol: &str, created_unix_ms: u64) -> (r: String)
    ensures
        r@ == checkpoint_file_name_s(tag@, symbol@, created_unix_ms),
{
    let mut m = sanitize_for_filename(tag);
    push_str(&mut m, "__");
    let s = sanitize_for_filename(symbol);
    push_str(&mut m, s.as_str());
    push_str(&mut m, "__");
    crate::text::push_dec(&mut m, created_unix_ms);
    push_str(&mut m, ".json");
    m
}

/// The report of a saved checkpoint.
pub open spec fn saved_report_s(
    ns: Seq<char>,
    tag: Seq<char>,
    symbol: Seq<char>,
    path: Seq<char>,
    file: Seq<char>,
) -> Seq<char> {
    "Checkpoint saved.\n- namespace: `"@ + ns + "`\n- tag: `"@ + tag + "`\n- symbol: `"@ + symbol
        + "`\n- path: `"@ + path + "`\n- file: "@ + file
}

/// Reports a saved checkpoint.
pub fn saved_report(ns: &str, tag: &str, symbol: &str, path: &str, file: &str) -> (r: String)
    ensures
        r@ == saved_report_s(ns@, tag@, symbol@, path@, file@),
{
    let mut m = String::new();
    push_str(&mut m, "Checkpoint saved.\n- namespace: `");
    push_str(&mut m, ns);
    push_str(&mut m, "`\n- tag: `");
    push_str(&mut m, tag);
    push_str(&mut m, "`\n- symbol: `");
    push_str(&mut m, symbol);
    push_str(&mut m, "`\n- path: `");
    push_str(&mut m, path);
    push_str(&mut m, "`\n- file: ");
    push_str(&mut m, file);
    m
}

// ───────────────────────── paths as checkpoints record them ─────────────────────────

/// The part of `abs` below `base`, its components joined by `/`, when `abs`
/// lies under `base` (`Path::strip_prefix`).
pub open spec fn rel_under(abs: Seq<char>, base: Seq<char>) -> Option<Seq<char>> {
    if crate::workspace::path_starts_with(abs, base) {
        Some(
            crate::text::joined(
                crate::workspace::components_s(abs).skip(crate::workspace::components_s(base).len() as int),
                "/"@,
            ),
        )
    } else {
        None
    }
}

/// Index of the first of `roots` (from `k` on) that holds `abs`.
pub open spec fn first_root_under(roots: Seq<Seq<char>>, abs: Seq<char>, k: int) -> Option<int>
    decreases roots.len() - k,
{
    if k < 0 || k >= roots.len() {
        None
    } else if rel_under(abs, roots[k]) is Some {
        Some(k)
    } else {
        first_root_under(roots, abs, k + 1)
    }
}

/// The path of `abs` as checkpoints record it (all paths already
/// canonical): relative to the first workspace root holding it, prefixed
/// `[folder]` when there are several roots; else relative to `repo_root`;
/// else `abs` itself; with `/` separators and no leading `./`.
pub open spec fn checkpoint_rel_s(repo_root: Seq<char>, roots: Seq<Seq<char>>, abs: Seq<char>) -> Seq<char> {
    match first_root_under(roots, abs, 0) {
        Some(k) => {
            let out = crate::registry::normalize_rel_path_s(rel_under(abs, roots[k]).unwrap());
            if roots.len() > 1 {
                let folder = match crate::path::file_name_s(roots[k]) {
                    Some(f) => f,
                    None => "root"@,
                };
                if out.len() == 0 {
                    "["@ + folder + "]"@
                } else {
                    "["@ + folder + "]/"@ + out
                }
            } else {
                out
            }
        },
        None => crate::registry::normalize_rel_path_s(
            match rel_under(abs, repo_root) {
                Some(r) => r,
                None => abs,
            },
        ),
    }
}

fn rel_under_exec(abs: &str, base: &str) -> (r: Option<String>)
    ensures
        match rel_under(abs@, base@) {
            Some(x) => r matches Some(y) && y@ == x,
            None => r is None,
        },
{
    let ca = crate::workspace::components_of(&chars_of(abs));
    let cb = crate::workspace::components_of(&chars_of(base));
    let ghost va = ca@.map_values(|c: Vec<char>| c@);
    let ghost vb = cb@.map_values(|c: Vec<char>| c@);
    assert(va == crate::workspace::components_s(abs@));
    assert(vb == crate::workspace::components_s(base@));
    if cb.len() > ca.len() {
        return None;
    }
    let mut i: usize = 0;
    while i < cb.len()
        invariant
            i <= cb.len() <= ca.len(),
            va == ca@.map_values(|c: Vec<char>| c@),
            vb == cb@.map_values(|c: Vec<char>| c@),
            va == crate::workspace::components_s(abs@),
            vb == crate::workspace::components_s(base@),
            forall|j: int| 0 <= j < i ==> va[j] == vb[j],
        decreases cb.len() - i,
    {
        if !crate::text::chars_eq(&ca[i], &cb[i]) {
            assert(va.take(vb.len() as int)[i as int] != vb[i as int]);
            assert(va.take(vb.len() as int) != vb);
            return None;
        }
        i += 1;
    }
    assert(va.take(vb.len() as int) =~= vb);
    let ghost rest = va.skip(vb.len() as int);
    let mut out = String::new();
    let mut k: usize = cb.len();
    while k < ca.len()
        invariant
            cb.len() <= k <= ca.len(),
            va == ca@.map_values(|c: Vec<char>| c@),
            rest == va.skip(cb.len() as int),
            out@ == crate::text::joined(rest.take(k - cb.len()), "/"@),
        decreases ca.len() - k,
    {
        proof {
            reveal_strlit("/");
        }
        let ghost before = out@;
        let ghost t = rest.take(k - cb.len());
        if k > cb.len() {
            push_str(&mut out, "/");
        }
        push_chars(&mut out, &ca[k]);
        assert(rest.take(k + 1 - cb.len()).drop_last() == t);
        assert(rest.take(k + 1 - cb.len()).last() == va[k as int]);
        assert(rest.take(k + 1 - cb.len()).len() == 1 ==> rest.take(k + 1 - cb.len())[0] == va[k as int]);
        k += 1;
    }
    assert(rest.take(ca.len() - cb.len()) == rest);
    Some(out)
}

/// The path of `abs` as checkpoints record it; `repo_root`,
/// `workspace_roots` and `abs` are taken as canonical already.
pub fn checkpoint_rel_path(repo_root: &str, workspace_roots: &Vec<String>, abs: &str) -> (r: String)
    ensures
        r@ == checkpoint_rel_s(repo_root@, workspace_roots@.map_values(|s: String| s@), abs@),
{
    let ghost rv = workspace_roots@.map_values(|s: String| s@);
    let mut k: usize = 0;
    while k < workspace_roots.len()
        invariant
            k <= workspace_roots.len(),
            rv == workspace_roots@.map_values(|s: String| s@),
            first_root_under(rv, abs@, 0) == first_root_under(rv, abs@, k as int),
        decreases workspace_roots.len() - k,
    {
        assert(rv[k as int] == workspace_roots@[k as int]@);
        if let Some(rel) = rel_under_exec(abs, workspace_roots[k].as_str()) {
            let out = crate::registry::normalize_rel_path(rel.as_str());
            if workspace_roots.len() > 1 {
                let folder = match crate::path::file_name_string(&chars_of(workspace_roots[k].as_str())) {
                    Some(f) => f,
                    None => String::from_str("root"),
                };
                proof {
                    reveal_strlit("root");
                    reveal_strlit("[");
                    reveal_strlit("]");
                    reveal_strlit("]/");
                }
                let mut s = String::from_str("[");
                push_str(&mut s, folder.as_str());
                if chars_of(out.as_str()).len() == 0 {
                    push_str(&mut s, "]");
                } else {
                    push_str(&mut s, "]/");
                    push_str(&mut s, out.as_str());
                }
                return s;
            }
            return out;
        }
        k += 1;
    }
    match rel_under_exec(abs, repo_root) {
        Some(rel) => crate::registry::normalize_rel_path(rel.as_str()),
        None => crate::registry::normalize_rel_path(abs),
    }
}

} // verus!
