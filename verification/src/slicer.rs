//! Context slicing: the options of a scan, how files are ranked for the
//! context budget, how files without an outline are cut and headed, the
//! text that goes into CDATA sections, and the paths-only repository map.
use vstd::prelude::*;
use crate::text::{lower_s, strings_view};
use crate::path::{split_bounds, split_s};
use crate::sort::{is_perm, score_desc_then_text, sort_perm_score_desc_text, sorted_by, stable_by};
use crate::text::{
    byte_len, chars_of, fitting_prefix, fitting_prefix_len, push_chars, contains_s, ends_with_s, joined, occurs_at, push_char, push_str,
    skip_ws_backward, starts_with_s, string_of_range, trim_end_s,
};

verus! {

/// What a slice covered.
#[derive(Debug, Clone)]
pub struct SliceMeta {
    pub repo_root: String,
    pub target: String,
    pub budget_tokens: usize,
    pub total_tokens: usize,
    pub total_files: usize,
    pub total_bytes: u64,
}

// ───────────────────────── lower case ─────────────────────────

/// What `str::to_lowercase` gives for `s`.
pub uninterp spec fn lowercase(s: Seq<char>) -> Seq<char>;

/// `str::to_lowercase` (std): the Unicode lower-case form of `s`.  The
/// contract names the result as a function of `s` and states the ASCII
/// case, where Unicode maps `A`-`Z` to `a`-`z` and leaves every other ASCII
/// character as it is; the Unicode case tables beyond ASCII are left unstated.
#[verifier::external_body]
pub(crate) fn to_lowercase(s: &str) -> (r: String)
    ensures
        r@ == lowercase(s@),
        (forall|i: int| 0 <= i < s@.len() ==> ((#[trigger] s@[i]) as u32) < 128) ==> r@ == lower_s(
            s@,
        ),
{
    s.to_lowercase()
}

// ───────────────────────── headers ─────────────────────────

/// Whether a lower-cased path names a text or config file (`.md`, `.txt`,
/// `.toml`, `.yaml`, `.yml`).
pub open spec fn is_text_like(p: Seq<char>) -> bool {
    ends_with_s(p, ".md"@) || ends_with_s(p, ".txt"@) || ends_with_s(p, ".toml"@) || ends_with_s(
        p,
        ".yaml"@,
    ) || ends_with_s(p, ".yml"@)
}

pub open spec fn truncation_header_s(path: Seq<char>) -> Seq<char> {
    if is_text_like(lowercase(path)) {
        "# TRUNCATED\n"@
    } else {
        "/* TRUNCATED */\n"@
    }
}

fn ends(v: &[char], lit: &str) -> (r: bool)
    ensures
        r == ends_with_s(v@, lit@),
{
    let p = chars_of(lit);
    crate::text::ends_with(v, &p)
}

fn has(v: &[char], lit: &str) -> (r: bool)
    ensures
        r == contains_s(v@, lit@),
{
    let p = chars_of(lit);
    crate::text::contains(v, &p)
}

/// The comment that heads a truncated file, in the file's comment style.
pub fn truncation_header_for_path(rel_path: &str) -> (r: &'static str)
    ensures
        r@ == truncation_header_s(rel_path@),
{
    let l = to_lowercase(rel_path);
    let p = chars_of(l.as_str());
    if ends(&p, ".md") || ends(&p, ".txt") || ends(&p, ".toml") || ends(&p, ".yaml") || ends(
        &p,
        ".yml",
    ) {
        "# TRUNCATED\n"
    } else {
        "/* TRUNCATED */\n"
    }
}

/// Whether a lower-cased path ends like a Cargo or npm manifest.
pub open spec fn is_manifest_s(p: Seq<char>) -> bool {
    ends_with_s(p, "cargo.toml"@) || ends_with_s(p, "package.json"@)
}

/// Whether a path names a Cargo or npm manifest (any case).
pub fn is_manifest_file(rel_path: &str) -> (r: bool)
    ensures
        r == is_manifest_s(lowercase(rel_path@)),
{
    let l = to_lowercase(rel_path);
    let p = chars_of(l.as_str());
    ends(&p, "cargo.toml") || ends(&p, "package.json")
}

// ───────────────────────── ranking ─────────────────────────

/// Index just after the last `/` of `p` (0 when there is none).
pub open spec fn after_last_slash(p: Seq<char>, n: int) -> int
    decreases n,
{
    if n <= 0 {
        0
    } else if p[n - 1] == '/' {
        n
    } else {
        after_last_slash(p, n - 1)
    }
}

/// The file name part of a path: what follows its last `/`.
pub open spec fn file_part(p: Seq<char>) -> Seq<char> {
    p.subrange(after_last_slash(p, p.len() as int), p.len() as int)
}

/// Non-overlapping occurrences of `pat` in `p` from `i` on, left to right.
pub open spec fn count_matches(p: Seq<char>, pat: Seq<char>, i: int) -> nat
    decreases p.len() - i,
{
    if i < 0 || i >= p.len() || pat.len() == 0 {
        0
    } else if occurs_at(p, pat, i) {
        1 + count_matches(p, pat, i + pat.len())
    } else {
        count_matches(p, pat, i + 1)
    }
}

/// Number of `/` in `p`.
pub open spec fn slashes(p: Seq<char>) -> nat
    decreases p.len(),
{
    if p.len() == 0 {
        0
    } else {
        slashes(p.drop_last()) + if p.last() == '/' {
            1nat
        } else {
            0nat
        }
    }
}

pub open spec fn entry_points() -> Seq<Seq<char>> {
    seq![
        "main.rs"@, "lib.rs"@, "mod.rs"@, "build.rs"@, "index.ts"@, "index.tsx"@, "main.ts"@,
        "main.tsx"@, "app.tsx"@, "app.ts"@, "cli.ts"@, "cli.js"@, "main.go"@, "main.py"@,
        "__init__.py"@,
    ]
}

pub open spec fn service_files() -> Seq<Seq<char>> {
    seq![
        "server.rs"@, "handler.rs"@, "handlers.rs"@, "routes.rs"@, "router.rs"@, "api.rs"@,
        "controller.rs"@, "service.rs"@, "app.rs"@, "server.ts"@, "handler.ts"@, "routes.ts"@,
        "router.ts"@, "api.ts"@, "controller.ts"@, "service.ts"@, "server.py"@, "app.py"@,
    ]
}

/// Whether a lower-cased path looks like a test.
pub open spec fn is_test_path(p: Seq<char>, f: Seq<char>) -> bool {
    contains_s(p, "/test/"@) || contains_s(p, "/tests/"@) || contains_s(p, "/test_"@) || contains_s(
        f,
        ".spec."@,
    ) || contains_s(f, ".test."@) || contains_s(f, "_test."@) || starts_with_s(f, "test_"@)
}

/// `v` when `b` holds, else 0.
#[verifier::opaque]
pub open spec fn when(b: bool, v: int) -> int {
    if b {
        v
    } else {
        0
    }
}

/// The penalty of a path with `depth` slashes: 5 for each slash beyond six.
pub open spec fn depth_penalty(depth: nat) -> int {
    if depth > 6 {
        -(depth - 6) * 5
    } else {
        0
    }
}

/// The score made of the observations on a path: test-like, entry point,
/// service file, number of `/src/`, core directory, manifest, doc file,
/// config file, build output, and number of `/`.
pub open spec fn score_of(
    test: bool,
    entry: bool,
    service: bool,
    src: nat,
    core: bool,
    manifest: bool,
    doc: bool,
    config: bool,
    build: bool,
    depth: nat,
) -> int {
    when(test, -1000) + when(entry, 120) + when(service, 90) + 30 * src + when(core, 25) + when(
        manifest,
        60,
    ) + when(doc, 10) + when(config, 5) + when(build, -30) + depth_penalty(depth)
}

/// `x` held to the range of `i64` (reached only by paths of more than 10^17 characters).
pub open spec fn clamp_i64(x: int) -> int {
    if x > i64::MAX {
        i64::MAX as int
    } else if x < i64::MIN {
        i64::MIN as int
    } else {
        x
    }
}

/// How important a (lower-cased) path is for the context budget: tests are
/// pushed down, entry points and service files up, each `/src/` adds,
/// core and shared directories, manifests, docs and config add, build
/// output and very deep paths subtract.
pub open spec fn score_s(p: Seq<char>) -> int {
    let f = file_part(p);
    score_of(
        is_test_path(p, f),
        entry_points().contains(f),
        service_files().contains(f),
        count_matches(p, "/src/"@, 0),
        contains_s(p, "/core/"@) || contains_s(p, "/lib/"@) || contains_s(p, "/common/"@)
            || contains_s(p, "/shared/"@),
        is_manifest_s(p),
        f == "readme.md"@ || ends_with_s(f, ".md"@),
        ends_with_s(f, ".toml"@) || ends_with_s(f, ".yaml"@) || ends_with_s(f, ".yml"@)
            || ends_with_s(f, ".json"@),
        contains_s(p, "/dist/"@) || contains_s(p, "/target/"@) || contains_s(p, "/generated/"@)
            || contains_s(p, "/migrations/"@),
        slashes(p),
    )
}

fn in_list(v: &Vec<char>, names: &[&str]) -> (r: bool)
    ensures
        r == names@.map_values(|n: &str| n@).contains(v@),
{
    let ghost nv = names@.map_values(|n: &str| n@);
    let mut i: usize = 0;
    while i < names.len()
        invariant
            i <= names.len(),
            nv == names@.map_values(|n: &str| n@),
            forall|j: int| 0 <= j < i ==> nv[j] != v@,
        decreases names.len() - i,
    {
        assert(nv[i as int] == names@[i as int]@);
        let t = chars_of(names[i]);
        if crate::text::chars_eq(v.as_slice(), t.as_slice()) {
            return true;
        }
        i += 1;
    }
    false
}

fn count_src(p: &Vec<char>) -> (n: usize)
    ensures
        n == count_matches(p@, "/src/"@, 0),
        n <= p.len(),
{
    let pat = chars_of("/src/");
    proof {
        reveal_strlit("/src/");
    }
    let mut i: usize = 0;
    let mut n: usize = 0;
    while i < p.len()
        invariant
            i <= p.len(),
            pat@ == "/src/"@,
            pat@.len() == 5,
            n <= i,
            n + count_matches(p@, pat@, i as int) == count_matches(p@, pat@, 0),
        decreases p.len() - i,
    {
        if crate::text::matches_at(p.as_slice(), i, pat.as_slice()) {
            n += 1;
            i += 5;
        } else {
            i += 1;
        }
    }
    proof {
        assert(count_matches(p@, pat@, i as int) == 0);
    }
    n
}

fn count_slashes(p: &Vec<char>) -> (n: usize)
    ensures
        n == slashes(p@),
        n <= p.len(),
{
    let mut i: usize = 0;
    let mut n: usize = 0;
    while i < p.len()
        invariant
            i <= p.len(),
            n <= i,
            n == slashes(p@.take(i as int)),
        decreases p.len() - i,
    {
        assert(p@.take(i + 1).drop_last() == p@.take(i as int));
        if p[i] == '/' {
            n += 1;
        }
        i += 1;
    }
    assert(p@.take(p.len() as int) == p@);
    n
}

fn file_part_exec(p: &Vec<char>) -> (f: Vec<char>)
    ensures
        f@ == file_part(p@),
{
    let n = p.len();
    let mut a = n;
    while a > 0 && p[a - 1] != '/'
        invariant
            a <= n == p.len(),
            after_last_slash(p@, n as int) == after_last_slash(p@, a as int),
        decreases a,
    {
        a -= 1;
    }
    crate::z4::slice_chars(p.as_slice(), a, n)
}

fn test_like(p: &Vec<char>, f: &Vec<char>) -> (r: bool)
    ensures
        r == is_test_path(p@, f@),
{
    has(p, "/test/") || has(p, "/tests/") || has(p, "/test_") || has(f, ".spec.") || has(
        f,
        ".test.",
    ) || has(f, "_test.") || crate::text::starts_with(f.as_slice(), chars_of("test_").as_slice())
}

fn entry_point(f: &Vec<char>) -> (r: bool)
    ensures
        r == entry_points().contains(f@),
{
    let entries: [&str; 15] = [
        "main.rs", "lib.rs", "mod.rs", "build.rs", "index.ts", "index.tsx", "main.ts", "main.tsx",
        "app.tsx", "app.ts", "cli.ts", "cli.js", "main.go", "main.py", "__init__.py",
    ];
    assert(entries@.map_values(|n: &str| n@) =~= entry_points());
    in_list(f, &entries)
}

fn service_file(f: &Vec<char>) -> (r: bool)
    ensures
        r == service_files().contains(f@),
{
    let services: [&str; 18] = [
        "server.rs", "handler.rs", "handlers.rs", "routes.rs", "router.rs", "api.rs",
        "controller.rs", "service.rs", "app.rs", "server.ts", "handler.ts", "routes.ts",
        "router.ts", "api.ts", "controller.ts", "service.ts", "server.py", "app.py",
    ];
    assert(services@.map_values(|n: &str| n@) =~= service_files());
    in_list(f, &services)
}

fn core_dir(p: &Vec<char>) -> (r: bool)
    ensures
        r == (contains_s(p@, "/core/"@) || contains_s(p@, "/lib/"@) || contains_s(p@, "/common/"@)
            || contains_s(p@, "/shared/"@)),
{
    has(p, "/core/") || has(p, "/lib/") || has(p, "/common/") || has(p, "/shared/")
}

fn doc_file(f: &Vec<char>) -> (r: bool)
    ensures
        r == (f@ == "readme.md"@ || ends_with_s(f@, ".md"@)),
{
    let readme = chars_of("readme.md");
    crate::text::chars_eq(f.as_slice(), readme.as_slice()) || ends(f, ".md")
}

fn config_file(f: &Vec<char>) -> (r: bool)
    ensures
        r == (ends_with_s(f@, ".toml"@) || ends_with_s(f@, ".yaml"@) || ends_with_s(f@, ".yml"@)
            || ends_with_s(f@, ".json"@)),
{
    ends(f, ".toml") || ends(f, ".yaml") || ends(f, ".yml") || ends(f, ".json")
}

fn build_output(p: &Vec<char>) -> (r: bool)
    ensures
        r == (contains_s(p@, "/dist/"@) || contains_s(p@, "/target/"@) || contains_s(
            p@,
            "/generated/"@,
        ) || contains_s(p@, "/migrations/"@)),
{
    has(p, "/dist/") || has(p, "/target/") || has(p, "/generated/") || has(p, "/migrations/")
}

fn when_exec(b: bool, v: i128) -> (r: i128)
    ensures
        r == when(b, v as int),
{
    proof {
        reveal(when);
    }
    if b {
        v
    } else {
        0
    }
}

#[verifier::spinoff_prover]
#[verifier::rlimit(40)]
fn combine_score(
    test: bool,
    entry: bool,
    service: bool,
    src: usize,
    core: bool,
    manifest: bool,
    doc: bool,
    config: bool,
    build: bool,
    depth: usize,
) -> (r: i64)
    ensures
        r == clamp_i64(score_of(test, entry, service, src as nat, core, manifest, doc, config, build, depth as nat)),
{
    let a1 = when_exec(test, -1000);
    let a2 = when_exec(entry, 120);
    let a3 = when_exec(service, 90);
    let a4: i128 = (src as i128) * 30;
    let a5 = when_exec(core, 25);
    let a6 = when_exec(manifest, 60);
    let a7 = when_exec(doc, 10);
    let a8 = when_exec(config, 5);
    let a9 = when_exec(build, -30);
    let d = depth as i128;
    let a10: i128 = if d > 6 {
        -((d - 6) * 5)
    } else {
        0
    };
    assert(-1000 <= a1 <= 0 && 0 <= a2 <= 120 && 0 <= a3 <= 90 && 0 <= a5 <= 25 && 0 <= a6 <= 60
        && 0 <= a7 <= 10 && 0 <= a8 <= 5 && -30 <= a9 <= 0) by {
        reveal(when);
    }
    let total: i128 = a1 + a2 + a3 + a4 + a5 + a6 + a7 + a8 + a9 + a10;
    if total > (i64::MAX as i128) {
        i64::MAX
    } else if total < (i64::MIN as i128) {
        i64::MIN
    } else {
        total as i64
    }
}

/// How important an already lower-cased path is for the context budget
/// (higher is kept first).
pub fn importance_score_of_lowercase(p: &str) -> (r: i64)
    ensures
        r == clamp_i64(score_s(p@)),
{
    let p = chars_of(p);
    let f = file_part_exec(&p);
    let t = test_like(&p, &f);
    let e = entry_point(&f);
    let sv = service_file(&f);
    let src = count_src(&p);
    let c = core_dir(&p);
    let m = ends(&p, "cargo.toml") || ends(&p, "package.json");
    let d = doc_file(&f);
    let cf = config_file(&f);
    let b = build_output(&p);
    let depth = count_slashes(&p);
    combine_score(t, e, sv, src, c, m, d, cf, b, depth)
}

/// How important a path is for the context budget (higher is kept first):
/// the score of its lower-cased form.
pub fn importance_score(rel_path: &str) -> (r: i64)
    ensures
        r == clamp_i64(score_s(lowercase(rel_path@))),
{
    let l = to_lowercase(rel_path);
    importance_score_of_lowercase(l.as_str())
}

/// Bytes a file's XML wrapper adds besides its content: 33 plus its path.
pub fn estimate_xml_file_overhead_bytes(rel_path: &str) -> (r: u64)
    requires
        byte_len(rel_path@) <= u64::MAX - 33,
        byte_len(rel_path@) <= usize::MAX,
    ensures
        r == 33 + byte_len(rel_path@),
{
    proof {
        crate::text::lemma_str_len(rel_path);
    }
    33u64 + (rel_path.len() as u64)
}

/// Bytes the repository map's XML wrapper adds besides its content.
pub fn estimate_xml_repository_map_overhead_bytes() -> (r: u64)
    ensures
        r == 40,
{
    40
}

// ───────────────────────── repository map ─────────────────────────

/// The repository map lines for the paths from `k` on, `bytes` bytes
/// written so far: each path on its own line, stopping with a truncation
/// line before the 4001st line or before 64 KiB would be exceeded.
pub open spec fn map_lines_from(paths: Seq<Seq<char>>, k: int, bytes: nat) -> Seq<char>
    decreases paths.len() - k,
{
    if k < 0 || k >= paths.len() {
        seq![]
    } else if k >= 4000 || bytes + byte_len(paths[k]) + 1 > 65536 {
        "# ... (truncated)\n"@
    } else {
        paths[k] + "\n"@ + map_lines_from(paths, k + 1, bytes + byte_len(paths[k]) + 1)
    }
}

/// The paths-only repository map.
pub open spec fn repository_map_s(paths: Seq<Seq<char>>) -> Seq<char> {
    "# REPOSITORY_MAP\n"@ + map_lines_from(paths, 0, 17)
}

/// Lists the paths of a repository, one per line, within the map's caps.
pub fn build_repository_map_text(all_paths: &Vec<String>) -> (r: String)
    requires
        forall|k: int| 0 <= k < all_paths.len() ==> byte_len((#[trigger] all_paths@[k])@) <= usize::MAX,
    ensures
        r@ == repository_map_s(strings_view(all_paths@)),
{
    let ghost pv = strings_view(all_paths@);
    let mut out = String::from_str("# REPOSITORY_MAP\n");
    proof {
        reveal_strlit("# REPOSITORY_MAP\n");
    }
    let ghost head = out@;
    let mut bytes_written: usize = 17;
    let mut k: usize = 0;
    let mut stopped = false;
    while k < all_paths.len() && !stopped
        invariant
            k <= all_paths.len(),
            pv == strings_view(all_paths@),
            bytes_written <= 65536,
            forall|j: int| 0 <= j < all_paths.len() ==> byte_len((#[trigger] all_paths@[j])@) <= usize::MAX,
            !stopped ==> out@ + map_lines_from(pv, k as int, bytes_written as nat) == head
                + map_lines_from(pv, 0, 17),
            stopped ==> out@ == head + map_lines_from(pv, 0, 17),
        decreases all_paths.len() - k, (if stopped { 0int } else { 1int }),
    {
        let p = all_paths[k].as_str();
        assert(pv[k as int] == p@);
        proof {
            crate::text::lemma_str_len(p);
        }
        if k >= 4000 {
            push_str(&mut out, "# ... (truncated)\n");
            stopped = true;
        } else {
            let len = p.len();
            if len >= 65536 || bytes_written + len + 1 > 65536 {
                push_str(&mut out, "# ... (truncated)\n");
                stopped = true;
            } else {
                let ghost before = out@;
                let ghost rest = map_lines_from(pv, k + 1, (bytes_written + len + 1) as nat);
                assert(map_lines_from(pv, k as int, bytes_written as nat) == p@ + "\n"@ + rest);
                push_str(&mut out, p);
                push_str(&mut out, "\n");
                assert(out@ + rest == before + (p@ + "\n"@ + rest));
                bytes_written = bytes_written + len + 1;
                k += 1;
            }
        }
    }
    out
}

// ───────────────────────── text for CDATA sections ─────────────────────────

/// A blank that `crunch_text_for_cdata` drops at a line's end.
pub open spec fn is_line_blank(c: char) -> bool {
    c == ' ' || c == '\t' || c == '\r'
}

/// `s` without its trailing blanks.
pub open spec fn trim_blanks_end(s: Seq<char>) -> Seq<char>
    decreases s.len(),
{
    if s.len() > 0 && is_line_blank(s.last()) {
        trim_blanks_end(s.drop_last())
    } else {
        s
    }
}

/// Every line of `s` without its trailing blanks; newlines kept.
pub open spec fn trim_line_ends(s: Seq<char>) -> Seq<char> {
    joined(split_s(s, '\n').map_values(|l: Seq<char>| trim_blanks_end(l)), "\n"@)
}

/// `s` with each newline that directly follows a newline dropped.
pub open spec fn collapse_newlines(s: Seq<char>) -> Seq<char>
    decreases s.len(),
{
    if s.len() == 0 {
        s
    } else {
        let t = s.drop_last();
        if s.last() == '\n' && t.len() > 0 && t.last() == '\n' {
            collapse_newlines(t)
        } else {
            collapse_newlines(t).push(s.last())
        }
    }
}

/// The text that goes into a CDATA section: line-end blanks removed, runs
/// of newlines collapsed to one, trailing whitespace trimmed.
pub open spec fn crunched(s: Seq<char>) -> Seq<char> {
    trim_end_s(collapse_newlines(trim_line_ends(s)))
}

proof fn lemma_trim_blanks_take(s: Seq<char>, e: int)
    requires
        0 <= e <= s.len(),
        forall|j: int| e <= j < s.len() ==> is_line_blank(#[trigger] s[j]),
        e > 0 ==> !is_line_blank(s[e - 1]),
    ensures
        trim_blanks_end(s) == s.take(e),
    decreases s.len(),
{
    if s.len() > e {
        let t = s.drop_last();
        assert forall|j: int| e <= j < t.len() implies is_line_blank(#[trigger] t[j]) by {
            assert(t[j] == s[j]);
        }
        if e > 0 {
            assert(t[e - 1] == s[e - 1]);
        }
        lemma_trim_blanks_take(t, e);
        assert(t.take(e) == s.take(e));
    } else {
        assert(s.take(e) == s);
    }
}

proof fn lemma_collapsed_no_double_newline(s: Seq<char>)
    ensures
        forall|i: int|
            0 <= i < collapse_newlines(s).len() - 1 ==> !(#[trigger] collapse_newlines(s)[i] == '\n'
                && collapse_newlines(s)[i + 1] == '\n'),
        s.len() > 0 ==> collapse_newlines(s).len() > 0 && collapse_newlines(s).last() == s.last(),
    decreases s.len(),
{
    if s.len() > 0 {
        let t = s.drop_last();
        lemma_collapsed_no_double_newline(t);
        let ct = collapse_newlines(t);
        if !(s.last() == '\n' && t.len() > 0 && t.last() == '\n') {
            let r = ct.push(s.last());
            assert forall|i: int| 0 <= i < r.len() - 1 implies !(#[trigger] r[i] == '\n' && r[i + 1]
                == '\n') by {
                if i < ct.len() - 1 {
                    assert(r[i] == ct[i] && r[i + 1] == ct[i + 1]);
                } else {
                    assert(r[i] == ct.last());
                }
            }
        }
    }
}

/// Text prepared for a CDATA section never holds an empty line: no newline
/// directly follows another.
pub proof fn law_crunched_has_no_empty_lines(s: Seq<char>)
    ensures
        forall|i: int|
            0 <= i < crunched(s).len() - 1 ==> !(#[trigger] crunched(s)[i] == '\n' && crunched(
                s,
            )[i + 1] == '\n'),
{
    let c = collapse_newlines(trim_line_ends(s));
    lemma_collapsed_no_double_newline(trim_line_ends(s));
    crate::text::lemma_trim_end_shape(c);
    let r = crunched(s);
    assert forall|i: int| 0 <= i < r.len() - 1 implies !(#[trigger] r[i] == '\n' && r[i + 1]
        == '\n') by {
        assert(r[i] == c[i] && r[i + 1] == c[i + 1]);
    }
}

/// Text prepared for a CDATA section: each line loses its trailing spaces,
/// tabs and carriage returns, blank-line runs shrink to one newline, and
/// trailing whitespace goes.
pub fn crunch_text_for_cdata(input: &str) -> (r: String)
    ensures
        r@ == crunched(input@),
{
    let v = chars_of(input);
    let segs = split_bounds(&v, '\n');
    let ghost ss = split_s(v@, '\n');
    let ghost ts = ss.map_values(|l: Seq<char>| trim_blanks_end(l));
    let mut lines: Vec<char> = Vec::new();
    let mut k: usize = 0;
    while k < segs.len()
        invariant
            k <= segs.len() == ss.len(),
            ss == split_s(v@, '\n'),
            ts == ss.map_values(|l: Seq<char>| trim_blanks_end(l)),
            forall|q: int|
                0 <= q < segs.len() ==> {
                    let (a, b) = #[trigger] segs@[q];
                    &&& a <= b <= v.len()
                    &&& v@.subrange(a as int, b as int) == ss[q]
                },
            lines@ == joined(ts.take(k as int), "\n"@),
        decreases segs.len() - k,
    {
        let (a, b) = segs[k];
        let mut e = b;
        while e > a && (v[e - 1] == ' ' || v[e - 1] == '\t' || v[e - 1] == '\r')
            invariant
                a <= e <= b <= v.len(),
                forall|j: int| e <= j < b ==> is_line_blank(#[trigger] v@[j]),
            decreases e - a,
        {
            e -= 1;
        }
        proof {
            let seg = v@.subrange(a as int, b as int);
            assert forall|j: int| e - a <= j < seg.len() implies is_line_blank(#[trigger] seg[j]) by {
                assert(seg[j] == v@[a + j]);
            }
            if e > a {
                assert(seg[e - a - 1] == v@[e - 1]);
            }
            lemma_trim_blanks_take(seg, e - a);
            assert(seg.take(e - a) == v@.subrange(a as int, e as int));
            assert(ts.take(k + 1).drop_last() == ts.take(k as int));
            assert(ts[k as int] == v@.subrange(a as int, e as int));
            assert(ts.take(k + 1).last() == ts[k as int]);
            reveal_strlit("\n");
        }
        let ghost before = lines@;
        if k > 0 {
            lines.push('\n');
        } else {
            assert(ts.take(0) == Seq::<Seq<char>>::empty());
        }
        let ghost mid = lines@;
        let mut j = a;
        while j < e
            invariant
                a <= j <= e <= v.len(),
                lines@ == mid + v@.subrange(a as int, j as int),
            decreases e - j,
        {
            lines.push(v[j]);
            j += 1;
            assert(v@.subrange(a as int, j as int) == v@.subrange(a as int, j - 1).push(v@[j - 1]));
        }
        k += 1;
    }
    assert(ts.take(segs.len() as int) == ts);
    let mut col: Vec<char> = Vec::new();
    let mut i: usize = 0;
    while i < lines.len()
        invariant
            i <= lines.len(),
            col@ == collapse_newlines(lines@.take(i as int)),
        decreases lines.len() - i,
    {
        assert(lines@.take(i + 1).drop_last() == lines@.take(i as int));
        if !(lines[i] == '\n' && i > 0 && lines[i - 1] == '\n') {
            col.push(lines[i]);
        }
        i += 1;
    }
    assert(lines@.take(lines.len() as int) == lines@);
    let end = skip_ws_backward(&col, 0, col.len());
    assert(col@.subrange(0, col.len() as int) == col@);
    string_of_range(&col, 0, end)
}

// ───────────────────────── files of unknown kind ─────────────────────────

/// The lines kept of a file of unknown kind: those of its first 2048 bytes,
/// at most 50.
pub open spec fn unknown_kept_lines(content: Seq<char>) -> Seq<Seq<char>> {
    let ls = crate::z4::lines_s(fitting_prefix(content, 2048));
    if ls.len() > 50 {
        ls.take(50)
    } else {
        ls
    }
}

/// A file of unknown kind was cut: it has more than 2048 bytes or more than 50 lines.
pub open spec fn unknown_was_cut(content: Seq<char>) -> bool {
    byte_len(content) > 2048 || crate::z4::lines_s(content).len() > 50
}

/// What a context slice shows of a file it has no outline for.
pub open spec fn unknown_file_view(rel_path: Seq<char>, content: Seq<char>) -> Seq<char> {
    truncation_header_s(rel_path) + joined(unknown_kept_lines(content), "\n"@) + "\n"@ + if unknown_was_cut(
        content,
    ) {
        "\n/* ... */\n"@
    } else {
        Seq::<char>::empty()
    }
}

/// A file with no outline, shown in a context slice: the header for its
/// path, then its first 50 lines within its first 2048 bytes (never
/// splitting a character), and a `/* ... */` marker when anything was left out.
pub fn truncate_unknown(rel_path: &str, content: &str) -> (r: String)
    ensures
        r@ == unknown_file_view(rel_path@, content@),
{
    let v = chars_of(content);
    let k = fitting_prefix_len(&v, 2048);
    let mut head: Vec<char> = Vec::new();
    let mut i: usize = 0;
    while i < k
        invariant
            i <= k <= v.len(),
            head@ == v@.take(i as int),
        decreases k - i,
    {
        head.push(v[i]);
        i += 1;
        assert(v@.take(i as int) == v@.take(i - 1).push(v@[i - 1]));
    }
    let ls = crate::act::lines_of(&head);
    let ghost lv = crate::z4::lines_s(head@);
    let n: usize = if ls.len() > 50 {
        50
    } else {
        ls.len()
    };
    let ghost kept = lv.take(n as int);
    assert(kept == unknown_kept_lines(content@)) by {
        if lv.len() <= 50 {
            assert(lv.take(n as int) == lv);
        }
    }
    let mut body = String::new();
    let mut j: usize = 0;
    while j < n
        invariant
            j <= n <= ls.len() == lv.len(),
            forall|q: int| 0 <= q < ls.len() ==> (#[trigger] ls@[q])@ == lv[q],
            body@ == joined(kept.take(j as int), "\n"@),
            kept == lv.take(n as int),
        decreases n - j,
    {
        proof {
            reveal_strlit("\n");
            assert(kept.take(j + 1).drop_last() == kept.take(j as int));
            assert(kept.take(j + 1).last() == lv[j as int]);
            if j == 0 {
                assert(kept.take(0) == Seq::<Seq<char>>::empty());
            }
        }
        if j > 0 {
            push_str(&mut body, "\n");
        }
        push_chars(&mut body, ls[j].as_slice());
        j += 1;
    }
    assert(kept.take(n as int) == kept);
    let all = crate::act::lines_of(&v);
    let cs = content;
    proof {
        crate::text::lemma_str_len(cs);
    }
    let total = cs.as_bytes().len();
    let mut out = String::new();
    push_str(&mut out, truncation_header_for_path(rel_path));
    push_str(&mut out, body.as_str());
    push_str(&mut out, "\n");
    if total > 2048 || all.len() > 50 {
        push_str(&mut out, "\n/* ... */\n");
    }
    out
}

// ───────────────────────── scan options ─────────────────────────

/// The directories a context scan skips: version control, dependencies, the
/// tool's own output, the configured ones, then `target` and `dist` unless
/// the scan's target directory is itself named so.
pub open spec fn scan_excludes_s(
    output_dir: Seq<char>,
    configured: Seq<Seq<char>>,
    target_name: Seq<char>,
) -> Seq<Seq<char>> {
    seq![".git"@, "node_modules"@, output_dir] + configured + (if target_name != "target"@ {
        seq!["target"@]
    } else {
        Seq::<Seq<char>>::empty()
    }) + (if target_name != "dist"@ {
        seq!["dist"@]
    } else {
        Seq::<Seq<char>>::empty()
    })
}

/// The last component of the scan target, made absolute against the root.
pub open spec fn target_name_s(repo_root: Seq<char>, target: Seq<char>) -> Seq<char> {
    let abs = if crate::path::is_absolute_s(target) {
        target
    } else {
        crate::path::join_s(repo_root, target)
    };
    match crate::path::file_name_s(abs) {
        Some(f) => f,
        None => Seq::empty(),
    }
}

/// The scan options of a context slice of `target` under `repo_root`.
pub fn build_scan_options(repo_root: &str, target: &str, cfg: &crate::config::Config) -> (r:
    crate::scanner::ScanOptions)
    ensures
        r.repo_root@ == repo_root@,
        r.target@ == target@,
        r.workspace_roots.len() == 0,
        r.extra_glob_excludes.len() == 0,
        r.max_file_bytes == cfg.token_estimator.max_file_bytes,
        r.exclude_dir_names@.map_values(|s: String| s@) == scan_excludes_s(
            cfg.output_dir@,
            cfg.scan.exclude_dir_names@.map_values(|s: String| s@),
            target_name_s(repo_root@, target@),
        ),
{
    let mut ex: Vec<String> = Vec::new();
    ex.push(String::from_str(".git"));
    ex.push(String::from_str("node_modules"));
    ex.push(cfg.output_dir.clone());
    let ghost conf = cfg.scan.exclude_dir_names@.map_values(|s: String| s@);
    let ghost base = seq![".git"@, "node_modules"@, cfg.output_dir@];
    assert(ex@.map_values(|s: String| s@) =~= base);
    let mut i: usize = 0;
    while i < cfg.scan.exclude_dir_names.len()
        invariant
            i <= cfg.scan.exclude_dir_names.len(),
            conf == cfg.scan.exclude_dir_names@.map_values(|s: String| s@),
            ex@.map_values(|s: String| s@) == base + conf.take(i as int),
        decreases cfg.scan.exclude_dir_names.len() - i,
    {
        let ghost before = ex@.map_values(|s: String| s@);
        let d = cfg.scan.exclude_dir_names[i].clone();
        ex.push(d);
        assert(ex@.map_values(|s: String| s@) =~= before.push(conf[i as int]));
        assert(conf.take(i + 1) =~= conf.take(i as int).push(conf[i as int]));
        i += 1;
    }
    assert(conf.take(cfg.scan.exclude_dir_names.len() as int) == conf);
    let tv = chars_of(target);
    let abs = if tv.len() > 0 && tv[0] == '/' {
        String::from_str(target)
    } else {
        crate::pathing::join_path(repo_root, target)
    };
    proof {
        reveal_strlit("/");
    }
    let av = chars_of(abs.as_str());
    let name: Vec<char> = match crate::path::file_name_string(&av) {
        Some(f) => chars_of(f.as_str()),
        None => Vec::new(),
    };
    let tname = chars_of("target");
    let dname = chars_of("dist");
    let ghost mid = ex@.map_values(|s: String| s@);
    if !crate::text::chars_eq(name.as_slice(), tname.as_slice()) {
        ex.push(String::from_str("target"));
        assert(ex@.map_values(|s: String| s@) =~= mid.push("target"@));
    }
    let ghost mid2 = ex@.map_values(|s: String| s@);
    if !crate::text::chars_eq(name.as_slice(), dname.as_slice()) {
        ex.push(String::from_str("dist"));
        assert(ex@.map_values(|s: String| s@) =~= mid2.push("dist"@));
    }
    crate::scanner::ScanOptions {
        repo_root: String::from_str(repo_root),
        target: String::from_str(target),
        max_file_bytes: cfg.token_estimator.max_file_bytes,
        exclude_dir_names: ex,
        workspace_roots: Vec::new(),
        extra_glob_excludes: Vec::new(),
    }
}

// ───────────────────────── budgets of a huge codebase ─────────────────────────

/// Tokens for `bytes` bytes at `cpt` bytes per token, rounded up; the byte
/// count itself when `cpt` is 0. (The same number as the ceiling of the
/// floating-point quotient for every byte count below 2^53.)
pub open spec fn tokens_for(bytes: nat, cpt: nat) -> nat {
    if cpt == 0 {
        bytes
    } else if bytes % cpt == 0 {
        bytes / cpt
    } else {
        bytes / cpt + 1
    }
}

fn tokens_wide(bytes: u128, cpt: usize) -> (r: u128)
    requires
        bytes < u128::MAX,
    ensures
        r == tokens_for(bytes as nat, cpt as nat),
{
    if cpt == 0 {
        bytes
    } else {
        let c = cpt as u128;
        if bytes % c == 0 {
            bytes / c
        } else {
            bytes / c + 1
        }
    }
}

/// The token budget of each member: an equal share (members counted as at
/// least one), raised to `min_member_budget`, capped at the whole budget.
pub open spec fn per_member_budget_s(budget: nat, members: nat, min_member_budget: nat) -> nat {
    let share = budget / (if members == 0 { 1 } else { members });
    let raised = if share < min_member_budget { min_member_budget } else { share };
    if raised > budget { budget } else { raised }
}

/// The token budget of the workspace root's own files: a tenth of the
/// budget, kept between 500 and 2000.
pub open spec fn root_budget_s(budget: nat) -> nat {
    let t = budget / 10;
    if t < 500 { 500 } else if t > 2000 { 2000 } else { t }
}

/// The per-member budget and the root budget of a huge-codebase slice.
pub fn huge_budgets(budget_tokens: usize, member_count: usize, min_member_budget: usize) -> (r: (
    usize,
    usize,
))
    ensures
        r.0 == per_member_budget_s(budget_tokens as nat, member_count as nat, min_member_budget as nat),
        r.1 == root_budget_s(budget_tokens as nat),
{
    let m = if member_count == 0 { 1 } else { member_count };
    let share = budget_tokens / m;
    let raised = if share < min_member_budget { min_member_budget } else { share };
    let per = if raised > budget_tokens { budget_tokens } else { raised };
    let t = budget_tokens / 10;
    let root = if t < 500 { 500 } else if t > 2000 { 2000 } else { t };
    (per, root)
}

/// Sum of `s`.
pub open spec fn sum_u64(s: Seq<u64>) -> nat
    decreases s.len(),
{
    if s.len() == 0 {
        0
    } else {
        sum_u64(s.drop_last()) + s.last() as nat
    }
}

/// How many of the workspace root's files are taken: files go in, in order,
/// while their bytes (`added`, wrapper included) add up to at most four
/// bytes per token of `root_budget`; the first that would pass it ends the
/// root section.
pub fn root_files_taken(added: &Vec<u64>, root_budget: usize) -> (k: usize)
    ensures
        k <= added.len(),
        sum_u64(added@.take(k as int)) <= 4 * root_budget,
        k == added.len() || sum_u64(added@.take(k + 1)) > 4 * root_budget,
{
    let limit: u128 = 4 * (root_budget as u128);
    let mut used: u128 = 0;
    let mut k: usize = 0;
    while k < added.len()
        invariant
            k <= added.len(),
            limit == 4 * root_budget,
            used == sum_u64(added@.take(k as int)),
            used <= limit,
        decreases added.len() - k,
    {
        assert(added@.take(k + 1).drop_last() == added@.take(k as int));
        if used + (added[k] as u128) > limit {
            return k;
        }
        used = used + added[k] as u128;
        k += 1;
    }
    assert(added@.take(added.len() as int) == added@);
    k
}

/// `x` capped at `u64::MAX`.
pub open spec fn sat64(x: nat) -> nat {
    if x > u64::MAX { u64::MAX as nat } else { x }
}

/// The running byte count of a member and which of its files are kept:
/// each file, in order, is kept when the member's bytes with it still come
/// to at most `budget` tokens, and skipped otherwise.
pub open spec fn member_fold(added: Seq<u64>, cpt: nat, budget: nat) -> (nat, Seq<bool>)
    decreases added.len(),
{
    if added.len() == 0 {
        (0, seq![])
    } else {
        let (mb, ks) = member_fold(added.drop_last(), cpt, budget);
        if tokens_for(mb + added.last() as nat, cpt) > budget {
            (mb, ks.push(false))
        } else {
            (sat64(mb + added.last() as nat), ks.push(true))
        }
    }
}

/// Which of a member's files (their bytes, wrapper included, in order of
/// importance) go into its slice under its token budget.
pub fn member_files_kept(added: &Vec<u64>, chars_per_token: usize, member_budget: usize) -> (r: Vec<bool>)
    ensures
        r@ == member_fold(added@, chars_per_token as nat, member_budget as nat).1,
{
    let mut mb: u64 = 0;
    let mut r: Vec<bool> = Vec::new();
    let mut k: usize = 0;
    while k < added.len()
        invariant
            k <= added.len(),
            (mb as nat, r@) == member_fold(added@.take(k as int), chars_per_token as nat, member_budget as nat),
        decreases added.len() - k,
    {
        assert(added@.take(k + 1).drop_last() == added@.take(k as int));
        assert(added@.take(k + 1).last() == added@[k as int]);
        let total: u128 = mb as u128 + added[k] as u128;
        if tokens_wide(total, chars_per_token) > member_budget as u128 {
            r.push(false);
        } else {
            mb = mb.saturating_add(added[k]);
            r.push(true);
        }
        k += 1;
    }
    assert(added@.take(added.len() as int) == added@);
    r
}

/// The order in which a member's files are offered to its budget: by
/// importance (the path's score plus ten per file that links to it)
/// descending, then by path; files alike in both keep their order.
pub fn member_file_order(rels: &Vec<String>, indegrees: &Vec<usize>) -> (p: Vec<usize>)
    requires
        rels.len() == indegrees.len(),
    ensures
        is_perm(p@, rels.len() as nat),
        sorted_by(
            p@,
            score_desc_then_text(
                Seq::new(
                    rels.len() as nat,
                    |i: int| clamp_i64(score_s(lowercase(rels@[i]@))) + 10 * indegrees@[i],
                ),
                rels@.map_values(|s: String| s@),
            ),
        ),
        stable_by(
            p@,
            score_desc_then_text(
                Seq::new(
                    rels.len() as nat,
                    |i: int| clamp_i64(score_s(lowercase(rels@[i]@))) + 10 * indegrees@[i],
                ),
                rels@.map_values(|s: String| s@),
            ),
        ),
{
    let mut scores: Vec<i128> = Vec::new();
    let mut keys: Vec<Vec<char>> = Vec::new();
    let mut i: usize = 0;
    while i < rels.len()
        invariant
            i <= rels.len() == indegrees.len(),
            scores.len() == i,
            keys.len() == i,
            forall|j: int|
                0 <= j < i ==> #[trigger] scores@[j] == clamp_i64(score_s(lowercase(rels@[j]@))) + 10
                    * indegrees@[j],
            forall|j: int| 0 <= j < i ==> (#[trigger] keys@[j])@ == rels@[j]@,
        decreases rels.len() - i,
    {
        let s = importance_score(rels[i].as_str()) as i128 + 10 * (indegrees[i] as i128);
        scores.push(s);
        keys.push(chars_of(rels[i].as_str()));
        i += 1;
    }
    assert(scores@.map_values(|x: i128| x as int) =~= Seq::new(
        rels.len() as nat,
        |i: int| clamp_i64(score_s(lowercase(rels@[i]@))) + 10 * indegrees@[i],
    ));
    assert(keys@.map_values(|k: Vec<char>| k@) =~= rels@.map_values(|s: String| s@));
    sort_perm_score_desc_text(&scores, &keys)
}

// ───────────────────────── repository map of a huge codebase ─────────────────────────

/// The section of one member in the map of a huge codebase.
pub open spec fn member_section_s(name: Seq<char>, rel: Seq<char>, paths: Seq<Seq<char>>) -> Seq<char> {
    "# "@ + name + " ("@ + rel + ")\n"@ + joined(paths, "\n"@)
}

/// A member (name, relative path, its files' paths) as plain values.
pub open spec fn member_view(m: (String, String, Vec<String>)) -> (Seq<char>, Seq<char>, Seq<Seq<char>>) {
    (m.0@, m.1@, m.2@.map_values(|s: String| s@))
}

/// The sections of the map: the root's (when the root was scanned), then
/// one per member that has files.
pub open spec fn huge_sections_s(root_scanned: bool, members: Seq<(Seq<char>, Seq<char>, Seq<Seq<char>>)>) -> Seq<Seq<char>>
    decreases members.len(),
{
    if members.len() == 0 {
        if root_scanned { seq!["# ROOT (workspace root)\n"@] } else { seq![] }
    } else {
        let r = huge_sections_s(root_scanned, members.drop_last());
        let m = members.last();
        if m.2.len() > 0 { r.push(member_section_s(m.0, m.1, m.2)) } else { r }
    }
}

/// The sections joined by newlines.
pub open spec fn huge_sections_text(root_scanned: bool, members: Seq<(String, String, Vec<String>)>) -> Seq<char> {
    joined(huge_sections_s(root_scanned, members.map_values(|m: (String, String, Vec<String>)| member_view(m))), "\n"@)
}

/// The largest map text kept, in bytes.
pub open spec fn huge_map_cap() -> nat {
    98304
}

/// The repository map of a huge codebase: a header, then the sections
/// joined by newlines, cut at 96 KiB with a note when longer.
pub fn huge_repository_map_text(root_scanned: bool, members: &Vec<(String, String, Vec<String>)>) -> (r: String)
    requires
        byte_len(huge_sections_text(root_scanned, members@)) <= huge_map_cap() || exists|k: int|
            0 <= k <= huge_sections_text(root_scanned, members@).len() && byte_len(
                #[trigger] huge_sections_text(root_scanned, members@).take(k),
            ) == huge_map_cap(),
    ensures
        ({
            let t = huge_sections_text(root_scanned, members@);
            r@ == "# REPOSITORY_MAP\n"@ + fitting_prefix(t, huge_map_cap()) + if byte_len(t) > huge_map_cap() {
                "\n# ... (truncated)\n"@
            } else {
                ""@
            }
        }),
{
    let ghost mv = members@.map_values(|m: (String, String, Vec<String>)| member_view(m));
    let mut sections: Vec<String> = Vec::new();
    if root_scanned {
        sections.push(String::from_str("# ROOT (workspace root)\n"));
    }
    assert(sections@.map_values(|s: String| s@) =~= huge_sections_s(root_scanned, mv.take(0)));
    let mut i: usize = 0;
    while i < members.len()
        invariant
            i <= members.len(),
            mv == members@.map_values(|m: (String, String, Vec<String>)| member_view(m)),
            sections@.map_values(|s: String| s@) == huge_sections_s(root_scanned, mv.take(i as int)),
        decreases members.len() - i,
    {
        assert(mv.take(i + 1).drop_last() == mv.take(i as int));
        assert(mv.take(i + 1).last() == member_view(members@[i as int]));
        if members[i].2.len() > 0 {
            let mut sec = String::from_str("# ");
            push_str(&mut sec, members[i].0.as_str());
            push_str(&mut sec, " (");
            push_str(&mut sec, members[i].1.as_str());
            push_str(&mut sec, ")\n");
            let body = crate::store::join_strings(&members[i].2, "\n");
            push_str(&mut sec, body.as_str());
            let ghost before = sections@.map_values(|s: String| s@);
            sections.push(sec);
            assert(sections@.map_values(|s: String| s@) == before.push(
                member_section_s(members@[i as int].0@, members@[i as int].1@, members@[i as int].2@.map_values(|s: String| s@)),
            ));
        }
        i += 1;
    }
    assert(mv.take(members.len() as int) == mv);
    let text = crate::store::join_strings(&sections, "\n");
    assert(text@ == huge_sections_text(root_scanned, members@));
    let v = chars_of(text.as_str());
    let k = fitting_prefix_len(&v, 98304);
    let mut out = String::from_str("# REPOSITORY_MAP\n");
    let cut = string_of_range(&v, 0, k);
    assert(v@.subrange(0, k as int) == v@.take(k as int));
    push_str(&mut out, cut.as_str());
    assert(cut@ == fitting_prefix(huge_sections_text(root_scanned, members@), huge_map_cap()));
    let ts = text.as_str();
    proof {
        crate::text::lemma_str_len(ts);
    }
    if ts.as_bytes().len() > 98304 {
        assert(byte_len(text@) > huge_map_cap());
        push_str(&mut out, "\n# ... (truncated)\n");
    } else {
        assert(byte_len(text@) <= huge_map_cap());
        proof {
            reveal_strlit("");
        }
        assert(out@ == out@ + ""@);
    }
    out
}

/// What a file contributes to a workspace slice: a `Cargo.toml` its compact
/// form when there is one, a `package.json` its compact form when it parses;
/// a root-level file its truncated head; in skeleton mode a member file its
/// skeleton when there is one, else its truncated head; otherwise its whole
/// text.
pub open spec fn slice_content_s(
    rel: Seq<char>,
    content: Seq<char>,
    root_level: bool,
    skeleton_mode: bool,
    skeleton: Option<Seq<char>>,
    cargo_compact: Option<Seq<char>>,
) -> Seq<char> {
    let l = lowercase(rel);
    if ends_with_s(l, "cargo.toml"@) {
        match cargo_compact {
            Some(c) => c,
            None => content,
        }
    } else if ends_with_s(l, "package.json"@) {
        match crate::package_json::compact_package_s(content) {
            Some(c) => c,
            None => content,
        }
    } else if root_level {
        unknown_file_view(rel, content)
    } else if skeleton_mode {
        match skeleton {
            Some(k) => k,
            None => unknown_file_view(rel, content),
        }
    } else {
        content
    }
}

/// What a file contributes to a workspace slice (see `slice_content_s`);
/// the caller supplies the compact `Cargo.toml` and the skeleton, which
/// need parsers of their own.
pub fn slice_content(
    rel: &str,
    content: String,
    root_level: bool,
    skeleton_mode: bool,
    skeleton: Option<String>,
    cargo_compact: Option<String>,
) -> (r: String)
    ensures
        r@ == slice_content_s(
            rel@,
            content@,
            root_level,
            skeleton_mode,
            crate::text::opt_view(skeleton),
            crate::text::opt_view(cargo_compact),
        ),
{
    let l = chars_of(to_lowercase(rel).as_str());
    let cargo = chars_of("cargo.toml");
    let pkg = chars_of("package.json");
    if crate::text::ends_with(&l, &cargo) {
        match cargo_compact {
            Some(c) => c,
            None => content,
        }
    } else if crate::text::ends_with(&l, &pkg) {
        match crate::package_json::compact_package_json(content.as_str()) {
            Some(c) => c,
            None => content,
        }
    } else if root_level {
        truncate_unknown(rel, content.as_str())
    } else if skeleton_mode {
        match skeleton {
            Some(k) => k,
            None => truncate_unknown(rel, content.as_str()),
        }
    } else {
        content
    }
}

} // verus!
