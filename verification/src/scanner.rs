//! Workspace scanning: the files found, the options of a scan, and the
//! comment stripping that `.code-workspace` files (JSON with comments) need.
use vstd::prelude::*;
use crate::path::{is_absolute_s, join_s};
use crate::pathing::join_path;
use crate::text::{chars_of, push_str, string_of, trim_s};

verus! {

/// A file found by a scan.
#[derive(Debug, Clone)]
pub struct FileEntry {
    pub abs_path: String,
    pub rel_path: String,
    pub bytes: u64,
}

/// What to scan and what to skip.
#[derive(Debug, Clone)]
pub struct ScanOptions {
    pub repo_root: String,
    pub target: String,
    pub max_file_bytes: u64,
    pub exclude_dir_names: Vec<String>,
    /// Further roots of a multi-root workspace; their files are listed under `[FolderName]/`.
    pub workspace_roots: Vec<String>,
    /// Further exclusion globs, each starting with `!`.
    pub extra_glob_excludes: Vec<String>,
}

impl ScanOptions {
    /// The directory the scan starts from: the target itself when absolute,
    /// else the target under the repository root.
    pub fn target_root(&self) -> (r: String)
        ensures
            r@ == (if is_absolute_s(self.target@) {
                self.target@
            } else {
                join_s(self.repo_root@, self.target@)
            }),
    {
        let t = chars_of(self.target.as_str());
        if t.len() > 0 && t[0] == '/' {
            self.target.clone()
        } else {
            join_path(self.repo_root.as_str(), self.target.as_str())
        }
    }
}

/// Where a reader of JSON with comments stands.
#[derive(Debug, Clone, Copy, PartialEq, Eq)]
pub enum JsoncState {
    /// Outside strings and comments.
    Code,
    /// Inside a string literal.
    Str,
    /// Inside a string literal, just after a backslash.
    Esc,
    /// Inside a `//` comment.
    Comment,
}

/// What is left of `s`, read from state `st`, once its `//` comments are
/// gone: string literals are kept whole (a backslash in one escapes the next
/// character, so `\"` does not end it); a `//` outside strings starts a
/// comment that runs to the end of its line, whose newline is kept.
pub open spec fn jsonc_strip_s(s: Seq<char>, st: JsoncState) -> Seq<char>
    decreases s.len(),
{
    if s.len() == 0 {
        Seq::empty()
    } else {
        let c = s[0];
        let rest = s.drop_first();
        match st {
            JsoncState::Esc => seq![c] + jsonc_strip_s(rest, JsoncState::Str),
            JsoncState::Str => if c == '\\' {
                seq![c] + jsonc_strip_s(rest, JsoncState::Esc)
            } else if c == '"' {
                seq![c] + jsonc_strip_s(rest, JsoncState::Code)
            } else {
                seq![c] + jsonc_strip_s(rest, JsoncState::Str)
            },
            JsoncState::Comment => if c == '\n' {
                seq!['\n'] + jsonc_strip_s(rest, JsoncState::Code)
            } else {
                jsonc_strip_s(rest, JsoncState::Comment)
            },
            JsoncState::Code => if c == '"' {
                seq![c] + jsonc_strip_s(rest, JsoncState::Str)
            } else if c == '/' && rest.len() > 0 && rest[0] == '/' {
                jsonc_strip_s(rest, JsoncState::Comment)
            } else {
                seq![c] + jsonc_strip_s(rest, JsoncState::Code)
            },
        }
    }
}

proof fn lemma_strip_unfold(c: char, t: Seq<char>)
    ensures
        (seq![c] + t)[0] == c,
        (seq![c] + t).drop_first() == t,
        (seq![c] + t).len() == t.len() + 1,
{
    assert((seq![c] + t).drop_first() =~= t);
}

proof fn lemma_strip_stable(s: Seq<char>, st: JsoncState)
    ensures
        st != JsoncState::Comment ==> jsonc_strip_s(jsonc_strip_s(s, st), st) == jsonc_strip_s(
            s,
            st,
        ),
        st == JsoncState::Comment ==> jsonc_strip_s(jsonc_strip_s(s, st), JsoncState::Code)
            == jsonc_strip_s(s, st),
    decreases s.len(),
{
    if s.len() > 0 {
        let c = s[0];
        let rest = s.drop_first();
        match st {
            JsoncState::Esc => {
                lemma_strip_stable(rest, JsoncState::Str);
                lemma_strip_unfold(c, jsonc_strip_s(rest, JsoncState::Str));
            },
            JsoncState::Str => {
                if c == '\\' {
                    lemma_strip_stable(rest, JsoncState::Esc);
                    lemma_strip_unfold(c, jsonc_strip_s(rest, JsoncState::Esc));
                } else if c == '"' {
                    lemma_strip_stable(rest, JsoncState::Code);
                    lemma_strip_unfold(c, jsonc_strip_s(rest, JsoncState::Code));
                } else {
                    lemma_strip_stable(rest, JsoncState::Str);
                    lemma_strip_unfold(c, jsonc_strip_s(rest, JsoncState::Str));
                }
            },
            JsoncState::Comment => {
                if c == '\n' {
                    lemma_strip_stable(rest, JsoncState::Code);
                    lemma_strip_unfold('\n', jsonc_strip_s(rest, JsoncState::Code));
                } else {
                    lemma_strip_stable(rest, JsoncState::Comment);
                }
            },
            JsoncState::Code => {
                if c == '"' {
                    lemma_strip_stable(rest, JsoncState::Str);
                    lemma_strip_unfold(c, jsonc_strip_s(rest, JsoncState::Str));
                } else if c == '/' && rest.len() > 0 && rest[0] == '/' {
                    lemma_strip_stable(rest, JsoncState::Comment);
                } else {
                    lemma_strip_stable(rest, JsoncState::Code);
                    let y = jsonc_strip_s(rest, JsoncState::Code);
                    lemma_strip_unfold(c, y);
                    if c == '/' && rest.len() > 0 {
                        let r0 = rest[0];
                        let rr = rest.drop_first();
                        if r0 == '"' {
                            lemma_strip_unfold(r0, jsonc_strip_s(rr, JsoncState::Str));
                        } else {
                            lemma_strip_unfold(r0, jsonc_strip_s(rr, JsoncState::Code));
                        }
                        assert(y.len() > 0 && y[0] == r0);
                        assert((seq![c] + y).drop_first()[0] != '/');
                    }
                }
            },
        }
    }
}

/// Stripping comments is done at once: what is left has none to strip.
pub proof fn law_jsonc_strip_idempotent(s: Seq<char>)
    ensures
        jsonc_strip_s(jsonc_strip_s(s, JsoncState::Code), JsoncState::Code) == jsonc_strip_s(
            s,
            JsoncState::Code,
        ),
{
    lemma_strip_stable(s, JsoncState::Code);
}

/// Removes `//` line comments from JSON with comments, keeping string
/// literals (with their escapes) intact.
pub fn strip_jsonc_comments(s: &str) -> (r: String)
    ensures
        r@ == jsonc_strip_s(s@, JsoncState::Code),
{
    let v = chars_of(s);
    let mut out: Vec<char> = Vec::new();
    let mut st = JsoncState::Code;
    let mut i: usize = 0;
    assert(v@.skip(0) == v@);
    assert(out@ + jsonc_strip_s(v@, st) == jsonc_strip_s(v@, st));
    while i < v.len()
        invariant
            i <= v.len(),
            out@ + jsonc_strip_s(v@.skip(i as int), st) == jsonc_strip_s(v@, JsoncState::Code),
        decreases v.len() - i,
    {
        let c = v[i];
        let ghost rest = v@.skip(i + 1);
        assert(v@.skip(i as int).drop_first() == rest);
        assert(v@.skip(i as int)[0] == c);
        let ghost old_out = out@;
        let ghost old_st = st;
        match st {
            JsoncState::Esc => {
                out.push(c);
                st = JsoncState::Str;
            },
            JsoncState::Str => {
                out.push(c);
                if c == '\\' {
                    st = JsoncState::Esc;
                } else if c == '"' {
                    st = JsoncState::Code;
                }
            },
            JsoncState::Comment => {
                if c == '\n' {
                    out.push('\n');
                    st = JsoncState::Code;
                }
            },
            JsoncState::Code => {
                if c == '"' {
                    out.push(c);
                    st = JsoncState::Str;
                } else if c == '/' && i + 1 < v.len() && v[i + 1] == '/' {
                    assert(rest[0] == v@[i + 1]);
                    st = JsoncState::Comment;
                } else {
                    if c == '/' && i + 1 < v.len() {
                        assert(rest[0] == v@[i + 1]);
                    }
                    out.push(c);
                }
            },
        }
        assert(out@ + jsonc_strip_s(rest, st) == old_out + jsonc_strip_s(v@.skip(i as int), old_st))
            by {
            assert(old_out.push(c) + jsonc_strip_s(rest, st) == old_out + (seq![c]
                + jsonc_strip_s(rest, st)));
            assert(old_out.push('\n') + jsonc_strip_s(rest, st) == old_out + (seq!['\n']
                + jsonc_strip_s(rest, st)));
        }
        i += 1;
    }
    assert(v@.skip(v.len() as int) == Seq::<char>::empty());
    assert(out@ + Seq::<char>::empty() == out@);
    string_of(out.as_slice())
}

// ───────────────────────── default exclusions ─────────────────────────

/// Lockfiles, source maps, images and build artefacts that a scan skips.
pub open spec fn junk_file_globs() -> Seq<Seq<char>> {
    seq![
        "!**/*.lock"@,
        "!**/package-lock.json"@,
        "!**/pnpm-lock.yaml"@,
        "!**/yarn.lock"@,
        "!**/Cargo.lock"@,
        "!**/*.map"@,
        "!**/*.svg"@,
        "!**/*.png"@,
        "!**/*.ico"@,
        "!**/*.jpg"@,
        "!**/*.jpeg"@,
        "!**/*.gif"@,
        "!**/*.pyc"@,
        "!**/*.pyo"@,
        "!**/*.pyd"@,
        "!**/*.class"@,
        "!**/*.o"@,
        "!**/*.a"@,
        "!**/*.so"@,
        "!**/*.dylib"@,
        "!**/*.dll"@,
        "!**/*.exe"@,
        "!**/*.wasm"@,
        "!**/*.min.js"@,
        "!**/*.min.css"@,
    ]
}

/// Directories of tools, dependencies and build output that a scan skips.
pub open spec fn heavy_dir_names() -> Seq<Seq<char>> {
    seq![
        ".git"@,
        "node_modules"@,
        "dist"@,
        "build"@,
        "coverage"@,
        ".next"@,
        ".nuxt"@,
        ".vscode-test"@,
        ".vscode"@,
        "out"@,
        ".cortexast"@,
        ".turbo"@,
        ".svelte-kit"@,
        "target"@,
        "__pycache__"@,
        ".venv"@,
        "venv"@,
        ".env"@,
        "env"@,
        ".tox"@,
        ".pytest_cache"@,
        ".mypy_cache"@,
        ".ruff_cache"@,
        "htmlcov"@,
        ".hypothesis"@,
        "site-packages"@,
        ".dart_tool"@,
        ".pub"@,
        ".pub-cache"@,
        ".flutter-plugins"@,
        ".flutter-plugins-dependencies"@,
        "vendor"@,
        ".bundle"@,
        ".gradle"@,
        ".m2"@,
        ".cortexast"@,
        ".terraform"@,
        ".serverless"@,
        "tmp"@,
        "temp"@,
        "logs"@,
        ".cache"@,
    ]
}

/// The two exclusion globs of a directory: itself and all below it.
pub open spec fn dir_globs(d: Seq<char>) -> Seq<Seq<char>> {
    seq!["!**/"@ + d, "!**/"@ + d + "/**"@]
}

/// The exclusion globs of directories `ds`, in order.
pub open spec fn dirs_globs(ds: Seq<Seq<char>>) -> Seq<Seq<char>>
    decreases ds.len(),
{
    if ds.len() == 0 {
        Seq::empty()
    } else {
        dirs_globs(ds.drop_last()) + dir_globs(ds.last())
    }
}

/// `s` without leading and trailing `/`.
pub open spec fn trim_slashes(s: Seq<char>) -> Seq<char>
    decreases s.len(),
{
    if s.len() > 0 && s[0] == '/' {
        trim_slashes(s.drop_first())
    } else if s.len() > 0 && s.last() == '/' {
        trim_slashes(s.drop_last())
    } else {
        s
    }
}

/// The project's own excluded directory names, trimmed of whitespace and
/// slashes, blanks dropped.
pub open spec fn project_dir_names(names: Seq<Seq<char>>) -> Seq<Seq<char>>
    decreases names.len(),
{
    if names.len() == 0 {
        Seq::empty()
    } else {
        let d = trim_slashes(trim_s(names.last()));
        project_dir_names(names.drop_last()) + if d.len() == 0 {
            Seq::<Seq<char>>::empty()
        } else {
            seq![d]
        }
    }
}

/// Further globs, trimmed, blanks dropped.
pub open spec fn extra_globs(patterns: Seq<Seq<char>>) -> Seq<Seq<char>>
    decreases patterns.len(),
{
    if patterns.len() == 0 {
        Seq::empty()
    } else {
        let p = trim_s(patterns.last());
        extra_globs(patterns.drop_last()) + if p.len() == 0 {
            Seq::<Seq<char>>::empty()
        } else {
            seq![p]
        }
    }
}

/// Every exclusion glob of a scan, in the order they are added.
pub open spec fn override_globs_s(names: Seq<Seq<char>>, extras: Seq<Seq<char>>) -> Seq<Seq<char>> {
    junk_file_globs() + dirs_globs(heavy_dir_names()) + dirs_globs(project_dir_names(names))
        + extra_globs(extras)
}

fn trim_slashes_exec(v: &[char], lo: usize, hi: usize) -> (r: (usize, usize))
    requires
        lo <= hi <= v.len(),
    ensures
        lo <= r.0 <= r.1 <= hi,
        v@.subrange(r.0 as int, r.1 as int) == trim_slashes(v@.subrange(lo as int, hi as int)),
    decreases hi - lo,
{
    if lo < hi && v[lo] == '/' {
        assert(v@.subrange(lo as int, hi as int).drop_first() == v@.subrange(lo + 1, hi as int));
        trim_slashes_exec(v, lo + 1, hi)
    } else if lo < hi && v[hi - 1] == '/' {
        assert(v@.subrange(lo as int, hi as int).drop_last() == v@.subrange(lo as int, hi - 1));
        trim_slashes_exec(v, lo, hi - 1)
    } else {
        (lo, hi)
    }
}

fn push_dir_globs(out: &mut Vec<String>, d: &str)
    ensures
        final(out)@.map_values(|s: String| s@) == old(out)@.map_values(|s: String| s@) + dir_globs(d@),
{
    let ghost before = out@.map_values(|s: String| s@);
    let mut a = String::new();
    push_str(&mut a, "!**/");
    push_str(&mut a, d);
    let mut b = String::new();
    push_str(&mut b, "!**/");
    push_str(&mut b, d);
    push_str(&mut b, "/**");
    out.push(a);
    out.push(b);
    assert(out@.map_values(|s: String| s@) =~= before + dir_globs(d@));
}

proof fn lemma_dirs_globs_push(ds: Seq<Seq<char>>, d: Seq<char>)
    ensures
        dirs_globs(ds.push(d)) == dirs_globs(ds) + dir_globs(d),
{
    assert(ds.push(d).drop_last() == ds);
}

/// The exclusion globs a scan adds to its walker: the built-in lists of
/// junk files and heavy directories, then the project's excluded
/// directories, then further globs (from workspace settings or the caller).
pub fn default_override_globs(exclude_dir_names: &Vec<String>, extra_glob_excludes: &Vec<String>) -> (r: Vec<
    String,
>)
    ensures
        r@.map_values(|s: String| s@) == override_globs_s(
            exclude_dir_names@.map_values(|s: String| s@),
            extra_glob_excludes@.map_values(|s: String| s@),
        ),
{
    let mut junk: Vec<&str> = Vec::new();
    junk.push("!**/*.lock");
    junk.push("!**/package-lock.json");
    junk.push("!**/pnpm-lock.yaml");
    junk.push("!**/yarn.lock");
    junk.push("!**/Cargo.lock");
    junk.push("!**/*.map");
    junk.push("!**/*.svg");
    junk.push("!**/*.png");
    junk.push("!**/*.ico");
    junk.push("!**/*.jpg");
    junk.push("!**/*.jpeg");
    junk.push("!**/*.gif");
    junk.push("!**/*.pyc");
    junk.push("!**/*.pyo");
    junk.push("!**/*.pyd");
    junk.push("!**/*.class");
    junk.push("!**/*.o");
    junk.push("!**/*.a");
    junk.push("!**/*.so");
    junk.push("!**/*.dylib");
    junk.push("!**/*.dll");
    junk.push("!**/*.exe");
    junk.push("!**/*.wasm");
    junk.push("!**/*.min.js");
    junk.push("!**/*.min.css");
    assert(junk@.map_values(|s: &str| s@) =~= junk_file_globs());
    let mut out: Vec<String> = Vec::new();
    let mut i: usize = 0;
    while i < junk.len()
        invariant
            i <= junk.len(),
            junk@.map_values(|s: &str| s@) == junk_file_globs(),
            out@.map_values(|s: String| s@) == junk_file_globs().take(i as int),
        decreases junk.len() - i,
    {
        let ghost before = out@.map_values(|s: String| s@);
        let mut g = String::new();
        push_str(&mut g, junk[i]);
        assert(g@ == junk@[i as int]@);
        assert(junk@.map_values(|s: &str| s@)[i as int] == junk@[i as int]@);
        let ghost gv = g@;
        out.push(g);
        assert(out@.map_values(|s: String| s@) =~= before.push(gv));
        assert(junk_file_globs().take(i + 1) =~= junk_file_globs().take(i as int).push(gv));
        assert(out@.map_values(|s: String| s@) =~= junk_file_globs().take(i + 1));
        i += 1;
    }
    assert(junk_file_globs().take(junk.len() as int) == junk_file_globs());
    let mut dirs: Vec<&str> = Vec::new();
    dirs.push(".git");
    dirs.push("node_modules");
    dirs.push("dist");
    dirs.push("build");
    dirs.push("coverage");
    dirs.push(".next");
    dirs.push(".nuxt");
    dirs.push(".vscode-test");
    dirs.push(".vscode");
    dirs.push("out");
    dirs.push(".cortexast");
    dirs.push(".turbo");
    dirs.push(".svelte-kit");
    dirs.push("target");
    dirs.push("__pycache__");
    dirs.push(".venv");
    dirs.push("venv");
    dirs.push(".env");
    dirs.push("env");
    dirs.push(".tox");
    dirs.push(".pytest_cache");
    dirs.push(".mypy_cache");
    dirs.push(".ruff_cache");
    dirs.push("htmlcov");
    dirs.push(".hypothesis");
    dirs.push("site-packages");
    dirs.push(".dart_tool");
    dirs.push(".pub");
    dirs.push(".pub-cache");
    dirs.push(".flutter-plugins");
    dirs.push(".flutter-plugins-dependencies");
    dirs.push("vendor");
    dirs.push(".bundle");
    dirs.push(".gradle");
    dirs.push(".m2");
    dirs.push(".cortexast");
    dirs.push(".terraform");
    dirs.push(".serverless");
    dirs.push("tmp");
    dirs.push("temp");
    dirs.push("logs");
    dirs.push(".cache");
    assert(dirs@.map_values(|s: &str| s@) =~= heavy_dir_names());
    let ghost base = out@.map_values(|s: String| s@);
    let mut k: usize = 0;
    while k < dirs.len()
        invariant
            k <= dirs.len(),
            dirs@.map_values(|s: &str| s@) == heavy_dir_names(),
            out@.map_values(|s: String| s@) == base + dirs_globs(heavy_dir_names().take(k as int)),
        decreases dirs.len() - k,
    {
        proof {
            assert(heavy_dir_names().take(k + 1) == heavy_dir_names().take(k as int).push(
                dirs@[k as int]@,
            ));
            lemma_dirs_globs_push(heavy_dir_names().take(k as int), dirs@[k as int]@);
        }
        push_dir_globs(&mut out, dirs[k]);
        k += 1;
    }
    assert(heavy_dir_names().take(dirs.len() as int) == heavy_dir_names());
    let ghost names = exclude_dir_names@.map_values(|s: String| s@);
    let ghost base2 = out@.map_values(|s: String| s@);
    let mut m: usize = 0;
    while m < exclude_dir_names.len()
        invariant
            m <= exclude_dir_names.len(),
            names == exclude_dir_names@.map_values(|s: String| s@),
            out@.map_values(|s: String| s@) == base2 + dirs_globs(project_dir_names(names.take(m as int))),
        decreases exclude_dir_names.len() - m,
    {
        let v = chars_of(exclude_dir_names[m].as_str());
        let (a, b) = crate::text::trim_bounds(&v, 0, v.len());
        let (c, d) = trim_slashes_exec(&v, a, b);
        proof {
            assert(v@.subrange(0, v.len() as int) == v@);
            assert(names.take(m + 1).drop_last() == names.take(m as int));
            assert(names.take(m + 1).last() == v@);
        }
        if c < d {
            let t = crate::text::string_of_range(&v, c, d);
            proof {
                lemma_dirs_globs_push(project_dir_names(names.take(m as int)), t@);
                assert(project_dir_names(names.take(m as int)) + seq![t@] == project_dir_names(
                    names.take(m as int),
                ).push(t@));
            }
            push_dir_globs(&mut out, t.as_str());
        } else {
            assert(project_dir_names(names.take(m as int)) + Seq::<Seq<char>>::empty()
                == project_dir_names(names.take(m as int)));
        }
        m += 1;
    }
    assert(names.take(exclude_dir_names.len() as int) == names);
    let ghost extras = extra_glob_excludes@.map_values(|s: String| s@);
    let ghost base3 = out@.map_values(|s: String| s@);
    let mut q: usize = 0;
    while q < extra_glob_excludes.len()
        invariant
            q <= extra_glob_excludes.len(),
            extras == extra_glob_excludes@.map_values(|s: String| s@),
            out@.map_values(|s: String| s@) == base3 + extra_globs(extras.take(q as int)),
        decreases extra_glob_excludes.len() - q,
    {
        let p = crate::text::trim_string(extra_glob_excludes[q].as_str());
        proof {
            assert(extras.take(q + 1).drop_last() == extras.take(q as int));
            assert(extras.take(q + 1).last() == extra_glob_excludes@[q as int]@);
        }
        let pv = chars_of(p.as_str());
        if pv.len() > 0 {
            let ghost before = out@.map_values(|s: String| s@);
            out.push(p);
            assert(out@.map_values(|s: String| s@) =~= before.push(pv@));
            assert(extra_globs(extras.take(q as int)) + seq![pv@] == extra_globs(extras.take(q as int)).push(pv@));
        } else {
            assert(extra_globs(extras.take(q as int)) + Seq::<Seq<char>>::empty() == extra_globs(
                extras.take(q as int),
            ));
        }
        q += 1;
    }
    assert(extras.take(extra_glob_excludes.len() as int) == extras);
    out
}

// ───────────────────────── exclusions of a `.code-workspace` file ─────────────────────────

/// The members of the object at `section`.`key` in the JSON text `text`, in
/// the order the parser keeps them, each with its value when that is a
/// boolean: `None` when `text` is not JSON, `Some(None)` when there is no
/// object at that place.
pub uninterp spec fn json_member_flags(text: Seq<char>, section: Seq<char>, key: Seq<char>) -> Option<
    Option<Seq<(Seq<char>, Option<bool>)>>,
>;

/// Parses `text` with `serde_json::from_str::<serde_json::Value>` and reads,
/// through `Value::get` twice and `Value::as_object`, the members of the
/// object at `section`.`key`, each value through `Value::as_bool`.
#[verifier::external_body]
fn member_flags(text: &str, section: &str, key: &str) -> (r: Option<Option<Vec<(String, Option<bool>)>>>)
    ensures
        match r {
            None => json_member_flags(text@, section@, key@) is None,
            Some(None) => json_member_flags(text@, section@, key@) == Some(
                None::<Seq<(Seq<char>, Option<bool>)>>,
            ),
            Some(Some(v)) => json_member_flags(text@, section@, key@) == Some(
                Some(v@.map_values(|m: (String, Option<bool>)| (m.0@, m.1))),
            ),
        },
{
    let v: serde_json::Value = serde_json::from_str(text).ok()?;
    Some(
        v.get(section).and_then(|s| s.get(key)).and_then(|o| o.as_object()).map(
            |o| o.iter().map(|(k, x)| (k.clone(), x.as_bool())).collect(),
        ),
    )
}

/// `!glob` for every member set to `true`, in order.
pub open spec fn enabled_globs(ms: Seq<(Seq<char>, Option<bool>)>) -> Seq<Seq<char>>
    decreases ms.len(),
{
    if ms.len() == 0 {
        seq![]
    } else if ms.last().1 == Some(true) {
        enabled_globs(ms.drop_last()).push("!"@ + ms.last().0)
    } else {
        enabled_globs(ms.drop_last())
    }
}

/// The patterns of one exclusion object, none when it is missing.
pub open spec fn section_globs(o: Option<Seq<(Seq<char>, Option<bool>)>>) -> Seq<Seq<char>> {
    match o {
        Some(ms) => enabled_globs(ms),
        None => seq![],
    }
}

/// The exclusion patterns of the JSON text `clean`: `!glob` for each glob
/// set to `true` under `settings.files.exclude`, then under
/// `settings.search.exclude`; none when the text is not JSON.
pub open spec fn excludes_s(clean: Seq<char>) -> Seq<Seq<char>> {
    match json_member_flags(clean, "settings"@, "files.exclude"@) {
        None => seq![],
        Some(files) => section_globs(files) + match json_member_flags(
            clean,
            "settings"@,
            "search.exclude"@,
        ) {
            Some(search) => section_globs(search),
            None => seq![],
        },
    }
}

fn push_enabled(out: &mut Vec<String>, ms: &Vec<(String, Option<bool>)>)
    ensures
        final(out)@.map_values(|s: String| s@) == old(out)@.map_values(|s: String| s@)
            + enabled_globs(ms@.map_values(|m: (String, Option<bool>)| (m.0@, m.1))),
{
    let ghost start = out@.map_values(|s: String| s@);
    let ghost mv = ms@.map_values(|m: (String, Option<bool>)| (m.0@, m.1));
    let mut i: usize = 0;
    while i < ms.len()
        invariant
            i <= ms.len(),
            mv == ms@.map_values(|m: (String, Option<bool>)| (m.0@, m.1)),
            out@.map_values(|s: String| s@) == start + enabled_globs(mv.take(i as int)),
        decreases ms.len() - i,
    {
        assert(mv.take(i + 1).drop_last() == mv.take(i as int));
        assert(mv.take(i + 1).last() == mv[i as int]);
        if ms[i].1 == Some(true) {
            let mut g = String::from_str("!");
            push_str(&mut g, ms[i].0.as_str());
            proof {
                reveal_strlit("!");
            }
            let ghost before = out@.map_values(|s: String| s@);
            out.push(g);
            assert(out@.map_values(|s: String| s@) == before.push("!"@ + mv[i as int].0));
        }
        i += 1;
    }
    assert(mv.take(ms.len() as int) == mv);
}

/// The exclusion patterns of a `.code-workspace` file's text (JSON with
/// `//` comments): `!glob` for each glob set to `true` under
/// `settings.files.exclude`, then `settings.search.exclude`; none when the
/// text is not JSON.
pub fn code_workspace_excludes(text: &str) -> (r: Vec<String>)
    ensures
        r@.map_values(|s: String| s@) == excludes_s(jsonc_strip_s(text@, JsoncState::Code)),
{
    let clean = strip_jsonc_comments(text);
    let mut out: Vec<String> = Vec::new();
    proof {
        reveal_strlit("settings");
        reveal_strlit("files.exclude");
        reveal_strlit("search.exclude");
    }
    match member_flags(clean.as_str(), "settings", "files.exclude") {
        None => {
            assert(out@.map_values(|s: String| s@) =~= Seq::<Seq<char>>::empty());
            return out;
        },
        Some(files) => {
            if let Some(ms) = files {
                push_enabled(&mut out, &ms);
            }
        },
    }
    assert(out@.map_values(|s: String| s@) =~= section_globs(
        json_member_flags(clean@, "settings"@, "files.exclude"@).unwrap(),
    ));
    let ghost first = out@.map_values(|s: String| s@);
    match member_flags(clean.as_str(), "settings", "search.exclude") {
        None => {},
        Some(search) => {
            if let Some(ms) = search {
                push_enabled(&mut out, &ms);
            }
        },
    }
    assert(out@.map_values(|s: String| s@) =~= first + match json_member_flags(
        clean@,
        "settings"@,
        "search.exclude"@,
    ) {
        Some(search) => section_globs(search),
        None => seq![],
    });
    out
}

} // verus!
