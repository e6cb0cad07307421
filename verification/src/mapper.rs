//! Repository and module maps: their records, the rules that classify
//! files, directories and modules, and the names that manifests declare.
use vstd::prelude::*;
use crate::text::{opt_view, pairs_view};
use crate::package_json::json_top_string;
use crate::path::{extension_s, file_name_s};
use crate::text::{byte_len, chars_of, push_str, starts_with_s, trim_s};
use crate::sort::{is_perm, lemma_lex_total, lemma_perm_onto, lex3, lex_lt, orders, sort_perm_lex3, stable};

verus! {

/// A file of the repository map.
#[derive(Debug, Clone)]
pub struct MapNode {
    pub id: String,
    pub label: String,
    pub path: String,
    pub kind: String,
    pub size_class: String,
    pub bytes: u64,
    pub est_tokens: u64,
}

/// A link between two files of the repository map.
#[derive(Debug, Clone)]
pub struct MapEdge {
    pub id: String,
    pub source: String,
    pub target: String,
}

/// The repository map: files and the links between them.
#[derive(Debug, Clone)]
pub struct RepoMap {
    pub nodes: Vec<MapNode>,
    pub edges: Vec<MapEdge>,
}

/// A module (package, crate) of the module graph.
#[derive(Debug, Clone)]
pub struct ModuleNode {
    pub id: String,
    pub label: String,
    pub path: String,
    pub file_count: u64,
    pub bytes: u64,
    pub est_tokens: u64,
}

/// A dependency between two modules, weighted by the number of references.
#[derive(Debug, Clone)]
pub struct ModuleEdge {
    pub id: String,
    pub source: String,
    pub target: String,
    pub weight: u64,
}

/// The module graph.
#[derive(Debug, Clone)]
pub struct ModuleGraph {
    pub nodes: Vec<ModuleNode>,
    pub edges: Vec<ModuleEdge>,
}

fn str_is(s: &str, lit: &str) -> (r: bool)
    ensures
        r == (s@ == lit@),
{
    let a = chars_of(s);
    let b = chars_of(lit);
    if a.len() != b.len() {
        return false;
    }
    let mut i: usize = 0;
    while i < a.len()
        invariant
            i <= a.len() == b.len(),
            a@ == s@,
            b@ == lit@,
            forall|j: int| 0 <= j < i ==> a@[j] == b@[j],
        decreases a.len() - i,
    {
        if a[i] != b[i] {
            return false;
        }
        i += 1;
    }
    assert(a@ == b@);
    true
}

fn in_list(s: &str, names: &[&str]) -> (r: bool)
    ensures
        r == names@.map_values(|n: &str| n@).contains(s@),
{
    let ghost nv = names@.map_values(|n: &str| n@);
    let mut i: usize = 0;
    while i < names.len()
        invariant
            i <= names.len(),
            nv == names@.map_values(|n: &str| n@),
            forall|j: int| 0 <= j < i ==> nv[j] != s@,
        decreases names.len() - i,
    {
        assert(nv[i as int] == names@[i as int]@);
        if str_is(s, names[i]) {
            assert(nv[i as int] == s@);
            return true;
        }
        i += 1;
    }
    false
}

/// Manifest files that declare a module.
pub open spec fn known_manifests() -> Seq<Seq<char>> {
    seq!["package.json"@, "Cargo.toml"@, "pubspec.yaml"@, "go.mod"@]
}

/// Whether a file name is a manifest that declares a module.
pub fn is_known_manifest_file(name: &str) -> (r: bool)
    ensures
        r == known_manifests().contains(name@),
{
    let names: [&str; 4] = ["package.json", "Cargo.toml", "pubspec.yaml", "go.mod"];
    assert(names@.map_values(|n: &str| n@) =~= known_manifests());
    in_list(name, &names)
}

/// Files that mark a directory as a module.
pub open spec fn module_markers() -> Seq<Seq<char>> {
    seq![
        "package.json"@, "index.ts"@, "index.tsx"@, "index.js"@, "index.jsx"@, "mod.rs"@,
        "lib.rs"@, "main.rs"@,
    ]
}

/// Whether a file name marks its directory as a module.
pub fn is_module_marker_file(name: &str) -> (r: bool)
    ensures
        r == module_markers().contains(name@),
{
    let names: [&str; 8] = [
        "package.json", "index.ts", "index.tsx", "index.js", "index.jsx", "mod.rs", "lib.rs",
        "main.rs",
    ];
    assert(names@.map_values(|n: &str| n@) =~= module_markers());
    in_list(name, &names)
}

/// Directory names never mapped.
pub open spec fn skipped_dirs() -> Seq<Seq<char>> {
    seq![
        ".git"@, ".vscode"@, ".idea"@, ".vs"@, "node_modules"@, "dist"@, "build"@, ".next"@,
        ".nuxt"@, ".svelte-kit"@, ".turbo"@, "target"@, ".cargo"@, "__pycache__"@, ".venv"@,
        "venv"@, ".env"@, "env"@, ".tox"@, ".pytest_cache"@, ".mypy_cache"@, ".ruff_cache"@,
        "htmlcov"@, ".hypothesis"@, "site-packages"@, ".dart_tool"@, ".pub"@, ".pub-cache"@,
        ".flutter-plugins"@, ".flutter-plugins-dependencies"@, "vendor"@, ".bundle"@,
        ".gradle"@, ".m2"@, ".terraform"@, ".serverless"@, "tmp"@, "temp"@, "logs"@, ".cache"@,
        ".cortexast"@,
    ]
}

/// Whether a directory name is never mapped.
pub fn should_skip_dir_name(name: &str) -> (r: bool)
    ensures
        r == skipped_dirs().contains(name@),
{
    let names: [&str; 41] = [
        ".git", ".vscode", ".idea", ".vs", "node_modules", "dist", "build", ".next", ".nuxt",
        ".svelte-kit", ".turbo", "target", ".cargo", "__pycache__", ".venv", "venv", ".env", "env",
        ".tox", ".pytest_cache", ".mypy_cache", ".ruff_cache", "htmlcov", ".hypothesis",
        "site-packages", ".dart_tool", ".pub", ".pub-cache", ".flutter-plugins",
        ".flutter-plugins-dependencies", "vendor", ".bundle", ".gradle", ".m2", ".terraform",
        ".serverless", "tmp", "temp", "logs", ".cache", ".cortexast",
    ];
    assert(names@.map_values(|n: &str| n@) =~= skipped_dirs());
    in_list(name, &names)
}

/// Extensions of files counted in the repository map.
pub open spec fn allowed_exts() -> Seq<Seq<char>> {
    seq![
        "rs"@, "ts"@, "tsx"@, "js"@, "jsx"@, "json"@, "md"@, "toml"@, "css"@, "scss"@, "sass"@,
        "html"@,
    ]
}

/// Extensions of source files whose imports are followed.
pub open spec fn allowed_source_exts() -> Seq<Seq<char>> {
    seq!["rs"@, "ts"@, "tsx"@, "js"@, "jsx"@, "py"@, "go"@, "dart"@]
}

fn ext_string(path: &str) -> (r: Option<String>)
    ensures
        match extension_s(path@) {
            Some(e) => r matches Some(s) && s@ == e,
            None => r is None,
        },
{
    let v = chars_of(path);
    match crate::path::extension_bounds(&v) {
        None => None,
        Some((a, b)) => Some(crate::text::string_of_range(&v, a, b)),
    }
}

/// Whether a file is counted in the repository map, by its extension (case sensitive).
pub fn is_allowed_ext(path: &str) -> (r: bool)
    ensures
        r == (extension_s(path@) matches Some(e) && allowed_exts().contains(e)),
{
    let names: [&str; 12] = [
        "rs", "ts", "tsx", "js", "jsx", "json", "md", "toml", "css", "scss", "sass", "html",
    ];
    assert(names@.map_values(|n: &str| n@) =~= allowed_exts());
    match ext_string(path) {
        None => false,
        Some(e) => in_list(e.as_str(), &names),
    }
}

/// Whether a file is a source file whose imports are followed, by its extension.
pub fn is_allowed_source_ext(path: &str) -> (r: bool)
    ensures
        r == (extension_s(path@) matches Some(e) && allowed_source_exts().contains(e)),
{
    let names: [&str; 8] = ["rs", "ts", "tsx", "js", "jsx", "py", "go", "dart"];
    assert(names@.map_values(|n: &str| n@) =~= allowed_source_exts());
    match ext_string(path) {
        None => false,
        Some(e) => in_list(e.as_str(), &names),
    }
}

/// `small` below 200 000 bytes, `medium` below 1 500 000, else `large`.
pub open spec fn size_class_s(bytes: u64) -> Seq<char> {
    if bytes < 200000 {
        "small"@
    } else if bytes < 1500000 {
        "medium"@
    } else {
        "large"@
    }
}

/// The size class of a file.
pub fn size_class_from_bytes(bytes: u64) -> (r: String)
    ensures
        r@ == size_class_s(bytes),
{
    if bytes < 200000 {
        String::from_str("small")
    } else if bytes < 1500000 {
        String::from_str("medium")
    } else {
        String::from_str("large")
    }
}

/// The id of a module at `rel`: `.` for the repository root itself.
pub fn normalize_module_id(rel: &str) -> (r: String)
    ensures
        r@ == (if rel@.len() == 0 {
            "."@
        } else {
            rel@
        }),
{
    if chars_of(rel).len() == 0 {
        String::from_str(".")
    } else {
        String::from_str(rel)
    }
}

/// A label for display: `(unnamed)` when the name is empty.
pub fn clamp_label(name: &str) -> (r: String)
    ensures
        r@ == (if name@.len() == 0 {
            "(unnamed)"@
        } else {
            name@
        }),
{
    if chars_of(name).len() == 0 {
        String::from_str("(unnamed)")
    } else {
        String::from_str(name)
    }
}

// ───────────────────────── module ownership ─────────────────────────

/// How specifically the module root `root` holds the file `file`: `0` for
/// the repository root (empty or `.`), the byte length of `root` when `file`
/// is `root` or lies under it, and `None` when it does not.
pub open spec fn root_depth(file: Seq<char>, root: Seq<char>) -> Option<nat> {
    if root.len() == 0 || root == "."@ {
        Some(0)
    } else if file == root || (starts_with_s(file, root) && root.len() < file.len() && file[root.len() as int] == '/') {
        Some(byte_len(root))
    } else {
        None
    }
}

/// Among the first `n` module roots, the one holding `file` most
/// specifically (the first of equals), with its depth.
pub open spec fn best_module(file: Seq<char>, roots: Seq<(Seq<char>, Seq<char>)>, n: int) -> Option<
    (int, nat),
>
    decreases n,
{
    if n <= 0 {
        None
    } else {
        let best = best_module(file, roots, n - 1);
        match root_depth(file, roots[n - 1].0) {
            Some(d) => match best {
                None => Some((n - 1, d)),
                Some((k, bd)) => if d > bd {
                    Some((n - 1, d))
                } else {
                    Some((k, bd))
                },
            },
            None => best,
        }
    }
}

/// The id of the module that owns the file at `file_rel`, from the
/// `(directory, module id)` pairs of the modules.
pub fn module_id_for_rel_path(file_rel: &str, module_roots: &Vec<(String, String)>) -> (r: Option<
    String,
>)
    requires
        forall|k: int| 0 <= k < module_roots.len() ==> byte_len((#[trigger] module_roots@[k]).0@) <= usize::MAX,
    ensures
        match best_module(file_rel@, pairs_view(module_roots@), module_roots@.len() as int) {
            Some((k, _)) => r matches Some(s) && s@ == module_roots@[k].1@,
            None => r is None,
        },
{
    let fv = chars_of(file_rel);
    let ghost pv = pairs_view(module_roots@);
    let mut best: Option<(usize, usize)> = None;
    let mut i: usize = 0;
    while i < module_roots.len()
        invariant
            i <= module_roots.len(),
            fv@ == file_rel@,
            pv == pairs_view(module_roots@),
            forall|k: int| 0 <= k < module_roots.len() ==> byte_len((#[trigger] module_roots@[k]).0@) <= usize::MAX,
            match best_module(file_rel@, pv, i as int) {
                Some((k, d)) => best matches Some((bk, bd)) && bk as int == k && bd as nat == d && 0
                    <= k < i,
                None => best is None,
            },
        decreases module_roots.len() - i,
    {
        let root = &module_roots[i].0;
        assert(pv[i as int].0 == root@);
        let rv = chars_of(root.as_str());
        let is_top = rv.len() == 0 || str_is(root.as_str(), ".");
        let depth: Option<usize> = if is_top {
            Some(0)
        } else {
            let same = str_is(file_rel, root.as_str());
            let under = crate::text::starts_with(&fv, &rv) && rv.len() < fv.len() && fv[rv.len()]
                == '/';
            if same || under {
                let rs = root.as_str();
                proof {
                    crate::text::lemma_str_len(rs);
                }
                Some(rs.len())
            } else {
                None
            }
        };
        assert(match root_depth(file_rel@, root@) {
            Some(dd) => depth matches Some(x) && x as nat == dd,
            None => depth is None,
        });
        match depth {
            Some(d) => match best {
                None => {
                    best = Some((i, d));
                },
                Some((_, bd)) => {
                    if d > bd {
                        best = Some((i, d));
                    }
                },
            },
            None => {},
        }
        i += 1;
    }
    match best {
        Some((k, _)) => Some(module_roots[k].1.clone()),
        None => None,
    }
}

// ───────────────────────── manifest names ─────────────────────────

/// The first line of `ls` from `k` on that, trimmed, starts with `name:`
/// and is not a comment, and has a non-blank value: that value.
pub open spec fn pubspec_name_from(ls: Seq<Seq<char>>, k: int) -> Option<Seq<char>>
    decreases ls.len() - k,
{
    if k < 0 || k >= ls.len() {
        None
    } else {
        let l = trim_s(ls[k]);
        if l.len() > 0 && l[0] != '#' && starts_with_s(l, "name:"@) && trim_s(l.subrange(5, l.len() as int)).len() > 0 {
            Some(trim_s(l.subrange(5, l.len() as int)))
        } else {
            pubspec_name_from(ls, k + 1)
        }
    }
}

/// The package name declared in the text of a `pubspec.yaml`.
pub fn pubspec_name(text: &str) -> (r: Option<String>)
    ensures
        match pubspec_name_from(crate::z4::lines_s(text@), 0) {
            Some(n) => r matches Some(s) && s@ == n,
            None => r is None,
        },
{
    let v = chars_of(text);
    let ls = crate::act::lines_of(&v);
    let mut k: usize = 0;
    while k < ls.len()
        invariant
            k <= ls.len(),
            ls@.len() == crate::z4::lines_s(text@).len(),
            forall|j: int| 0 <= j < ls.len() ==> (#[trigger] ls@[j])@ == crate::z4::lines_s(text@)[j],
            pubspec_name_from(crate::z4::lines_s(text@), 0) == pubspec_name_from(
                crate::z4::lines_s(text@),
                k as int,
            ),
        decreases ls.len() - k,
    {
        let line = &ls[k];
        let (a, b) = crate::text::trim_bounds(line.as_slice(), 0, line.len());
        assert(line@.subrange(0, line.len() as int) == line@);
        let l = crate::z4::slice_chars(line.as_slice(), a, b);
        let name_key = chars_of("name:");
        proof {
            reveal_strlit("name:");
        }
        if l.len() > 0 && l[0] != '#' && crate::text::starts_with(&l, &name_key) {
            let (c, d) = crate::text::trim_bounds(l.as_slice(), 5, l.len());
            if d > c {
                return Some(crate::text::string_of_range(l.as_slice(), c, d));
            }
        }
        k += 1;
    }
    None
}

/// `s` with every leading repetition of `p` removed (`str::trim_start_matches`).
pub open spec fn strip_leading_repeats(s: Seq<char>, p: Seq<char>) -> Seq<char>
    decreases s.len(),
{
    if p.len() > 0 && starts_with_s(s, p) {
        strip_leading_repeats(s.skip(p.len() as int), p)
    } else {
        s
    }
}

/// The last non-empty `/`-separated segment of `m`, or `m` itself when it has none.
pub open spec fn last_nonempty_segment(m: Seq<char>) -> Seq<char> {
    let segs = crate::path::split_s(m, '/');
    match last_nonempty(segs, segs.len() as int) {
        Some(k) => segs[k],
        None => m,
    }
}

/// Index of the last non-empty segment among the first `n`.
pub open spec fn last_nonempty(segs: Seq<Seq<char>>, n: int) -> Option<int>
    decreases n,
{
    if n <= 0 {
        None
    } else if segs[n - 1].len() > 0 {
        Some(n - 1)
    } else {
        last_nonempty(segs, n - 1)
    }
}

/// The short module name of the first `module ` line (trimmed) among the
/// lines from `k` on: the last segment of its module path; none when that
/// path is empty.
pub open spec fn go_module_from(ls: Seq<Seq<char>>, k: int) -> Option<Seq<char>>
    decreases ls.len() - k,
{
    if k < 0 || k >= ls.len() {
        None
    } else {
        let l = trim_s(ls[k]);
        if starts_with_s(l, "module "@) {
            module_line_s(l)
        } else {
            go_module_from(ls, k + 1)
        }
    }
}

/// The module name a `module ` line (already trimmed) declares.
pub open spec fn module_line_s(l: Seq<char>) -> Option<Seq<char>> {
    let m = trim_s(strip_leading_repeats(l, "module "@));
    if m.len() == 0 {
        None
    } else {
        Some(last_nonempty_segment(m))
    }
}

fn skip_module_keywords(l: &Vec<char>) -> (start: usize)
    ensures
        start <= l.len(),
        l@.skip(start as int) == strip_leading_repeats(l@, "module "@),
{
    let key = chars_of("module ");
    proof {
        reveal_strlit("module ");
    }
    let mut start: usize = 0;
    assert(l@.skip(0) == l@);
    while 7 <= l.len() - start && crate::text::matches_at(&l, start, &key)
        invariant
            start <= l.len(),
            key@ == "module "@,
            key@.len() == 7,
            strip_leading_repeats(l@, key@) == strip_leading_repeats(l@.skip(start as int), key@),
        decreases l.len() - start,
    {
        assert(l@.skip(start as int).skip(7) == l@.skip(start + 7));
        assert(l@.skip(start as int).take(7) == l@.subrange(start as int, start + 7));
        start += 7;
    }
    proof {
        let rest = l@.skip(start as int);
        if rest.len() >= 7 {
            assert(rest.take(7) == l@.subrange(start as int, start + 7));
        }
    }
    start
}

fn last_nonempty_segment_of(m: &Vec<char>) -> (r: String)
    ensures
        r@ == last_nonempty_segment(m@),
{
    let segs = crate::path::split_bounds(m.as_slice(), '/');
    let ghost ss = crate::path::split_s(m@, '/');
    let mut n = segs.len();
    while n > 0 && segs[n - 1].0 == segs[n - 1].1
        invariant
            n <= segs.len() == ss.len(),
            forall|q: int|
                0 <= q < segs.len() ==> {
                    let (x, y) = #[trigger] segs@[q];
                    &&& x <= y <= m.len()
                    &&& m@.subrange(x as int, y as int) == ss[q]
                },
            last_nonempty(ss, segs.len() as int) == last_nonempty(ss, n as int),
        decreases n,
    {
        n -= 1;
    }
    if n == 0 {
        return crate::text::string_of(m.as_slice());
    }
    let (x, y) = segs[n - 1];
    crate::text::string_of_range(m.as_slice(), x, y)
}

fn module_line_name(l: &Vec<char>) -> (r: Option<String>)
    ensures
        match module_line_s(l@) {
            Some(n) => r matches Some(s) && s@ == n,
            None => r is None,
        },
{
    let start = skip_module_keywords(l);
    let (c, d) = crate::text::trim_bounds(l.as_slice(), start, l.len());
    assert(l@.subrange(start as int, l.len() as int) == l@.skip(start as int));
    if d == c {
        return None;
    }
    let m = crate::z4::slice_chars(l.as_slice(), c, d);
    Some(last_nonempty_segment_of(&m))
}

/// The short name of the module a `go.mod` text declares.
pub fn go_module_name(text: &str) -> (r: Option<String>)
    ensures
        match go_module_from(crate::z4::lines_s(text@), 0) {
            Some(n) => r matches Some(s) && s@ == n,
            None => r is None,
        },
{
    let v = chars_of(text);
    let ls = crate::act::lines_of(&v);
    let key = chars_of("module ");
    proof {
        reveal_strlit("module ");
    }
    let mut k: usize = 0;
    while k < ls.len()
        invariant
            k <= ls.len(),
            key@ == "module "@,
            key@.len() == 7,
            ls@.len() == crate::z4::lines_s(text@).len(),
            forall|j: int| 0 <= j < ls.len() ==> (#[trigger] ls@[j])@ == crate::z4::lines_s(text@)[j],
            go_module_from(crate::z4::lines_s(text@), 0) == go_module_from(
                crate::z4::lines_s(text@),
                k as int,
            ),
        decreases ls.len() - k,
    {
        let line = &ls[k];
        let (a, b) = crate::text::trim_bounds(line.as_slice(), 0, line.len());
        assert(line@.subrange(0, line.len() as int) == line@);
        let l = crate::z4::slice_chars(line.as_slice(), a, b);
        if crate::text::starts_with(&l, &key) {
            return module_line_name(&l);
        }
        k += 1;
    }
    None
}

// ───────────────────────── module graph edges ─────────────────────────

/// References between modules as plain values: source, target, weight.
pub open spec fn refs_view(c: Seq<(String, String, u64)>) -> Seq<(Seq<char>, Seq<char>, u64)> {
    c.map_values(|x: (String, String, u64)| (x.0@, x.1@, x.2))
}

/// Total of the weights in `c`.
pub open spec fn total_weight(c: Seq<(Seq<char>, Seq<char>, u64)>) -> nat
    decreases c.len(),
{
    if c.len() == 0 {
        0
    } else {
        total_weight(c.drop_last()) + c.last().2 as nat
    }
}

/// Sum of the weights of the references in `c` from `s` to `t`.
pub open spec fn pair_weight(c: Seq<(Seq<char>, Seq<char>, u64)>, s: Seq<char>, t: Seq<char>) -> nat
    decreases c.len(),
{
    if c.len() == 0 {
        0
    } else {
        pair_weight(c.drop_last(), s, t) + if c.last().0 == s && c.last().1 == t {
            c.last().2 as nat
        } else {
            0
        }
    }
}

/// `c` holds a reference from module `s` to a different module `t`.
pub open spec fn links(c: Seq<(Seq<char>, Seq<char>, u64)>, s: Seq<char>, t: Seq<char>) -> bool {
    s != t && exists|i: int| 0 <= i < c.len() && (#[trigger] c[i]).0 == s && c[i].1 == t
}

/// The id of the edge from `s` to `t`.
pub open spec fn edge_id_s(s: Seq<char>, t: Seq<char>) -> Seq<char> {
    s + "->"@ + t
}

/// `e` comes before `f`: by id, then source, then target.
pub open spec fn edge_lt(e: ModuleEdge, f: ModuleEdge) -> bool {
    lex_lt(e.id@, f.id@) || (e.id@ == f.id@ && (lex_lt(e.source@, f.source@) || (e.source@
        == f.source@ && lex_lt(e.target@, f.target@))))
}

proof fn lemma_prefix_total(c: Seq<(Seq<char>, Seq<char>, u64)>, i: int)
    requires
        0 <= i <= c.len(),
    ensures
        total_weight(c.take(i)) <= total_weight(c),
    decreases c.len() - i,
{
    if i < c.len() {
        lemma_prefix_total(c, i + 1);
        assert(c.take(i + 1).drop_last() == c.take(i));
    } else {
        assert(c.take(i) == c);
    }
}

proof fn lemma_pair_le_total(c: Seq<(Seq<char>, Seq<char>, u64)>, s: Seq<char>, t: Seq<char>)
    ensures
        pair_weight(c, s, t) <= total_weight(c),
    decreases c.len(),
{
    if c.len() > 0 {
        lemma_pair_le_total(c.drop_last(), s, t);
    }
}

proof fn lemma_pair_zero_unlinked(c: Seq<(Seq<char>, Seq<char>, u64)>, s: Seq<char>, t: Seq<char>)
    requires
        s != t,
        !links(c, s, t),
    ensures
        pair_weight(c, s, t) == 0,
    decreases c.len(),
{
    if c.len() > 0 {
        let d = c.drop_last();
        if links(d, s, t) {
            let q = choose|q: int| 0 <= q < d.len() && (#[trigger] d[q]).0 == s && d[q].1 == t;
            assert(c[q] == d[q]);
        }
        lemma_pair_zero_unlinked(d, s, t);
        if c.last().0 == s && c.last().1 == t {
            assert(c[c.len() - 1] == c.last());
        }
    }
}

/// The weighted edges between distinct modules that `refs` (source,
/// target, weight) add up to: one edge per linked pair, whose weight is the
/// sum of that pair's weights and whose id is `source->target`, ordered by
/// id, then source, then target. References of a module to itself are left out.
pub fn weighted_module_edges(refs: &Vec<(String, String, u64)>) -> (r: Vec<ModuleEdge>)
    requires
        total_weight(refs_view(refs@)) <= u64::MAX,
    ensures
        forall|i: int|
            0 <= i < r.len() ==> {
                let e = #[trigger] r@[i];
                &&& links(refs_view(refs@), e.source@, e.target@)
                &&& e.weight == pair_weight(refs_view(refs@), e.source@, e.target@)
                &&& e.id@ == edge_id_s(e.source@, e.target@)
            },
        forall|s: Seq<char>, t: Seq<char>|
            #[trigger] links(refs_view(refs@), s, t) ==> exists|i: int|
                0 <= i < r.len() && (#[trigger] r@[i]).source@ == s && r@[i].target@ == t,
        forall|i: int, j: int| 0 <= i < j < r.len() ==> edge_lt(#[trigger] r@[i], #[trigger] r@[j]),
{
    let ghost c = refs_view(refs@);
    let mut srcs: Vec<Vec<char>> = Vec::new();
    let mut tgts: Vec<Vec<char>> = Vec::new();
    let mut ws: Vec<u64> = Vec::new();
    let mut i: usize = 0;
    while i < refs.len()
        invariant
            i <= refs.len(),
            c == refs_view(refs@),
            total_weight(c) <= u64::MAX,
            srcs.len() == tgts.len() == ws.len(),
            forall|k: int|
                0 <= k < srcs.len() ==> links(c.take(i as int), #[trigger] srcs@[k]@, tgts@[k]@)
                    && ws@[k] == pair_weight(c.take(i as int), srcs@[k]@, tgts@[k]@),
            forall|k: int, l: int|
                0 <= k < l < srcs.len() ==> !(#[trigger] srcs@[k]@ == #[trigger] srcs@[l]@
                    && tgts@[k]@ == tgts@[l]@),
            forall|s: Seq<char>, t: Seq<char>|
                #[trigger] links(c.take(i as int), s, t) ==> exists|k: int|
                    0 <= k < srcs.len() && (#[trigger] srcs@[k])@ == s && tgts@[k]@ == t,
        decreases refs.len() - i,
    {
        let ghost ci = c.take(i as int);
        let ghost cn = c.take(i + 1);
        assert(cn.drop_last() == ci);
        assert(cn.last() == c[i as int]);
        let sv = chars_of(refs[i].0.as_str());
        let tv = chars_of(refs[i].1.as_str());
        let w = refs[i].2;
        assert(c[i as int] == (sv@, tv@, w));
        proof {
            assert forall|s: Seq<char>, t: Seq<char>| #[trigger]
                links(ci, s, t) implies links(cn, s, t) by {
                let k = choose|k: int| 0 <= k < ci.len() && (#[trigger] ci[k]).0 == s && ci[k].1 == t;
                assert(cn[k] == ci[k]);
            }
        }
        let ghost os = srcs@;
        let ghost ot = tgts@;
        let ghost ow = ws@;
        let ghost mut kk: int = -1;
        if !crate::text::chars_eq(&sv, &tv) {
            let mut k: usize = 0;
            while k < srcs.len() && !(crate::text::chars_eq(&srcs[k], &sv) && crate::text::chars_eq(
                &tgts[k],
                &tv,
            ))
                invariant
                    k <= srcs.len() == tgts.len(),
                    forall|q: int| 0 <= q < k ==> !(#[trigger] srcs@[q]@ == sv@ && tgts@[q]@ == tv@),
                decreases srcs.len() - k,
            {
                k += 1;
            }
            proof {
                lemma_pair_le_total(cn, sv@, tv@);
                lemma_prefix_total(c, i + 1);
            }
            assert(links(cn, sv@, tv@)) by {
                assert(cn[i as int] == c[i as int]);
            }
            if k < srcs.len() {
                assert(ws@[k as int] == pair_weight(ci, sv@, tv@));
                let nw = ws[k] + w;
                ws.set(k, nw);
            } else {
                srcs.push(sv);
                tgts.push(tv);
                ws.push(w);
                proof {
                    if links(ci, sv@, tv@) {
                        let q = choose|q: int|
                            0 <= q < os.len() && (#[trigger] os[q])@ == sv@ && ot[q]@ == tv@;
                        assert(srcs@[q] == os[q]);
                    }
                    assert(pair_weight(ci, sv@, tv@) == 0) by {
                        lemma_pair_zero_unlinked(ci, sv@, tv@);
                    }
                }
            }
            proof {
                kk = k as int;
            }
        }
        proof {
            assert forall|k: int| 0 <= k < srcs.len() implies links(cn, #[trigger] srcs@[k]@, tgts@[k]@)
                && ws@[k] == pair_weight(cn, srcs@[k]@, tgts@[k]@) by {
                if k < os.len() {
                    assert(srcs@[k] == os[k] && tgts@[k] == ot[k]);
                    assert(links(ci, os[k]@, ot[k]@));
                }
            }
            assert forall|a: int, b: int|
                0 <= a < b < srcs.len() implies !(#[trigger] srcs@[a]@ == #[trigger] srcs@[b]@
                && tgts@[a]@ == tgts@[b]@) by {
                if b < os.len() {
                    assert(srcs@[a] == os[a] && srcs@[b] == os[b]);
                    assert(tgts@[a] == ot[a] && tgts@[b] == ot[b]);
                } else {
                    assert(srcs@[a] == os[a] && tgts@[a] == ot[a]);
                }
            }
            assert forall|s: Seq<char>, t: Seq<char>| #[trigger] links(cn, s, t) implies exists|
                k: int,
            | 0 <= k < srcs.len() && (#[trigger] srcs@[k])@ == s && tgts@[k]@ == t by {
                let q = choose|q: int| 0 <= q < cn.len() && (#[trigger] cn[q]).0 == s && cn[q].1 == t;
                if q < i {
                    assert(ci[q] == cn[q]);
                    assert(links(ci, s, t));
                    let k = choose|k: int|
                        0 <= k < os.len() && (#[trigger] os[k])@ == s && ot[k]@ == t;
                    assert(srcs@[k] == os[k] && tgts@[k] == ot[k]);
                } else {
                    assert(srcs@[kk]@ == s && tgts@[kk]@ == t);
                }
            }
        }
        i += 1;
    }
    assert(c.take(refs.len() as int) == c);
    let n = srcs.len();
    let mut ids: Vec<Vec<char>> = Vec::new();
    let mut k: usize = 0;
    while k < n
        invariant
            k <= n == srcs.len() == tgts.len(),
            ids.len() == k,
            forall|q: int|
                0 <= q < k ==> (#[trigger] ids@[q])@ == edge_id_s(srcs@[q]@, tgts@[q]@),
        decreases n - k,
    {
        let mut id = String::new();
        crate::text::push_chars(&mut id, &srcs[k]);
        push_str(&mut id, "->");
        crate::text::push_chars(&mut id, &tgts[k]);
        proof {
            reveal_strlit("->");
        }
        let idv = chars_of(id.as_str());
        ids.push(idv);
        k += 1;
    }
    let p = sort_perm_lex3(&ids, &srcs, &tgts);
    let ghost ka = ids@.map_values(|v: Vec<char>| v@);
    let ghost kb = srcs@.map_values(|v: Vec<char>| v@);
    let ghost kc = tgts@.map_values(|v: Vec<char>| v@);
    let mut r: Vec<ModuleEdge> = Vec::new();
    let mut j: usize = 0;
    while j < n
        invariant
            j <= n == srcs.len() == tgts.len() == ws.len() == ids.len() == p.len(),
            is_perm(p@, n as nat),
            r.len() == j,
            forall|q: int|
                0 <= q < j ==> {
                    let e = #[trigger] r@[q];
                    &&& e.id@ == ids@[p@[q] as int]@
                    &&& e.source@ == srcs@[p@[q] as int]@
                    &&& e.target@ == tgts@[p@[q] as int]@
                    &&& e.weight == ws@[p@[q] as int]
                },
        decreases n - j,
    {
        let x = p[j];
        r.push(
            ModuleEdge {
                id: crate::text::string_of(&ids[x]),
                source: crate::text::string_of(&srcs[x]),
                target: crate::text::string_of(&tgts[x]),
                weight: ws[x],
            },
        );
        j += 1;
    }
    proof {
        assert forall|a: int, b: int| 0 <= a < b < r.len() implies edge_lt(
            #[trigger] r@[a],
            #[trigger] r@[b],
        ) by {
            let x = p@[a] as int;
            let y = p@[b] as int;
            assert(ka[x] == ids@[x]@ && ka[y] == ids@[y]@);
            assert(kb[x] == srcs@[x]@ && kb[y] == srcs@[y]@);
            assert(kc[x] == tgts@[x]@ && kc[y] == tgts@[y]@);
            assert(!lex3(ka, kb, kc)(y, x));
            lemma_lex_total(ka[x], ka[y]);
            lemma_lex_total(kb[x], kb[y]);
            lemma_lex_total(kc[x], kc[y]);
            assert(x != y);
            if x < y {
                assert(!(srcs@[x]@ == srcs@[y]@ && tgts@[x]@ == tgts@[y]@));
            } else {
                assert(!(srcs@[y]@ == srcs@[x]@ && tgts@[y]@ == tgts@[x]@));
            }
        }
        assert forall|s: Seq<char>, t: Seq<char>| #[trigger] links(c, s, t) implies exists|q: int|
            0 <= q < r.len() && (#[trigger] r@[q]).source@ == s && r@[q].target@ == t by {
            let k = choose|k: int| 0 <= k < srcs.len() && (#[trigger] srcs@[k])@ == s && tgts@[k]@ == t;
            lemma_perm_onto(p@, n as nat, k);
            let q = choose|q: int| 0 <= q < p.len() && #[trigger] p@[q] == k;
            assert(r@[q].source@ == s);
        }
    }
    r
}

// ───────────────────────── Rust imports between crates ─────────────────────────

/// Index of the first `::` in `s` at or after `i`, or `s.len()` when there is none.
pub open spec fn first_path_sep(s: Seq<char>, i: int) -> int
    decreases s.len() - i,
{
    if i < 0 || i + 1 >= s.len() {
        s.len() as int
    } else if s[i] == ':' && s[i + 1] == ':' {
        i
    } else {
        first_path_sep(s, i + 1)
    }
}

/// The crate a Rust `use` path names: its first `::` segment, trimmed.
pub open spec fn import_crate_s(imp: Seq<char>) -> Seq<char> {
    trim_s(imp.take(first_path_sep(imp, 0)))
}

/// `s` with every `-` read as `_` (a package name as a crate name).
pub open spec fn dash_to_underscore(s: Seq<char>) -> Seq<char> {
    s.map_values(|c: char| if c == '-' { '_' } else { c })
}

/// The optional name `n`, or its underscored form, is `name`.
pub open spec fn answers_to(n: Option<Seq<char>>, name: Seq<char>) -> bool {
    match n {
        Some(x) => x == name || dash_to_underscore(x) == name,
        None => false,
    }
}

/// Modules with their crate names as plain values: (id, package name, lib name).
pub open spec fn crates_view(c: Seq<(String, Option<String>, Option<String>)>) -> Seq<
    (Seq<char>, Option<Seq<char>>, Option<Seq<char>>),
> {
    c.map_values(
        |x: (String, Option<String>, Option<String>)|
            (
                x.0@,
                match x.1 {
                    Some(n) => Some(n@),
                    None => None,
                },
                match x.2 {
                    Some(n) => Some(n@),
                    None => None,
                },
            ),
    )
}

/// The id of the last module in `c` whose package or lib name answers to `name`.
pub open spec fn module_for_crate_s(
    c: Seq<(Seq<char>, Option<Seq<char>>, Option<Seq<char>>)>,
    name: Seq<char>,
) -> Option<Seq<char>>
    decreases c.len(),
{
    if c.len() == 0 {
        None
    } else if answers_to(c.last().1, name) || answers_to(c.last().2, name) {
        Some(c.last().0)
    } else {
        module_for_crate_s(c.drop_last(), name)
    }
}

/// The module that the Rust `use` path `imp` points into, if any.
pub open spec fn rust_import_module_s(
    imp: Seq<char>,
    c: Seq<(Seq<char>, Option<Seq<char>>, Option<Seq<char>>)>,
) -> Option<Seq<char>> {
    let name = import_crate_s(imp);
    if name.len() == 0 {
        None
    } else {
        module_for_crate_s(c, name)
    }
}

fn underscored_eq(n: &Vec<char>, name: &Vec<char>) -> (r: bool)
    ensures
        r == (dash_to_underscore(n@) == name@),
{
    if n.len() != name.len() {
        return false;
    }
    let mut i: usize = 0;
    while i < n.len()
        invariant
            i <= n.len() == name.len(),
            forall|j: int| 0 <= j < i ==> dash_to_underscore(n@)[j] == name@[j],
        decreases n.len() - i,
    {
        let c = if n[i] == '-' {
            '_'
        } else {
            n[i]
        };
        if c != name[i] {
            assert(dash_to_underscore(n@)[i as int] != name@[i as int]);
            return false;
        }
        i += 1;
    }
    assert(dash_to_underscore(n@) == name@);
    true
}

fn opt_answers(n: &Option<String>, name: &Vec<char>) -> (r: bool)
    ensures
        r == answers_to(
            match n {
                Some(x) => Some(x@),
                None => None,
            },
            name@,
        ),
{
    match n {
        Some(x) => {
            let v = chars_of(x.as_str());
            crate::text::chars_eq(&v, name) || underscored_eq(&v, name)
        },
        None => false,
    }
}

/// The module that a Rust `use` path points into: the last of `crates`
/// (module id, package name, lib name) whose package or lib name, as written
/// or with `-` read as `_`, is the path's first segment.
pub fn module_for_rust_import(imp: &str, crates: &Vec<(String, Option<String>, Option<String>)>) -> (r:
    Option<String>)
    ensures
        match rust_import_module_s(imp@, crates_view(crates@)) {
            Some(id) => r matches Some(x) && x@ == id,
            None => r is None,
        },
{
    let v = chars_of(imp);
    let mut e: usize = 0;
    while e < v.len() && e + 1 < v.len() && !(v[e] == ':' && v[e + 1] == ':')
        invariant
            e <= v.len(),
            first_path_sep(v@, 0) == first_path_sep(v@, e as int),
        decreases v.len() - e,
    {
        e += 1;
    }
    let end = if e < v.len() && e + 1 < v.len() {
        e
    } else {
        v.len()
    };
    let (a, b) = crate::text::trim_bounds(&v, 0, end);
    assert(v@.take(end as int) == v@.subrange(0, end as int));
    if a == b {
        return None;
    }
    let name_s = crate::text::string_of_range(&v, a, b);
    let name = chars_of(name_s.as_str());
    let ghost cv = crates_view(crates@);
    assert(cv.take(crates.len() as int) == cv);
    let mut k: usize = crates.len();
    while k > 0
        invariant
            k <= crates.len(),
            cv == crates_view(crates@),
            name@ == import_crate_s(v@),
            name@.len() > 0,
            v@ == imp@,
            module_for_crate_s(cv, name@) == module_for_crate_s(cv.take(k as int), name@),
        decreases k,
    {
        let ghost ck = cv.take(k as int);
        assert(ck.last() == cv[k - 1]);
        assert(ck.drop_last() == cv.take(k - 1));
        assert(cv[k - 1] == (
            crates@[k - 1].0@,
            match crates@[k - 1].1 {
                Some(n) => Some(n@),
                None => None,
            },
            match crates@[k - 1].2 {
                Some(n) => Some(n@),
                None => None,
            },
        ));
        if opt_answers(&crates[k - 1].1, &name) || opt_answers(&crates[k - 1].2, &name) {
            assert(module_for_crate_s(ck, name@) == Some(cv[k - 1].0));
            return Some(crates[k - 1].0.clone());
        }
        k -= 1;
    }
    None
}

// ───────────────────────── module graph assembly ─────────────────────────

/// A module found under the graph's root, with what was counted in it.
#[derive(Debug, Clone)]
pub struct ModuleInfo {
    /// The module root's absolute path.
    pub abs: String,
    /// The module's id (its path relative to its workspace root, `.` for the root).
    pub id: String,
    pub file_count: u64,
    pub bytes: u64,
    pub est_tokens: u64,
}

/// The display name of a module: the repository's folder name (or `root`)
/// for the repository root itself, else the module folder's name (or `module`).
pub open spec fn module_label_s(repo_root: Seq<char>, module_abs: Seq<char>) -> Seq<char> {
    if crate::workspace::components_s(module_abs) == crate::workspace::components_s(repo_root) {
        match file_name_s(repo_root) {
            Some(n) => n,
            None => "root"@,
        }
    } else {
        match file_name_s(module_abs) {
            Some(n) => n,
            None => "module"@,
        }
    }
}

pub(crate) fn same_components(a: &str, b: &str) -> (r: bool)
    ensures
        r == (crate::workspace::components_s(a@) == crate::workspace::components_s(b@)),
{
    let av = chars_of(a);
    let bv = chars_of(b);
    let ca = crate::workspace::components_of(&av);
    let cb = crate::workspace::components_of(&bv);
    let ghost va = ca@.map_values(|c: Vec<char>| c@);
    let ghost vb = cb@.map_values(|c: Vec<char>| c@);
    assert(va == crate::workspace::components_s(a@));
    assert(vb == crate::workspace::components_s(b@));
    if ca.len() != cb.len() {
        assert(va.len() != vb.len());
        return false;
    }
    let mut i: usize = 0;
    while i < ca.len()
        invariant
            i <= ca.len() == cb.len(),
            va == ca@.map_values(|c: Vec<char>| c@),
            vb == cb@.map_values(|c: Vec<char>| c@),
            va == crate::workspace::components_s(a@),
            vb == crate::workspace::components_s(b@),
            forall|j: int| 0 <= j < i ==> va[j] == vb[j],
        decreases ca.len() - i,
    {
        if !crate::text::chars_eq(&ca[i], &cb[i]) {
            assert(va[i as int] != vb[i as int]);
            assert(va != vb);
            return false;
        }
        i += 1;
    }
    assert(va =~= vb);
    true
}

/// The display name of a module.
pub fn module_label(repo_root: &str, module_abs: &str) -> (r: String)
    ensures
        r@ == module_label_s(repo_root@, module_abs@),
{
    proof {
        reveal_strlit("root");
        reveal_strlit("module");
    }
    if same_components(module_abs, repo_root) {
        match crate::path::file_name_string(&chars_of(repo_root)) {
            Some(n) => n,
            None => String::from_str("root"),
        }
    } else {
        match crate::path::file_name_string(&chars_of(module_abs)) {
            Some(n) => n,
            None => String::from_str("module"),
        }
    }
}

/// The first of `ancestors` (a directory, then its parents up to where the
/// search stops) that is a module root: the module owning files there.
pub fn owner_module(ancestors: &Vec<String>, module_roots: &Vec<String>) -> (r: Option<usize>)
    ensures
        match r {
            Some(i) => i < ancestors.len() && module_roots@.map_values(|s: String| s@).contains(
                ancestors@[i as int]@,
            ) && forall|j: int|
                0 <= j < i ==> !module_roots@.map_values(|s: String| s@).contains(
                    #[trigger] ancestors@[j]@,
                ),
            None => forall|j: int|
                0 <= j < ancestors.len() ==> !module_roots@.map_values(|s: String| s@).contains(
                    #[trigger] ancestors@[j]@,
                ),
        },
{
    let ghost rv = module_roots@.map_values(|s: String| s@);
    let mut i: usize = 0;
    while i < ancestors.len()
        invariant
            i <= ancestors.len(),
            rv == module_roots@.map_values(|s: String| s@),
            forall|j: int| 0 <= j < i ==> !rv.contains(#[trigger] ancestors@[j]@),
        decreases ancestors.len() - i,
    {
        let mut k: usize = 0;
        while k < module_roots.len()
            invariant
                k <= module_roots.len(),
                i < ancestors.len(),
                rv == module_roots@.map_values(|s: String| s@),
                forall|j: int| 0 <= j < i ==> !rv.contains(#[trigger] ancestors@[j]@),
                forall|q: int| 0 <= q < k ==> rv[q] != ancestors@[i as int]@,
            decreases module_roots.len() - k,
        {
            if str_is(module_roots[k].as_str(), ancestors[i].as_str()) {
                assert(rv[k as int] == ancestors@[i as int]@);
                assert(rv.contains(ancestors@[i as int]@));
                return Some(i);
            }
            k += 1;
        }
        assert(!rv.contains(ancestors@[i as int]@));
        i += 1;
    }
    None
}

/// A module node as plain values: id, label, path, files, bytes, tokens.
pub open spec fn module_node_v(n: ModuleNode) -> (Seq<char>, Seq<char>, Seq<char>, u64, u64, u64) {
    (n.id@, n.label@, n.path@, n.file_count, n.bytes, n.est_tokens)
}

/// The node of a module.
pub open spec fn module_node_of(repo_root: Seq<char>, m: ModuleInfo) -> (Seq<char>, Seq<char>, Seq<
    char,
>, u64, u64, u64) {
    (m.id@, module_label_s(repo_root, m.abs@), m.id@, m.file_count, m.bytes, m.est_tokens)
}

/// The module graph: a node per module (labelled by its folder), sorted
/// stably by id, and the weighted edges that `refs` (source id, target id,
/// weight) add up to, as `weighted_module_edges` gives them.
pub fn assemble_module_graph(repo_root: &str, modules: &Vec<ModuleInfo>, refs: &Vec<(String, String, u64)>) -> (r: ModuleGraph)
    requires
        total_weight(refs_view(refs@)) <= u64::MAX,
    ensures
        crate::repo_map::stably_sorted(
            r.nodes@.map_values(|n: ModuleNode| module_node_v(n)),
            modules@.map_values(|m: ModuleInfo| module_node_of(repo_root@, m)),
            |n: (Seq<char>, Seq<char>, Seq<char>, u64, u64, u64)| n.0,
        ),
        forall|i: int|
            0 <= i < r.edges.len() ==> {
                let e = #[trigger] r.edges@[i];
                &&& links(refs_view(refs@), e.source@, e.target@)
                &&& e.weight == pair_weight(refs_view(refs@), e.source@, e.target@)
                &&& e.id@ == edge_id_s(e.source@, e.target@)
            },
        forall|s: Seq<char>, t: Seq<char>|
            #[trigger] links(refs_view(refs@), s, t) ==> exists|i: int|
                0 <= i < r.edges.len() && (#[trigger] r.edges@[i]).source@ == s && r.edges@[i].target@ == t,
        forall|i: int, j: int|
            0 <= i < j < r.edges.len() ==> edge_lt(#[trigger] r.edges@[i], #[trigger] r.edges@[j]),
{
    let ghost xs = modules@.map_values(|m: ModuleInfo| module_node_of(repo_root@, m));
    let mut keys: Vec<Vec<char>> = Vec::new();
    let mut k: usize = 0;
    while k < modules.len()
        invariant
            k <= modules.len(),
            xs == modules@.map_values(|m: ModuleInfo| module_node_of(repo_root@, m)),
            keys.len() == k,
            forall|j: int| 0 <= j < k ==> (#[trigger] keys@[j])@ == modules@[j].id@,
        decreases modules.len() - k,
    {
        keys.push(chars_of(modules[k].id.as_str()));
        k += 1;
    }
    let ghost key = |n: (Seq<char>, Seq<char>, Seq<char>, u64, u64, u64)| n.0;
    assert(keys@.map_values(|v: Vec<char>| v@) =~= xs.map_values(key));
    let p = crate::sort::sort_perm(&keys);
    let mut nodes: Vec<ModuleNode> = Vec::new();
    let mut q: usize = 0;
    while q < p.len()
        invariant
            q <= p.len() == modules.len(),
            is_perm(p@, modules.len() as nat),
            nodes.len() == q,
            xs == modules@.map_values(|m: ModuleInfo| module_node_of(repo_root@, m)),
            forall|t: int| 0 <= t < q ==> module_node_v(#[trigger] nodes@[t]) == xs[p@[t] as int],
        decreases p.len() - q,
    {
        let m = &modules[p[q]];
        nodes.push(
            ModuleNode {
                id: m.id.clone(),
                label: module_label(repo_root, m.abs.as_str()),
                path: m.id.clone(),
                file_count: m.file_count,
                bytes: m.bytes,
                est_tokens: m.est_tokens,
            },
        );
        q += 1;
    }
    proof {
        let rn = nodes@.map_values(|n: ModuleNode| module_node_v(n));
        assert forall|t: int| 0 <= t < rn.len() implies rn[t] == #[trigger] xs[p@[t] as int] by {}
        assert(is_perm(p@, xs.len()) && crate::sort::orders(p@, xs.map_values(key))
            && crate::sort::stable(p@, xs.map_values(key)) && rn.len() == xs.len());
    }
    let edges = weighted_module_edges(refs);
    ModuleGraph { nodes, edges }
}

/// The label of a module declared by `manifest`: for `Cargo.toml` the lib
/// name, else the package name; for the other manifests the name they
/// declare; the folder's name when there is none.
pub open spec fn manifest_label_s(
    manifest: Seq<char>,
    folder: Seq<char>,
    declared: Option<Seq<char>>,
    cargo_lib: Option<Seq<char>>,
    cargo_package: Option<Seq<char>>,
) -> Seq<char> {
    if manifest == "Cargo.toml"@ {
        match cargo_lib {
            Some(n) => n,
            None => match cargo_package {
                Some(n) => n,
                None => folder,
            },
        }
    } else {
        match declared {
            Some(n) => n,
            None => folder,
        }
    }
}

fn clone_opt(o: &Option<String>) -> (r: Option<String>)
    ensures
        match *o {
            Some(x) => r matches Some(y) && y@ == x@,
            None => r is None,
        },
{
    match o {
        Some(x) => Some(x.clone()),
        None => None,
    }
}

/// The label of a module declared by `manifest`.
pub fn manifest_label(
    manifest: &str,
    folder: &str,
    declared: &Option<String>,
    cargo_lib: &Option<String>,
    cargo_package: &Option<String>,
) -> (r: String)
    ensures
        r@ == manifest_label_s(
            manifest@,
            folder@,
            match *declared {
                Some(x) => Some(x@),
                None => None,
            },
            match *cargo_lib {
                Some(x) => Some(x@),
                None => None,
            },
            match *cargo_package {
                Some(x) => Some(x@),
                None => None,
            },
        ),
{
    let pick = if str_is(manifest, "Cargo.toml") {
        match clone_opt(cargo_lib) {
            Some(n) => Some(n),
            None => clone_opt(cargo_package),
        }
    } else {
        clone_opt(declared)
    };
    match pick {
        Some(n) => n,
        None => String::from_str(folder),
    }
}

/// The module a path dependency leads to: the last module whose directory
/// is `dep_rel`, unless that is the depending module itself.
pub open spec fn dependency_module_s(
    dep_rel: Seq<char>,
    source: Seq<char>,
    dirs: Seq<(Seq<char>, Seq<char>)>,
) -> Option<Seq<char>> {
    match last_dir_match(dirs, dep_rel) {
        Some(id) => if id != source { Some(id) } else { None },
        None => None,
    }
}

/// The id of the last entry of `dirs` (directory, id) whose directory is `d`.
pub open spec fn last_dir_match(dirs: Seq<(Seq<char>, Seq<char>)>, d: Seq<char>) -> Option<Seq<char>>
    decreases dirs.len(),
{
    if dirs.len() == 0 {
        None
    } else if dirs.last().0 == d {
        Some(dirs.last().1)
    } else {
        last_dir_match(dirs.drop_last(), d)
    }
}

/// The module that a path dependency of module `source` leads to, among the
/// modules' directories `dirs` (directory, id): the last with that
/// directory, unless it is `source` itself.
pub fn dependency_module(dep_rel: &str, source: &str, dirs: &Vec<(String, String)>) -> (r: Option<String>)
    ensures
        match dependency_module_s(dep_rel@, source@, pairs_view(dirs@)) {
            Some(id) => r matches Some(x) && x@ == id,
            None => r is None,
        },
{
    let ghost dv = pairs_view(dirs@);
    assert(dv.take(dirs.len() as int) == dv);
    let mut k: usize = dirs.len();
    while k > 0
        invariant
            k <= dirs.len(),
            dv == pairs_view(dirs@),
            last_dir_match(dv, dep_rel@) == last_dir_match(dv.take(k as int), dep_rel@),
        decreases k,
    {
        assert(dv.take(k as int).drop_last() == dv.take(k - 1));
        assert(dv.take(k as int).last() == dv[k - 1]);
        assert(dv[k - 1] == (dirs@[k - 1].0@, dirs@[k - 1].1@));
        if str_is(dirs[k - 1].0.as_str(), dep_rel) {
            if str_is(dirs[k - 1].1.as_str(), source) {
                return None;
            }
            return Some(dirs[k - 1].1.clone());
        }
        k -= 1;
    }
    None
}

/// The index of the first of `roots` from `k` on equal to `d`.
pub open spec fn index_in(roots: Seq<Seq<char>>, d: Seq<char>, k: int) -> Option<int>
    decreases roots.len() - k,
{
    if k < 0 || k >= roots.len() {
        None
    } else if roots[k] == d {
        Some(k)
    } else {
        index_in(roots, d, k + 1)
    }
}

/// The module owning a file whose directory and its parents (nearest
/// first, from `j` on) are `ancestors`: the first ancestor that is a module
/// root, as its index among `roots`; the first root when none is.
pub open spec fn owner_of_s(ancestors: Seq<Seq<char>>, roots: Seq<Seq<char>>, j: int) -> int
    decreases ancestors.len() - j,
{
    if j < 0 || j >= ancestors.len() {
        0
    } else {
        match index_in(roots, ancestors[j], 0) {
            Some(k) => k,
            None => owner_of_s(ancestors, roots, j + 1),
        }
    }
}

/// The files (each its ancestors and its size) as plain values.
pub open spec fn files_view(files: Seq<(Vec<String>, u64)>) -> Seq<(Seq<Seq<char>>, u64)> {
    files.map_values(|f: (Vec<String>, u64)| (f.0@.map_values(|s: String| s@), f.1))
}

/// The bytes of all the files.
pub open spec fn files_bytes(files: Seq<(Seq<Seq<char>>, u64)>) -> nat
    decreases files.len(),
{
    if files.len() == 0 {
        0
    } else {
        files_bytes(files.drop_last()) + files.last().1 as nat
    }
}

/// The files module `k` owns among `files`, and their bytes.
pub open spec fn tally_s(roots: Seq<Seq<char>>, files: Seq<(Seq<Seq<char>>, u64)>, k: int) -> (nat, nat)
    decreases files.len(),
{
    if files.len() == 0 {
        (0, 0)
    } else {
        let r = tally_s(roots, files.drop_last(), k);
        let f = files.last();
        if owner_of_s(f.0, roots, 0) == k {
            (r.0 + 1, r.1 + f.1 as nat)
        } else {
            r
        }
    }
}

proof fn lemma_tally_bounds(roots: Seq<Seq<char>>, files: Seq<(Seq<Seq<char>>, u64)>, k: int)
    ensures
        tally_s(roots, files, k).0 <= files.len(),
        tally_s(roots, files, k).1 <= files_bytes(files),
    decreases files.len(),
{
    if files.len() > 0 {
        lemma_tally_bounds(roots, files.drop_last(), k);
    }
}

proof fn lemma_files_bytes_prefix(files: Seq<(Seq<Seq<char>>, u64)>, i: int)
    requires
        0 <= i <= files.len(),
    ensures
        files_bytes(files.take(i)) <= files_bytes(files),
    decreases files.len(),
{
    if i < files.len() {
        assert(files.drop_last().take(i) == files.take(i));
        lemma_files_bytes_prefix(files.drop_last(), i);
    } else {
        assert(files.take(i) == files);
    }
}

fn owner_of(ancestors: &Vec<String>, roots: &Vec<String>) -> (r: usize)
    ensures
        r == owner_of_s(ancestors@.map_values(|s: String| s@), roots@.map_values(|s: String| s@), 0),
        roots.len() > 0 ==> r < roots.len(),
{
    let ghost av = ancestors@.map_values(|s: String| s@);
    let ghost rv = roots@.map_values(|s: String| s@);
    let mut j: usize = 0;
    while j < ancestors.len()
        invariant
            j <= ancestors.len(),
            av == ancestors@.map_values(|s: String| s@),
            rv == roots@.map_values(|s: String| s@),
            owner_of_s(av, rv, 0) == owner_of_s(av, rv, j as int),
        decreases ancestors.len() - j,
    {
        let mut k: usize = 0;
        while k < roots.len()
            invariant
                k <= roots.len(),
                j < ancestors.len(),
                av == ancestors@.map_values(|s: String| s@),
                rv == roots@.map_values(|s: String| s@),
                index_in(rv, av[j as int], 0) == index_in(rv, av[j as int], k as int),
                owner_of_s(av, rv, 0) == owner_of_s(av, rv, j as int),
            decreases roots.len() - k,
        {
            if str_is(roots[k].as_str(), ancestors[j].as_str()) {
                assert(rv[k as int] == av[j as int]);
                assert(index_in(rv, av[j as int], k as int) == Some(k as int));
                assert(owner_of_s(av, rv, j as int) == k);
                return k;
            }
            k += 1;
        }
        j += 1;
    }
    0
}

/// How many files each module owns, and their bytes: a file belongs to the
/// nearest of its directory and that directory's parents (`ancestors`,
/// nearest first) that is a module root, else to the first module root.
pub fn module_tally(module_roots: &Vec<String>, files: &Vec<(Vec<String>, u64)>) -> (r: Vec<(u64, u64)>)
    requires
        files_bytes(files_view(files@)) <= u64::MAX,
    ensures
        r.len() == module_roots.len(),
        forall|k: int|
            0 <= k < r.len() ==> (#[trigger] r@[k]).0 == tally_s(
                module_roots@.map_values(|s: String| s@),
                files_view(files@),
                k,
            ).0 && r@[k].1 == tally_s(module_roots@.map_values(|s: String| s@), files_view(files@), k).1,
{
    let ghost rv = module_roots@.map_values(|s: String| s@);
    let ghost fv = files_view(files@);
    let mut counts: Vec<(u64, u64)> = Vec::new();
    let mut k: usize = 0;
    while k < module_roots.len()
        invariant
            k <= module_roots.len(),
            counts.len() == k,
            forall|q: int| 0 <= q < k ==> (#[trigger] counts@[q]) == (0u64, 0u64),
        decreases module_roots.len() - k,
    {
        counts.push((0, 0));
        k += 1;
    }
    let mut i: usize = 0;
    while i < files.len()
        invariant
            i <= files.len(),
            counts.len() == module_roots.len(),
            rv == module_roots@.map_values(|s: String| s@),
            fv == files_view(files@),
            files_bytes(fv) <= u64::MAX,
            forall|q: int|
                0 <= q < counts.len() ==> (#[trigger] counts@[q]).0 == tally_s(rv, fv.take(i as int), q).0
                    && counts@[q].1 == tally_s(rv, fv.take(i as int), q).1,
        decreases files.len() - i,
    {
        let ghost pre = fv.take(i as int);
        let ghost post = fv.take(i + 1);
        assert(post.drop_last() == pre);
        assert(post.last() == fv[i as int]);
        assert(fv[i as int].0 == files@[i as int].0@.map_values(|s: String| s@));
        proof {
            lemma_files_bytes_prefix(fv, i + 1);
        }
        if module_roots.len() > 0 {
            let o = owner_of(&files[i].0, module_roots);
            proof {
                lemma_tally_bounds(rv, post, o as int);
            }
            let (n, b) = counts[o];
            counts.set(o, (n + 1, b + files[i].1));
        }
        assert forall|q: int| 0 <= q < counts.len() implies (#[trigger] counts@[q]).0 == tally_s(
            rv,
            post,
            q,
        ).0 && counts@[q].1 == tally_s(rv, post, q).1 by {}
        i += 1;
    }
    assert(fv.take(files.len() as int) == fv);
    counts
}

// ───────────────────────── modules from manifests ─────────────────────────

/// A manifest handed in for a module map: the directory holding it (and
/// that directory relative to the repository), the manifest's file name, its
/// text when it could be read, and the Cargo lib and package names.
pub struct ManifestEntry {
    pub dir_abs: String,
    pub dir_rel: String,
    pub manifest: String,
    pub text: Option<String>,
    pub cargo_lib: Option<String>,
    pub cargo_package: Option<String>,
}

/// A module a manifest declares.
pub struct ModuleSpec {
    pub dir_abs: String,
    pub dir_rel: String,
    pub id: String,
    pub label: String,
    pub cargo_name: Option<String>,
    pub cargo_lib_name: Option<String>,
}

/// A manifest entry as plain values.
pub struct ManifestEntryV {
    pub dir_abs: Seq<char>,
    pub dir_rel: Seq<char>,
    pub manifest: Seq<char>,
    pub text: Option<Seq<char>>,
    pub cargo_lib: Option<Seq<char>>,
    pub cargo_package: Option<Seq<char>>,
}

/// A module as plain values.
pub struct ModuleSpecV {
    pub dir_abs: Seq<char>,
    pub dir_rel: Seq<char>,
    pub id: Seq<char>,
    pub label: Seq<char>,
    pub cargo_name: Option<Seq<char>>,
    pub cargo_lib_name: Option<Seq<char>>,
}

pub open spec fn entry_v(e: ManifestEntry) -> ManifestEntryV {
    ManifestEntryV {
        dir_abs: e.dir_abs@,
        dir_rel: e.dir_rel@,
        manifest: e.manifest@,
        text: opt_view(e.text),
        cargo_lib: opt_view(e.cargo_lib),
        cargo_package: opt_view(e.cargo_package),
    }
}

pub open spec fn spec_v(m: ModuleSpec) -> ModuleSpecV {
    ModuleSpecV {
        dir_abs: m.dir_abs@,
        dir_rel: m.dir_rel@,
        id: m.id@,
        label: m.label@,
        cargo_name: opt_view(m.cargo_name),
        cargo_lib_name: opt_view(m.cargo_lib_name),
    }
}

/// The name a manifest's text declares: a `package.json`'s `name`, a
/// `pubspec.yaml`'s `name:`, a `go.mod`'s module.
pub open spec fn declared_name_s(manifest: Seq<char>, text: Option<Seq<char>>) -> Option<Seq<char>> {
    match text {
        None => None,
        Some(t) => if manifest == "package.json"@ {
            json_top_string(t, "name"@)
        } else if manifest == "pubspec.yaml"@ {
            pubspec_name_from(crate::z4::lines_s(t), 0)
        } else if manifest == "go.mod"@ {
            go_module_from(crate::z4::lines_s(t), 0)
        } else {
            None
        },
    }
}

/// The module a manifest entry declares.
pub open spec fn module_of_s(e: ManifestEntryV) -> ModuleSpecV {
    let folder = match file_name_s(e.dir_abs) {
        Some(f) => f,
        None => "module"@,
    };
    ModuleSpecV {
        dir_abs: e.dir_abs,
        dir_rel: e.dir_rel,
        id: if e.dir_rel.len() == 0 { "."@ } else { e.dir_rel },
        label: manifest_label_s(
            e.manifest,
            folder,
            declared_name_s(e.manifest, e.text),
            e.cargo_lib,
            e.cargo_package,
        ),
        cargo_name: e.cargo_package,
        cargo_lib_name: e.cargo_lib,
    }
}

/// The directories of `ms`.
pub open spec fn dirs_of(ms: Seq<ModuleSpecV>) -> Seq<Seq<char>> {
    ms.map_values(|m: ModuleSpecV| m.dir_abs)
}

/// The modules the manifests declare, in the order given: a manifest
/// counts when its name is a known manifest, its directory has no forbidden
/// component, and no manifest before it declared that directory.
pub open spec fn kept_modules_s(es: Seq<ManifestEntryV>) -> Seq<ModuleSpecV>
    decreases es.len(),
{
    if es.len() == 0 {
        seq![]
    } else {
        let r = kept_modules_s(es.drop_last());
        let e = es.last();
        if known_manifests().contains(e.manifest) && !crate::repo_map::has_forbidden_component_s(
            e.dir_abs,
        ) && !dirs_of(r).contains(e.dir_abs) {
            r.push(module_of_s(e))
        } else {
            r
        }
    }
}

fn declared_name(manifest: &str, text: &Option<String>) -> (r: Option<String>)
    ensures
        opt_view(r) == declared_name_s(manifest@, opt_view(*text)),
{
    match text {
        None => None,
        Some(t) => if str_is(manifest, "package.json") {
            crate::package_json::package_json_name(t.as_str())
        } else if str_is(manifest, "pubspec.yaml") {
            pubspec_name(t.as_str())
        } else if str_is(manifest, "go.mod") {
            go_module_name(t.as_str())
        } else {
            None
        },
    }
}

fn module_of(e: &ManifestEntry) -> (r: ModuleSpec)
    ensures
        spec_v(r) == module_of_s(entry_v(*e)),
{
    let v = chars_of(e.dir_abs.as_str());
    let folder = match crate::path::file_name_string(&v) {
        Some(f) => f,
        None => String::from_str("module"),
    };
    let declared = declared_name(e.manifest.as_str(), &e.text);
    let label = manifest_label(e.manifest.as_str(), folder.as_str(), &declared, &e.cargo_lib, &e.cargo_package);
    ModuleSpec {
        dir_abs: e.dir_abs.clone(),
        dir_rel: e.dir_rel.clone(),
        id: normalize_module_id(e.dir_rel.as_str()),
        label,
        cargo_name: clone_opt(&e.cargo_package),
        cargo_lib_name: clone_opt(&e.cargo_lib),
    }
}

fn has_dir(ms: &Vec<ModuleSpec>, dir: &str) -> (r: bool)
    ensures
        r == dirs_of(ms@.map_values(|m: ModuleSpec| spec_v(m))).contains(dir@),
{
    let ghost ds = dirs_of(ms@.map_values(|m: ModuleSpec| spec_v(m)));
    let mut i: usize = 0;
    while i < ms.len()
        invariant
            i <= ms.len(),
            ds == dirs_of(ms@.map_values(|m: ModuleSpec| spec_v(m))),
            forall|j: int| 0 <= j < i ==> ds[j] != dir@,
        decreases ms.len() - i,
    {
        assert(ds[i as int] == ms@[i as int].dir_abs@);
        if str_is(ms[i].dir_abs.as_str(), dir) {
            return true;
        }
        i += 1;
    }
    false
}

/// The modules a list of manifests declares, sorted by id (stably): each
/// known manifest whose directory has no forbidden component and was not
/// declared by an earlier manifest gives one module, labelled by the name
/// the manifest declares, else by its folder.
pub fn modules_from_manifests(entries: &Vec<ManifestEntry>) -> (r: Vec<ModuleSpec>)
    ensures
        ({
            let ks = kept_modules_s(entries@.map_values(|e: ManifestEntry| entry_v(e)));
            exists|p: Seq<usize>|
                is_perm(p, ks.len()) && orders(p, ks.map_values(|m: ModuleSpecV| m.id)) && stable(
                    p,
                    ks.map_values(|m: ModuleSpecV| m.id),
                ) && r.len() == ks.len() && forall|i: int|
                    0 <= i < r.len() ==> spec_v(#[trigger] r@[i]) == ks[p[i] as int]
        }),
{
    let ghost ev = entries@.map_values(|e: ManifestEntry| entry_v(e));
    let mut kept: Vec<ModuleSpec> = Vec::new();
    let mut i: usize = 0;
    while i < entries.len()
        invariant
            i <= entries.len(),
            ev == entries@.map_values(|e: ManifestEntry| entry_v(e)),
            kept@.map_values(|m: ModuleSpec| spec_v(m)) == kept_modules_s(ev.take(i as int)),
        decreases entries.len() - i,
    {
        let e = &entries[i];
        assert(ev.take(i + 1).drop_last() == ev.take(i as int));
        assert(ev.take(i + 1).last() == entry_v(*e));
        let ghost before = kept@.map_values(|m: ModuleSpec| spec_v(m));
        if is_known_manifest_file(e.manifest.as_str()) && !crate::repo_map::path_has_forbidden_component(
            e.dir_abs.as_str(),
        ) && !has_dir(&kept, e.dir_abs.as_str()) {
            let m = module_of(e);
            kept.push(m);
            assert(kept@.map_values(|m: ModuleSpec| spec_v(m)) == before.push(spec_v(m)));
        }
        i += 1;
    }
    assert(ev.take(entries.len() as int) == ev);
    let ghost ks = kept_modules_s(ev);
    let mut keys: Vec<Vec<char>> = Vec::new();
    let mut j: usize = 0;
    while j < kept.len()
        invariant
            j <= kept.len(),
            keys.len() == j,
            ks == kept@.map_values(|m: ModuleSpec| spec_v(m)),
            forall|q: int| 0 <= q < j ==> (#[trigger] keys@[q])@ == ks[q].id,
        decreases kept.len() - j,
    {
        keys.push(chars_of(kept[j].id.as_str()));
        j += 1;
    }
    let ghost ids = ks.map_values(|m: ModuleSpecV| m.id);
    assert(keys@.map_values(|k: Vec<char>| k@) =~= ids);
    let p = crate::sort::sort_perm(&keys);
    let mut out: Vec<ModuleSpec> = Vec::new();
    let mut k: usize = 0;
    while k < p.len()
        invariant
            k <= p.len() == kept.len(),
            is_perm(p@, kept.len() as nat),
            ks == kept@.map_values(|m: ModuleSpec| spec_v(m)),
            out.len() == k,
            forall|q: int| 0 <= q < k ==> spec_v(#[trigger] out@[q]) == ks[p@[q] as int],
        decreases p.len() - k,
    {
        let src = &kept[p[k]];
        let m = ModuleSpec {
            dir_abs: src.dir_abs.clone(),
            dir_rel: src.dir_rel.clone(),
            id: src.id.clone(),
            label: src.label.clone(),
            cargo_name: clone_opt(&src.cargo_name),
            cargo_lib_name: clone_opt(&src.cargo_lib_name),
        };
        assert(spec_v(m) == ks[p@[k as int] as int]);
        out.push(m);
        k += 1;
    }
    assert(is_perm(p@, ks.len()) && orders(p@, ids) && stable(p@, ids) && out.len() == ks.len()
        && forall|q: int| 0 <= q < out.len() ==> spec_v(#[trigger] out@[q]) == ks[p@[q] as int]);
    out
}

} // verus!
