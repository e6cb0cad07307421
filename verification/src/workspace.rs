//! Workspace members of monorepos: manifest kinds, the member that contains
//! a path, the ordering and merging of the members found under one or
//! several roots, and the topology summary of all roots.
use vstd::prelude::*;
use crate::text::{strings_view};
use crate::path::{split_bounds, split_s};
use crate::pathing::{default_alias, default_alias_s};
use crate::sort::{
    depth_then_text, is_perm, orders, sort_perm, sort_perm_depth_text, sorted_by, stable, stable_by,
};
use crate::text::{chars_of, push_str};

verus! {

/// The kind of manifest that marks a project directory.
#[derive(Debug, Clone, Copy, PartialEq, Eq)]
pub enum ManifestKind {
    Cargo,
    Npm,
    Python,
    Go,
    Unknown,
}

impl ManifestKind {
    /// The lower-case name of the kind.
    pub open spec fn name_s(self) -> Seq<char> {
        match self {
            ManifestKind::Cargo => "cargo"@,
            ManifestKind::Npm => "npm"@,
            ManifestKind::Python => "python"@,
            ManifestKind::Go => "go"@,
            ManifestKind::Unknown => "unknown"@,
        }
    }

    /// The lower-case name of the kind.
    pub fn name(&self) -> (r: &'static str)
        ensures
            r@ == self.name_s(),
    {
        match self {
            ManifestKind::Cargo => "cargo",
            ManifestKind::Npm => "npm",
            ManifestKind::Python => "python",
            ManifestKind::Go => "go",
            ManifestKind::Unknown => "unknown",
        }
    }
}

/// The languages a manifest kind implies.
pub open spec fn languages_s(kind: ManifestKind) -> Seq<Seq<char>> {
    match kind {
        ManifestKind::Cargo => seq!["rust"@],
        ManifestKind::Npm => seq!["typescript"@, "javascript"@],
        ManifestKind::Python => seq!["python"@],
        ManifestKind::Go => seq!["go"@],
        ManifestKind::Unknown => seq![],
    }
}

/// The languages a manifest kind implies.
pub fn languages_for_manifest_kind(kind: ManifestKind) -> (r: Vec<String>)
    ensures
        strings_view(r@) == languages_s(kind),
{
    let mut v: Vec<String> = Vec::new();
    match kind {
        ManifestKind::Cargo => v.push(String::from_str("rust")),
        ManifestKind::Npm => {
            v.push(String::from_str("typescript"));
            v.push(String::from_str("javascript"));
        },
        ManifestKind::Python => v.push(String::from_str("python")),
        ManifestKind::Go => v.push(String::from_str("go")),
        ManifestKind::Unknown => {},
    }
    assert(strings_view(v@) =~= languages_s(kind));
    v
}

/// Every known manifest kind implies at least one language and only
/// `Unknown` implies none, so a topology line shows languages (never `-`)
/// for every known kind; a single-language ecosystem (Python, Go) implies
/// exactly the language its kind is named after.
pub proof fn law_known_kinds_have_languages(kind: ManifestKind)
    ensures
        (languages_s(kind).len() == 0) <==> (kind == ManifestKind::Unknown),
        kind != ManifestKind::Unknown ==> languages_text(kind) == join_commas(languages_s(kind))
            && languages_text(kind).len() > 0 && languages_text(kind) != "-"@,
        (kind == ManifestKind::Python || kind == ManifestKind::Go) ==> languages_s(kind) == seq![
            kind.name_s(),
        ],
{
    reveal_strlit("-");
    reveal_strlit("rust");
    reveal_strlit("typescript");
    reveal_strlit("javascript");
    reveal_strlit("python");
    reveal_strlit("go");
    reveal_strlit(",");
    let ls = languages_s(kind);
    if ls.len() == 1 {
        assert(join_commas(ls) == ls[0]);
    } else if ls.len() == 2 {
        assert(ls.drop_last() =~= seq![ls[0]]);
        assert(join_commas(ls.drop_last()) == ls[0]);
        assert(join_commas(ls) == ls[0] + ","@ + ls[1]);
    }
}

/// The manifest kind of a directory from which manifests it holds, in order
/// of precedence: `Cargo.toml`, `package.json`, `pyproject.toml` or
/// `setup.py`, `go.mod`.
pub fn manifest_kind_of(
    has_cargo_toml: bool,
    has_package_json: bool,
    has_pyproject_toml: bool,
    has_setup_py: bool,
    has_go_mod: bool,
) -> (r: ManifestKind)
    ensures
        r == (if has_cargo_toml {
            ManifestKind::Cargo
        } else if has_package_json {
            ManifestKind::Npm
        } else if has_pyproject_toml || has_setup_py {
            ManifestKind::Python
        } else if has_go_mod {
            ManifestKind::Go
        } else {
            ManifestKind::Unknown
        }),
{
    if has_cargo_toml {
        ManifestKind::Cargo
    } else if has_package_json {
        ManifestKind::Npm
    } else if has_pyproject_toml || has_setup_py {
        ManifestKind::Python
    } else if has_go_mod {
        ManifestKind::Go
    } else {
        ManifestKind::Unknown
    }
}

/// Directory names never searched for sub-projects.
pub open spec fn heavy_dirs() -> Seq<Seq<char>> {
    seq![
        "target"@, "node_modules"@, "dist"@, "build"@, ".git"@, "__pycache__"@, ".venv"@,
        "venv"@, ".cortexast"@, ".turbo"@, ".next"@, ".nuxt"@, "coverage"@, "htmlcov"@, ".tox"@,
        ".pytest_cache"@, ".mypy_cache"@, ".ruff_cache"@, "vendor"@, ".bundle"@, ".gradle"@,
        ".m2"@, ".pub-cache"@, "tmp"@, "temp"@, "logs"@, ".cache"@, "out"@,
    ]
}

fn str_eq(a: &str, b: &str) -> (r: bool)
    ensures
        r == (a@ == b@),
{
    let x = chars_of(a);
    let y = chars_of(b);
    if x.len() != y.len() {
        return false;
    }
    let mut i: usize = 0;
    while i < x.len()
        invariant
            i <= x.len() == y.len(),
            x@ == a@,
            y@ == b@,
            forall|j: int| 0 <= j < i ==> x@[j] == y@[j],
        decreases x.len() - i,
    {
        if x[i] != y[i] {
            return false;
        }
        i += 1;
    }
    assert(x@ == y@);
    true
}

/// Whether a directory name is one never searched for sub-projects.
pub fn is_heavy_dir(name: &str) -> (r: bool)
    ensures
        r == heavy_dirs().contains(name@),
{
    let names: [&str; 28] = [
        "target", "node_modules", "dist", "build", ".git", "__pycache__", ".venv", "venv",
        ".cortexast", ".turbo", ".next", ".nuxt", "coverage", "htmlcov", ".tox", ".pytest_cache",
        ".mypy_cache", ".ruff_cache", "vendor", ".bundle", ".gradle", ".m2", ".pub-cache", "tmp",
        "temp", "logs", ".cache", "out",
    ];
    assert(names@.map_values(|s: &str| s@) =~= heavy_dirs());
    let mut i: usize = 0;
    while i < 28
        invariant
            i <= 28,
            names@.map_values(|s: &str| s@) == heavy_dirs(),
            forall|j: int| 0 <= j < i ==> heavy_dirs()[j] != name@,
        decreases 28 - i,
    {
        assert(names@.map_values(|s: &str| s@)[i as int] == names@[i as int]@);
        if str_eq(names[i], name) {
            assert(heavy_dirs()[i as int] == name@);
            return true;
        }
        i += 1;
    }
    false
}

// ───────────────────────── members ─────────────────────────

/// One project of a workspace.
#[derive(Debug, Clone)]
pub struct WorkspaceMember {
    /// Display name (crate name, package name, or directory name).
    pub name: String,
    /// Path relative to the workspace root.
    pub rel_path: String,
    /// Absolute path of the member directory.
    pub abs_path: String,
    pub manifest_kind: ManifestKind,
    /// Nesting depth below the root (0 for a direct child).
    pub depth: usize,
}

/// Options of member discovery.
#[derive(Debug, Clone)]
pub struct WorkspaceDiscoveryOptions {
    /// How many levels below the root are searched.
    pub max_depth: usize,
    /// Globs of members to include (all when empty).
    pub include_patterns: Vec<String>,
    /// Globs of members to exclude.
    pub exclude_patterns: Vec<String>,
}

impl Default for WorkspaceDiscoveryOptions {
    fn default() -> (r: Self)
        ensures
            r.max_depth == 3,
            r.include_patterns@.len() == 0,
            r.exclude_patterns@.len() == 0,
    {
        WorkspaceDiscoveryOptions {
            max_depth: 3,
            include_patterns: Vec::new(),
            exclude_patterns: Vec::new(),
        }
    }
}

/// The segments of `segs` that `Path::components` keeps as names: not empty, not `.`.
pub open spec fn named(segs: Seq<Seq<char>>) -> Seq<Seq<char>>
    decreases segs.len(),
{
    if segs.len() == 0 {
        segs
    } else if segs.last().len() == 0 || segs.last() == seq!['.'] {
        named(segs.drop_last())
    } else {
        named(segs.drop_last()).push(segs.last())
    }
}

/// `Path::components` (Unix): a root (`/`) or a leading `.` when present,
/// then the names between separators.
pub open spec fn components_s(p: Seq<char>) -> Seq<Seq<char>> {
    let segs = split_s(p, '/');
    if p.len() > 0 && p[0] == '/' {
        seq![seq!['/']] + named(segs.drop_first())
    } else if segs[0] == seq!['.'] {
        seq![seq!['.']] + named(segs.drop_first())
    } else {
        named(segs)
    }
}

/// `Path::starts_with`: whole components of `base` begin `p`.
pub open spec fn path_starts_with(p: Seq<char>, base: Seq<char>) -> bool {
    let (a, b) = (components_s(p), components_s(base));
    b.len() <= a.len() && a.take(b.len() as int) == b
}

/// Index of the member containing `target` with the most path components
/// (the last such member when several tie), among the first `n`.
pub open spec fn deepest_member(ms: Seq<WorkspaceMember>, target: Seq<char>, n: int) -> Option<int>
    decreases n,
{
    if n <= 0 {
        None
    } else {
        let best = deepest_member(ms, target, n - 1);
        if path_starts_with(target, ms[n - 1].abs_path@) {
            match best {
                Some(b) => if components_s(ms[n - 1].abs_path@).len() >= components_s(
                    ms[b].abs_path@,
                ).len() {
                    Some(n - 1)
                } else {
                    Some(b)
                },
                None => Some(n - 1),
            }
        } else {
            best
        }
    }
}

/// The components of the path `v`.
pub(crate) fn components_of(v: &[char]) -> (r: Vec<Vec<char>>)
    ensures
        r@.map_values(|c: Vec<char>| c@) == components_s(v@),
{
    let parts = split_bounds(v, '/');
    let ghost segs = split_s(v@, '/');
    proof {
        crate::path::lemma_split_len(v@, '/');
    }
    let mut r: Vec<Vec<char>> = Vec::new();
    let ghost lead: Seq<Seq<char>>;
    if v.len() > 0 && v[0] == '/' {
        let mut c: Vec<char> = Vec::new();
        c.push('/');
        r.push(c);
        proof {
            lead = seq![seq!['/']];
        }
    } else {
        let (a, b) = parts[0];
        assert(v@.subrange(a as int, b as int) == segs[0]);
        if b == a + 1 && v[a] == '.' {
            let mut c: Vec<char> = Vec::new();
            c.push('.');
            r.push(c);
            assert(segs[0] =~= seq!['.']);
            proof {
                lead = seq![seq!['.']];
            }
        } else {
            proof {
                lead = seq![];
            }
            if b - a == 1 {
                assert(segs[0] != seq!['.']) by {
                    assert(segs[0][0] == v@[a as int]);
                }
            }
        }
    }
    let first: usize = if r.len() == 0 && !(v.len() > 0 && v[0] == '/') {
        0
    } else {
        1
    };
    let ghost rest = segs.subrange(first as int, segs.len() as int);
    assert(first == 1 ==> rest == segs.drop_first());
    assert(first == 0 ==> rest == segs);
    assert(r@.map_values(|c: Vec<char>| c@) =~= lead);
    assert(named(segs.subrange(first as int, first as int)) =~= Seq::<Seq<char>>::empty());
    let mut k = first;
    while k < parts.len()
        invariant
            first <= k <= parts.len() == segs.len(),
            segs == split_s(v@, '/'),
            rest == segs.subrange(first as int, segs.len() as int),
            forall|j: int|
                0 <= j < parts.len() ==> {
                    let (a, b) = #[trigger] parts@[j];
                    &&& a <= b <= v.len()
                    &&& v@.subrange(a as int, b as int) == segs[j]
                },
            r@.map_values(|c: Vec<char>| c@) == lead + named(segs.subrange(first as int, k as int)),
        decreases parts.len() - k,
    {
        let (a, b) = parts[k];
        assert(segs.subrange(first as int, k + 1).drop_last() == segs.subrange(first as int, k as int));
        assert(v@.subrange(a as int, b as int) == segs[k as int]);
        if b > a && !(b == a + 1 && v[a] == '.') {
            let seg = crate::z4::slice_chars(v, a, b);
            proof {
                if b == a + 1 {
                    assert(segs[k as int][0] == v@[a as int]);
                }
                assert(segs[k as int] != seq!['.']);
            }
            let ghost before = r@.map_values(|c: Vec<char>| c@);
            let ghost sv = seg@;
            r.push(seg);
            assert(r@.map_values(|c: Vec<char>| c@) =~= before.push(sv));
        } else {
            proof {
                if b == a + 1 {
                    assert(segs[k as int] =~= seq!['.']);
                }
            }
        }
        k += 1;
    }
    assert(segs.subrange(first as int, segs.len() as int) == rest);
    r
}

fn is_prefix_of(base: &Vec<Vec<char>>, p: &Vec<Vec<char>>) -> (r: bool)
    ensures
        r == (base@.len() <= p@.len() && p@.map_values(|c: Vec<char>| c@).take(base@.len() as int)
            == base@.map_values(|c: Vec<char>| c@)),
{
    let ghost bv = base@.map_values(|c: Vec<char>| c@);
    let ghost pv = p@.map_values(|c: Vec<char>| c@);
    if base.len() > p.len() {
        return false;
    }
    let mut i: usize = 0;
    while i < base.len()
        invariant
            i <= base.len() <= p.len(),
            bv == base@.map_values(|c: Vec<char>| c@),
            pv == p@.map_values(|c: Vec<char>| c@),
            forall|j: int| 0 <= j < i ==> pv[j] == bv[j],
        decreases base.len() - i,
    {
        let x = &base[i];
        let y = &p[i];
        assert(bv[i as int] == x@ && pv[i as int] == y@);
        if x.len() != y.len() {
            assert(pv.take(base.len() as int)[i as int] != bv[i as int]);
            return false;
        }
        let mut k: usize = 0;
        while k < x.len()
            invariant
                k <= x.len() == y.len(),
                i < base.len() <= p.len(),
                bv == base@.map_values(|c: Vec<char>| c@),
                pv == p@.map_values(|c: Vec<char>| c@),
                bv[i as int] == x@,
                pv[i as int] == y@,
                forall|j: int| 0 <= j < k ==> x@[j] == y@[j],
            decreases x.len() - k,
        {
            if x[k] != y[k] {
                assert(x@ != y@);
                assert(pv.take(base.len() as int)[i as int] != bv[i as int]);
                return false;
            }
            k += 1;
        }
        assert(x@ == y@);
        i += 1;
    }
    assert(pv.take(base.len() as int) == bv);
    true
}

/// The member that contains `target` with the most path components.
pub fn find_containing_member<'a>(members: &'a [WorkspaceMember], target: &str) -> (r: Option<
    &'a WorkspaceMember,
>)
    ensures
        match deepest_member(members@, target@, members@.len() as int) {
            Some(k) => r matches Some(m) && *m == members@[k],
            None => r is None,
        },
{
    let tv = chars_of(target);
    let tc = components_of(&tv);
    let mut best: Option<usize> = None;
    let mut best_len: usize = 0;
    let mut i: usize = 0;
    while i < members.len()
        invariant
            i <= members.len(),
            tc@.map_values(|c: Vec<char>| c@) == components_s(target@),
            tv@ == target@,
            match deepest_member(members@, target@, i as int) {
                Some(k) => best == Some(k as usize) && 0 <= k < i && best_len == components_s(
                    members@[k].abs_path@,
                ).len(),
                None => best is None,
            },
        decreases members.len() - i,
    {
        let av = chars_of(members[i].abs_path.as_str());
        let ac = components_of(&av);
        if is_prefix_of(&ac, &tc) {
            match best {
                Some(_) => {
                    if ac.len() >= best_len {
                        best = Some(i);
                        best_len = ac.len();
                    }
                },
                None => {
                    best = Some(i);
                    best_len = ac.len();
                },
            }
        }
        i += 1;
    }
    match best {
        Some(k) => Some(&members[k]),
        None => None,
    }
}

// ───────────────────────── topology ─────────────────────────

/// One line of the workspace topology: a root or a member project.
#[derive(Debug, Clone)]
pub struct WorkspaceTopologyEntry {
    pub prefix: String,
    pub name: String,
    pub manifest_kind: ManifestKind,
    pub languages: Vec<String>,
    /// `root` or `member`.
    pub kind: String,
}

/// `e` is member `m` with its relative path replaced by `rel`.
pub open spec fn member_with_rel(e: WorkspaceMember, m: WorkspaceMember, rel: Seq<char>) -> bool {
    &&& e.name@ == m.name@
    &&& e.rel_path@ == rel
    &&& e.abs_path@ == m.abs_path@
    &&& e.manifest_kind == m.manifest_kind
    &&& e.depth == m.depth
}

/// The members found under `root`, each with its relative path prefixed by
/// `[<root's folder name>]/`.
pub open spec fn prefixed_members(root: Seq<char>, ms: Seq<WorkspaceMember>) -> Seq<
    (WorkspaceMember, Seq<char>),
> {
    ms.map_values(
        |m: WorkspaceMember| (m, "["@ + default_alias_s(root) + "]/"@ + m.rel_path@),
    )
}

/// The prefixed members of the first `n` roots, root by root.
pub open spec fn flat_members(
    roots: Seq<Seq<char>>,
    found: Seq<Seq<WorkspaceMember>>,
    n: int,
) -> Seq<(WorkspaceMember, Seq<char>)>
    decreases n,
{
    if n <= 0 {
        seq![]
    } else {
        flat_members(roots, found, n - 1) + prefixed_members(roots[n - 1], found[n - 1])
    }
}

fn member_copy(m: &WorkspaceMember, rel: String) -> (e: WorkspaceMember)
    ensures
        member_with_rel(e, *m, rel@),
{
    WorkspaceMember {
        name: m.name.clone(),
        rel_path: rel,
        abs_path: m.abs_path.clone(),
        manifest_kind: m.manifest_kind,
        depth: m.depth,
    }
}

/// The number of `/` in `s`.
pub open spec fn slash_count(s: Seq<char>) -> nat
    decreases s.len(),
{
    if s.len() == 0 {
        0
    } else {
        slash_count(s.drop_last()) + if s.last() == '/' {
            1nat
        } else {
            0nat
        }
    }
}

/// A member found at `abs_path`, `rel_path` below its root: the path is
/// kept with `/` for every `\\`, and the depth is its number of `/`.
pub fn workspace_member(
    name: String,
    rel_path: &str,
    abs_path: String,
    manifest_kind: ManifestKind,
) -> (m: WorkspaceMember)
    ensures
        m.name@ == name@,
        m.rel_path@ == crate::registry::backslash_to_slash(rel_path@),
        m.abs_path@ == abs_path@,
        m.manifest_kind == manifest_kind,
        m.depth == slash_count(crate::registry::backslash_to_slash(rel_path@)),
{
    let v = chars_of(rel_path);
    let ghost t = crate::registry::backslash_to_slash(v@);
    let mut out: Vec<char> = Vec::new();
    let mut depth: usize = 0;
    let mut i: usize = 0;
    while i < v.len()
        invariant
            i <= v.len(),
            t == crate::registry::backslash_to_slash(v@),
            out@ == t.take(i as int),
            depth == slash_count(t.take(i as int)),
            depth <= i,
        decreases v.len() - i,
    {
        let c = if v[i] == '\\' {
            '/'
        } else {
            v[i]
        };
        assert(t[i as int] == c);
        assert(t.take(i + 1).drop_last() == t.take(i as int));
        out.push(c);
        if c == '/' {
            depth += 1;
        }
        i += 1;
    }
    assert(t.take(v.len() as int) == t);
    WorkspaceMember {
        name,
        rel_path: crate::text::string_of(out.as_slice()),
        abs_path,
        manifest_kind,
        depth,
    }
}

/// Members ordered by depth, then by relative path; members equal in both
/// keep their order.
pub fn order_members(ms: &Vec<WorkspaceMember>) -> (r: Vec<WorkspaceMember>)
    ensures
        r.len() == ms.len(),
        exists|p: Seq<usize>|
            {
                &&& is_perm(p, ms.len() as nat)
                &&& sorted_by(
                    p,
                    depth_then_text(
                        ms@.map_values(|m: WorkspaceMember| m.depth),
                        ms@.map_values(|m: WorkspaceMember| m.rel_path@),
                    ),
                )
                &&& stable_by(
                    p,
                    depth_then_text(
                        ms@.map_values(|m: WorkspaceMember| m.depth),
                        ms@.map_values(|m: WorkspaceMember| m.rel_path@),
                    ),
                )
                &&& forall|k: int|
                    0 <= k < r.len() ==> member_with_rel(
                        #[trigger] r@[k],
                        ms@[p[k] as int],
                        ms@[p[k] as int].rel_path@,
                    )
            },
{
    let mut depths: Vec<usize> = Vec::new();
    let mut keys: Vec<Vec<char>> = Vec::new();
    let mut k: usize = 0;
    while k < ms.len()
        invariant
            k <= ms.len(),
            depths@ == ms@.map_values(|m: WorkspaceMember| m.depth).take(k as int),
            keys@.map_values(|v: Vec<char>| v@) == ms@.map_values(
                |m: WorkspaceMember| m.rel_path@,
            ).take(k as int),
        decreases ms.len() - k,
    {
        let ghost old_keys = keys@;
        let kv = chars_of(ms[k].rel_path.as_str());
        depths.push(ms[k].depth);
        keys.push(kv);
        assert(depths@ =~= ms@.map_values(|m: WorkspaceMember| m.depth).take(k + 1));
        assert(keys@.map_values(|v: Vec<char>| v@) =~= old_keys.map_values(|v: Vec<char>| v@).push(
            kv@,
        ));
        assert(keys@.map_values(|v: Vec<char>| v@) =~= ms@.map_values(
            |m: WorkspaceMember| m.rel_path@,
        ).take(k + 1));
        k += 1;
    }
    assert(ms@.map_values(|m: WorkspaceMember| m.depth).take(ms.len() as int) == ms@.map_values(
        |m: WorkspaceMember| m.depth,
    ));
    assert(ms@.map_values(|m: WorkspaceMember| m.rel_path@).take(ms.len() as int) == ms@.map_values(
        |m: WorkspaceMember| m.rel_path@,
    ));
    let p = sort_perm_depth_text(&depths, &keys);
    let mut out: Vec<WorkspaceMember> = Vec::new();
    let mut m: usize = 0;
    while m < p.len()
        invariant
            m <= p.len() == ms.len(),
            is_perm(p@, ms.len() as nat),
            out.len() == m,
            forall|q: int|
                0 <= q < m ==> member_with_rel(
                    #[trigger] out@[q],
                    ms@[p@[q] as int],
                    ms@[p@[q] as int].rel_path@,
                ),
        decreases p.len() - m,
    {
        let it = &ms[p[m]];
        out.push(member_copy(it, it.rel_path.clone()));
        m += 1;
    }
    out
}

/// The members of several workspace roots, given those found under each
/// root (`found[k]` for `roots[k]`). With one root they are its members as
/// found; with none, none. With more, each member's relative path gets the
/// prefix `[<folder name>]/` of its root, and all are ordered by depth, then
/// by prefixed path (members equal in both keep their order).
pub fn discover_workspace_members_multi(
    roots: &Vec<String>,
    found: &Vec<Vec<WorkspaceMember>>,
) -> (r: Vec<WorkspaceMember>)
    requires
        found.len() == roots.len(),
    ensures
        roots.len() == 0 ==> r.len() == 0,
        roots.len() == 1 ==> r.len() == found@[0].len() && forall|k: int|
            0 <= k < r.len() ==> member_with_rel(
                #[trigger] r@[k],
                found@[0]@[k],
                found@[0]@[k].rel_path@,
            ),
        roots.len() > 1 ==> ({
            let flat = flat_members(
                roots@.map_values(|s: String| s@),
                found@.map_values(|v: Vec<WorkspaceMember>| v@),
                roots.len() as int,
            );
            &&& r.len() == flat.len()
            &&& exists|p: Seq<usize>|
                {
                    &&& is_perm(p, flat.len())
                    &&& sorted_by(
                        p,
                        depth_then_text(
                            flat.map_values(|x: (WorkspaceMember, Seq<char>)| x.0.depth),
                            flat.map_values(|x: (WorkspaceMember, Seq<char>)| x.1),
                        ),
                    )
                    &&& stable_by(
                        p,
                        depth_then_text(
                            flat.map_values(|x: (WorkspaceMember, Seq<char>)| x.0.depth),
                            flat.map_values(|x: (WorkspaceMember, Seq<char>)| x.1),
                        ),
                    )
                    &&& forall|k: int|
                        0 <= k < r.len() ==> member_with_rel(
                            #[trigger] r@[k],
                            flat[p[k] as int].0,
                            flat[p[k] as int].1,
                        )
                }
        }),
{
    if roots.len() <= 1 {
        let mut out: Vec<WorkspaceMember> = Vec::new();
        if roots.len() == 1 {
            let ms = &found[0];
            let mut k: usize = 0;
            while k < ms.len()
                invariant
                    k <= ms.len(),
                    ms@ == found@[0]@,
                    out.len() == k,
                    forall|q: int|
                        0 <= q < k ==> member_with_rel(
                            #[trigger] out@[q],
                            ms@[q],
                            ms@[q].rel_path@,
                        ),
                decreases ms.len() - k,
            {
                out.push(member_copy(&ms[k], ms[k].rel_path.clone()));
                k += 1;
            }
        }
        return out;
    }
    let ghost rv = roots@.map_values(|s: String| s@);
    let ghost fv = found@.map_values(|v: Vec<WorkspaceMember>| v@);
    let ghost mut gf: Seq<(WorkspaceMember, Seq<char>)> = seq![];
    let mut items: Vec<WorkspaceMember> = Vec::new();
    let mut depths: Vec<usize> = Vec::new();
    let mut keys: Vec<Vec<char>> = Vec::new();
    let mut k: usize = 0;
    while k < roots.len()
        invariant
            k <= roots.len() == found.len(),
            rv == roots@.map_values(|s: String| s@),
            fv == found@.map_values(|v: Vec<WorkspaceMember>| v@),
            gf == flat_members(rv, fv, k as int),
            items.len() == gf.len() == depths.len() == keys.len(),
            forall|q: int| 0 <= q < items.len() ==> member_with_rel(#[trigger] items@[q], gf[q].0, gf[q].1),
            depths@ == gf.map_values(|x: (WorkspaceMember, Seq<char>)| x.0.depth),
            keys@.map_values(|v: Vec<char>| v@) == gf.map_values(|x: (WorkspaceMember, Seq<char>)| x.1),
        decreases roots.len() - k,
    {
        let alias = default_alias(roots[k].as_str());
        assert(rv[k as int] == roots@[k as int]@);
        let ms = &found[k];
        assert(fv[k as int] == ms@);
        let ghost base = gf;
        let ghost pm = prefixed_members(rv[k as int], fv[k as int]);
        let mut j: usize = 0;
        while j < ms.len()
            invariant
                j <= ms.len(),
                ms@ == fv[k as int],
                alias@ == default_alias_s(rv[k as int]),
                pm == prefixed_members(rv[k as int], fv[k as int]),
                gf == base + pm.take(j as int),
                items.len() == gf.len() == depths.len() == keys.len(),
                forall|q: int|
                    0 <= q < items.len() ==> member_with_rel(#[trigger] items@[q], gf[q].0, gf[q].1),
                depths@ == gf.map_values(|x: (WorkspaceMember, Seq<char>)| x.0.depth),
                keys@.map_values(|v: Vec<char>| v@) == gf.map_values(
                    |x: (WorkspaceMember, Seq<char>)| x.1,
                ),
            decreases ms.len() - j,
        {
            let m = &ms[j];
            let mut rel = String::new();
            push_str(&mut rel, "[");
            push_str(&mut rel, alias.as_str());
            push_str(&mut rel, "]/");
            push_str(&mut rel, m.rel_path.as_str());
            assert(pm[j as int] == (*m, rel@));
            let kv = chars_of(rel.as_str());
            let ghost old_gf = gf;
            let ghost old_keys = keys@;
            let ghost old_depths = depths@;
            proof {
                gf = gf.push(pm[j as int]);
            }
            assert(pm.take(j + 1) == pm.take(j as int).push(pm[j as int]));
            items.push(member_copy(m, rel));
            depths.push(m.depth);
            keys.push(kv);
            assert(depths@ =~= gf.map_values(|x: (WorkspaceMember, Seq<char>)| x.0.depth));
            assert(keys@.map_values(|v: Vec<char>| v@) =~= old_keys.map_values(|v: Vec<char>| v@).push(kv@));
            assert(keys@.map_values(|v: Vec<char>| v@) =~= gf.map_values(
                |x: (WorkspaceMember, Seq<char>)| x.1,
            ));
            j += 1;
        }
        assert(pm.take(ms.len() as int) == pm);
        k += 1;
    }
    let ghost flat = gf;
    let p = sort_perm_depth_text(&depths, &keys);
    let mut out: Vec<WorkspaceMember> = Vec::new();
    let mut m: usize = 0;
    while m < p.len()
        invariant
            m <= p.len() == items.len() == flat.len(),
            is_perm(p@, items.len() as nat),
            forall|q: int| 0 <= q < items.len() ==> member_with_rel(#[trigger] items@[q], flat[q].0, flat[q].1),
            out.len() == m,
            forall|q: int|
                0 <= q < m ==> member_with_rel(#[trigger] out@[q], flat[p@[q] as int].0, flat[p@[q] as int].1),
        decreases p.len() - m,
    {
        let it = &items[p[m]];
        out.push(member_copy(it, it.rel_path.clone()));
        m += 1;
    }
    out
}

/// A workspace root with what was found in it: its display name, its
/// manifest kind, and its members.
#[derive(Debug, Clone)]
pub struct DiscoveredRoot {
    pub path: String,
    pub name: String,
    pub kind: ManifestKind,
    pub members: Vec<WorkspaceMember>,
}

/// A topology line before sorting: prefix, name, manifest kind, and whether it is a root.
pub struct EntrySpec {
    pub prefix: Seq<char>,
    pub name: Seq<char>,
    pub kind: ManifestKind,
    pub is_root: bool,
}

/// The entries of one root: the root itself, then its members.
pub open spec fn root_entries(r: DiscoveredRoot, multi: bool) -> Seq<EntrySpec> {
    let folder = default_alias_s(r.path@);
    seq![
        EntrySpec {
            prefix: if multi {
                "["@ + folder + "]"@
            } else {
                "."@
            },
            name: r.name@,
            kind: r.kind,
            is_root: true,
        },
    ] + Seq::new(
        r.members@.len(),
        |i: int|
            EntrySpec {
                prefix: if multi {
                    "["@ + folder + "]/"@ + r.members@[i].rel_path@
                } else {
                    r.members@[i].rel_path@
                },
                name: r.members@[i].name@,
                kind: r.members@[i].manifest_kind,
                is_root: false,
            },
    )
}

/// The entries of the first `n` roots, in order.
pub open spec fn all_entries(roots: Seq<DiscoveredRoot>, n: int) -> Seq<EntrySpec>
    decreases n,
{
    if n <= 0 {
        seq![]
    } else {
        all_entries(roots, n - 1) + root_entries(roots[n - 1], roots.len() > 1)
    }
}

/// `v.join(",")`, or `-` when `v` is empty.
pub open spec fn join_commas(v: Seq<Seq<char>>) -> Seq<char>
    decreases v.len(),
{
    if v.len() == 0 {
        seq![]
    } else if v.len() == 1 {
        v[0]
    } else {
        join_commas(v.drop_last()) + ","@ + v.last()
    }
}

pub open spec fn languages_text(kind: ManifestKind) -> Seq<char> {
    if languages_s(kind).len() == 0 {
        "-"@
    } else {
        join_commas(languages_s(kind))
    }
}

/// The line of one entry.
pub open spec fn entry_line(e: EntrySpec) -> Seq<char> {
    "- "@ + e.prefix + " kind="@ + (if e.is_root {
        "root"@
    } else {
        "member"@
    }) + " name="@ + e.name + " manifest="@ + e.kind.name_s() + " languages="@ + languages_text(
        e.kind,
    ) + "\n"@
}

/// The topology line of a root or member of a known kind ends with the
/// languages its kind implies, joined by commas (never `-`); for a
/// single-language ecosystem the line ends `manifest=K languages=K`.
pub proof fn law_topology_lines_show_languages(e: EntrySpec)
    requires
        e.kind != ManifestKind::Unknown,
    ensures
        crate::text::ends_with_s(
            entry_line(e),
            " languages="@ + join_commas(languages_s(e.kind)) + "\n"@,
        ),
        join_commas(languages_s(e.kind)).len() > 0,
        (e.kind == ManifestKind::Python || e.kind == ManifestKind::Go) ==> crate::text::ends_with_s(
            entry_line(e),
            " manifest="@ + e.kind.name_s() + " languages="@ + e.kind.name_s() + "\n"@,
        ),
{
    law_known_kinds_have_languages(e.kind);
    let tail = " languages="@ + join_commas(languages_s(e.kind)) + "\n"@;
    let front = "- "@ + e.prefix + " kind="@ + (if e.is_root { "root"@ } else { "member"@ }) + " name="@
        + e.name;
    let mid = " manifest="@ + e.kind.name_s();
    assert(entry_line(e) =~= front + mid + tail);
    let r = entry_line(e);
    assert(r.subrange(r.len() - tail.len(), r.len() as int) =~= tail);
    if e.kind == ManifestKind::Python || e.kind == ManifestKind::Go {
        assert(join_commas(languages_s(e.kind)) == e.kind.name_s());
        let t2 = mid + tail;
        assert(t2 =~= " manifest="@ + e.kind.name_s() + " languages="@ + e.kind.name_s() + "\n"@);
        assert(r =~= front + t2);
        assert(r.subrange(r.len() - t2.len(), r.len() as int) =~= t2);
    }
}

/// The lines of the entries in the order `p`, the first `n` of them.
pub open spec fn lines_in_order(es: Seq<EntrySpec>, p: Seq<usize>, n: int) -> Seq<char>
    decreases n,
{
    if n <= 0 {
        seq![]
    } else {
        lines_in_order(es, p, n - 1) + entry_line(es[p[n - 1] as int])
    }
}

pub open spec fn topology_hint() -> Seq<char> {
    "\nHint: You can operate on multiple workspace roots simultaneously. Provide arrays of target directories (e.g. target_dirs=[\"[ProjectA]\", \"[ProjectB]\"]) to analyze or edit cross-repo features."@
}

pub open spec fn no_roots_text() -> Seq<char> {
    "# WORKSPACE_TOPOLOGY\n*(no workspace roots detected)*"@
}

/// The topology summary: every root and member, ordered by prefix (equal
/// prefixes keep their order), one line each, then a hint.
pub open spec fn topology_text_with(roots: Seq<DiscoveredRoot>, p: Seq<usize>) -> Seq<char> {
    let es = all_entries(roots, roots.len() as int);
    "# WORKSPACE_TOPOLOGY\n"@ + lines_in_order(es, p, es.len() as int) + topology_hint()
}

pub open spec fn prefixes(es: Seq<EntrySpec>) -> Seq<Seq<char>> {
    es.map_values(|e: EntrySpec| e.prefix)
}

#[verifier::spinoff_prover]
#[verifier::rlimit(60)]
fn push_entry(out: &mut String, prefix: &str, is_root: bool, name: &str, kind: ManifestKind)
    ensures
        final(out)@ == old(out)@ + entry_line(
            EntrySpec { prefix: prefix@, name: name@, kind, is_root },
        ),
{
    let ghost o = out@;
    push_str(out, "- ");
    push_str(out, prefix);
    push_str(out, " kind=");
    if is_root {
        push_str(out, "root");
    } else {
        push_str(out, "member");
    }
    push_str(out, " name=");
    push_str(out, name);
    push_str(out, " manifest=");
    push_str(out, kind.name());
    push_str(out, " languages=");
    match kind {
        ManifestKind::Cargo => push_str(out, "rust"),
        ManifestKind::Npm => push_str(out, "typescript,javascript"),
        ManifestKind::Python => push_str(out, "python"),
        ManifestKind::Go => push_str(out, "go"),
        ManifestKind::Unknown => push_str(out, "-"),
    }
    proof {
        reveal_strlit("typescript,javascript");
        reveal_strlit("typescript");
        reveal_strlit("javascript");
        reveal_strlit(",");
        assert(join_commas(seq!["typescript"@, "javascript"@]) == "typescript"@ + ","@
            + "javascript"@) by {
            let v = seq!["typescript"@, "javascript"@];
            assert(v.drop_last() =~= seq!["typescript"@]);
            assert(join_commas(seq!["typescript"@]) == "typescript"@);
            assert(v.last() == "javascript"@);
            assert(v.len() == 2);
        }
    }
    push_str(out, "\n");
}

/// Renders the topology of the workspace roots.
pub fn render_workspace_topology(roots: &Vec<DiscoveredRoot>) -> (r: String)
    ensures
        roots.len() == 0 ==> r@ == no_roots_text(),
        roots.len() > 0 ==> exists|p: Seq<usize>|
            #![trigger topology_text_with(roots@, p)]
            {
                let es = all_entries(roots@, roots@.len() as int);
                &&& is_perm(p, es.len())
                &&& orders(p, prefixes(es))
                &&& stable(p, prefixes(es))
                &&& r@ == topology_text_with(roots@, p)
            },
{
    if roots.len() == 0 {
        return String::from_str("# WORKSPACE_TOPOLOGY\n*(no workspace roots detected)*");
    }
    let multi = roots.len() > 1;
    let mut prefixes_v: Vec<Vec<char>> = Vec::new();
    let mut names: Vec<String> = Vec::new();
    let mut kinds: Vec<ManifestKind> = Vec::new();
    let mut is_root: Vec<bool> = Vec::new();
    let mut i: usize = 0;
    while i < roots.len()
        invariant
            i <= roots.len(),
            multi == (roots.len() > 1),
            prefixes_v.len() == names.len() == kinds.len() == is_root.len(),
            prefixes_v.len() == all_entries(roots@, i as int).len(),
            forall|k: int|
                0 <= k < prefixes_v.len() ==> {
                    let e = #[trigger] all_entries(roots@, i as int)[k];
                    &&& prefixes_v@[k]@ == e.prefix
                    &&& names@[k]@ == e.name
                    &&& kinds@[k] == e.kind
                    &&& is_root@[k] == e.is_root
                },
        decreases roots.len() - i,
    {
        let root = &roots[i];
        let ghost before = all_entries(roots@, i as int);
        let ghost re = root_entries(roots@[i as int], multi);
        assert(all_entries(roots@, i + 1) == before + re);
        let rv = chars_of(root.path.as_str());
        let folder = match crate::path::file_name_string(&rv) {
            Some(f) => f,
            None => String::from_str("root"),
        };
        let n0 = prefixes_v.len();
        let mut rp: Vec<char> = Vec::new();
        if multi {
            rp.push('[');
            let fv = chars_of(folder.as_str());
            let mut j: usize = 0;
            while j < fv.len()
                invariant
                    j <= fv.len(),
                    rp@ == seq!['['] + fv@.take(j as int),
                decreases fv.len() - j,
            {
                rp.push(fv[j]);
                j += 1;
                assert(fv@.take(j as int) == fv@.take(j - 1).push(fv@[j - 1]));
            }
            assert(fv@.take(fv.len() as int) == fv@);
            rp.push(']');
            proof {
                reveal_strlit("[");
                reveal_strlit("]");
            }
            assert(rp@ == "["@ + default_alias_s(root.path@) + "]"@);
        } else {
            rp.push('.');
            proof {
                reveal_strlit(".");
            }
            assert(rp@ == "."@);
        }
        let ghost rpv = rp@;
        prefixes_v.push(rp);
        names.push(root.name.clone());
        kinds.push(root.kind);
        is_root.push(true);
        assert(re[0].prefix == rpv);
        let mut m: usize = 0;
        while m < root.members.len()
            invariant
                m <= root.members.len(),
                *root == roots@[i as int],
                multi == (roots.len() > 1),
                re == root_entries(roots@[i as int], multi),
                folder@ == default_alias_s(root.path@),
                prefixes_v.len() == names.len() == kinds.len() == is_root.len(),
                prefixes_v.len() == n0 + 1 + m,
                n0 == before.len(),
                forall|k: int|
                    0 <= k < prefixes_v.len() ==> {
                        let e = #[trigger] (before + re)[k];
                        &&& prefixes_v@[k]@ == e.prefix
                        &&& names@[k]@ == e.name
                        &&& kinds@[k] == e.kind
                        &&& is_root@[k] == e.is_root
                    },
            decreases root.members.len() - m,
        {
            let mem = &root.members[m];
            let mut mp: Vec<char> = Vec::new();
            if multi {
                mp.push('[');
                let fv = chars_of(folder.as_str());
                let mut j: usize = 0;
                while j < fv.len()
                    invariant
                        j <= fv.len(),
                        mp@ == seq!['['] + fv@.take(j as int),
                    decreases fv.len() - j,
                {
                    mp.push(fv[j]);
                    j += 1;
                    assert(fv@.take(j as int) == fv@.take(j - 1).push(fv@[j - 1]));
                }
                assert(fv@.take(fv.len() as int) == fv@);
                mp.push(']');
                mp.push('/');
            }
            let ghost mid = mp@;
            let rel = chars_of(mem.rel_path.as_str());
            let mut j: usize = 0;
            while j < rel.len()
                invariant
                    j <= rel.len(),
                    mp@ == mid + rel@.take(j as int),
                decreases rel.len() - j,
            {
                mp.push(rel[j]);
                j += 1;
                assert(rel@.take(j as int) == rel@.take(j - 1).push(rel@[j - 1]));
            }
            assert(rel@.take(rel.len() as int) == rel@);
            proof {
                reveal_strlit("[");
                reveal_strlit("]/");
                let k = n0 + 1 + m;
                assert((before + re)[k] == re[1 + m]);
                if multi {
                    assert(mid == "["@ + folder@ + "]/"@);
                } else {
                    assert(mid.len() == 0);
                }
            }
            prefixes_v.push(mp);
            names.push(mem.name.clone());
            kinds.push(mem.manifest_kind);
            is_root.push(false);
            m += 1;
        }
        i += 1;
    }
    let ghost es = all_entries(roots@, roots@.len() as int);
    let p = sort_perm(&prefixes_v);
    assert(prefixes_v@.map_values(|k: Vec<char>| k@) =~= prefixes(es));
    let mut out = String::from_str("# WORKSPACE_TOPOLOGY\n");
    let ghost head = out@;
    let mut k: usize = 0;
    while k < p.len()
        invariant
            k <= p.len() == es.len() == prefixes_v.len() == names.len() == kinds.len() == is_root.len(),
            is_perm(p@, es.len()),
            forall|q: int|
                0 <= q < prefixes_v.len() ==> {
                    let e = #[trigger] es[q];
                    &&& prefixes_v@[q]@ == e.prefix
                    &&& names@[q]@ == e.name
                    &&& kinds@[q] == e.kind
                    &&& is_root@[q] == e.is_root
                },
            out@ == head + lines_in_order(es, p@, k as int),
        decreases p.len() - k,
    {
        let j = p[k];
        let pr = crate::text::string_of(prefixes_v[j].as_slice());
        assert(es[j as int].prefix == prefixes_v@[j as int]@);
        push_entry(&mut out, pr.as_str(), is_root[j], names[j].as_str(), kinds[j]);
        k += 1;
    }
    assert(topology_text_with(roots@, p@) == out@ + topology_hint());
    push_str(&mut out, "\nHint: You can operate on multiple workspace roots simultaneously. Provide arrays of target directories (e.g. target_dirs=[\"[ProjectA]\", \"[ProjectB]\"]) to analyze or edit cross-repo features.");
    out
}


// ───────────────────────── laws ─────────────────────────

/// The member found for a path contains it, and no member containing the
/// path has more components; when none is found, no member contains it.
pub proof fn law_containing_member_is_deepest(ms: Seq<WorkspaceMember>, target: Seq<char>, n: int)
    requires
        0 <= n <= ms.len(),
    ensures
        deepest_member(ms, target, n) matches Some(k) ==> 0 <= k < n && path_starts_with(
            target,
            ms[k].abs_path@,
        ) && forall|j: int|
            0 <= j < n && path_starts_with(target, #[trigger] ms[j].abs_path@) ==> components_s(
                ms[j].abs_path@,
            ).len() <= components_s(ms[k].abs_path@).len(),
        deepest_member(ms, target, n) is None ==> forall|j: int|
            0 <= j < n ==> !path_starts_with(target, #[trigger] ms[j].abs_path@),
    decreases n,
{
    if n > 0 {
        law_containing_member_is_deepest(ms, target, n - 1);
    }
}

} // verus!
