//! Resolving path arguments against workspace roots, including the
//! `[FolderName]/sub/path` form that names a root by its alias.
use vstd::prelude::*;
use crate::text::{strings_view, pairs_view};
use crate::path::{file_name_s, file_name_string, is_absolute_s, join_s};
use crate::text::{chars_of, push_str, string_of_range, trim_bounds, trim_s};

verus! {

// ───────────────────────── the alias store ─────────────────────────

/// The alias of each workspace root, in the order the roots were given.
pub struct WorkspaceAliases {
    entries: Vec<(String, String)>,
}

impl View for WorkspaceAliases {
    type V = Seq<(Seq<char>, Seq<char>)>;

    /// The `(root, alias)` pairs.
    closed spec fn view(&self) -> Seq<(Seq<char>, Seq<char>)> {
        pairs_view(self.entries@)
    }
}

impl WorkspaceAliases {
    /// A store that knows no alias.
    pub fn new() -> (r: Self)
        ensures
            r.view().len() == 0,
    {
        WorkspaceAliases { entries: Vec::new() }
    }
}

/// The alias a root gets when none is configured: its file name, or `root`.
pub open spec fn default_alias_s(root: Seq<char>) -> Seq<char> {
    match file_name_s(root) {
        Some(f) => f,
        None => "root"@,
    }
}

pub(crate) fn default_alias(root: &str) -> (r: String)
    ensures
        r@ == default_alias_s(root@),
{
    let v = chars_of(root);
    match file_name_string(&v) {
        Some(f) => f,
        None => String::from_str("root"),
    }
}

/// The alias configured for root `k`: the trimmed name when one is given and
/// not blank, else the default alias.
pub open spec fn configured_alias_s(roots: Seq<Seq<char>>, names: Seq<Seq<char>>, k: int) -> Seq<
    char,
> {
    if k < names.len() && trim_s(names[k]).len() > 0 {
        trim_s(names[k])
    } else {
        default_alias_s(roots[k])
    }
}

/// Records the alias of each workspace root, replacing what was recorded.
pub fn set_workspace_aliases(
    aliases: &mut WorkspaceAliases,
    workspace_roots: &[String],
    workspace_names: &[String],
)
    ensures
        final(aliases).view().len() == workspace_roots.len(),
        forall|k: int|
            0 <= k < workspace_roots.len() ==> (#[trigger] final(aliases).view()[k]) == (
                workspace_roots@[k]@,
                configured_alias_s(strings_view(workspace_roots@), strings_view(workspace_names@), k),
            ),
{
    let mut entries: Vec<(String, String)> = Vec::new();
    let mut i: usize = 0;
    while i < workspace_roots.len()
        invariant
            i <= workspace_roots.len(),
            entries.len() == i,
            forall|k: int|
                0 <= k < i ==> (#[trigger] pairs_view(entries@)[k]) == (
                    workspace_roots@[k]@,
                    configured_alias_s(strings_view(workspace_roots@), strings_view(workspace_names@), k),
                ),
        decreases workspace_roots.len() - i,
    {
        let root = &workspace_roots[i];
        let mut alias = default_alias(root.as_str());
        if i < workspace_names.len() {
            let nv = chars_of(workspace_names[i].as_str());
            let (a, b) = trim_bounds(&nv, 0, nv.len());
            assert(nv@.subrange(0, nv.len() as int) == nv@);
            if b > a {
                alias = string_of_range(&nv, a, b);
            }
        }
        proof {
            assert(strings_view(workspace_roots@)[i as int] == root@);
            if i < workspace_names.len() {
                assert(strings_view(workspace_names@)[i as int] == workspace_names@[i as int]@);
            }
            assert(alias@ == configured_alias_s(
                strings_view(workspace_roots@),
                strings_view(workspace_names@),
                i as int,
            ));
        }
        let rc = root.clone();
        let ghost rcv = rc@;
        let ghost av = alias@;
        let ghost before = entries@;
        entries.push((rc, alias));
        proof {
            assert(pairs_view(entries@)[i as int] == (rcv, av));
            assert forall|k: int| 0 <= k < i + 1 implies (#[trigger] pairs_view(entries@)[k]) == (
                workspace_roots@[k]@,
                configured_alias_s(strings_view(workspace_roots@), strings_view(workspace_names@), k),
            ) by {
                if k < i {
                    assert(entries@[k] == before[k]);
                    assert(pairs_view(before)[k] == (before[k].0@, before[k].1@));
                } else {
                    assert(k == i);
                    assert(rcv == workspace_roots@[k]@);
                }
            }
        }
        i += 1;
    }
    aliases.entries = entries;
}

fn str_eq(a: &str, b: &str) -> (r: bool)
    ensures
        r == (a@ == b@),
{
    let x = chars_of(a);
    let y = chars_of(b);
    if x.len() != y.len() {
        return false;
    }
    let mut i: usize = 0;
    while i < x.len()
        invariant
            i <= x.len() == y.len(),
            x@ == a@,
            y@ == b@,
            forall|j: int| 0 <= j < i ==> x@[j] == y@[j],
        decreases x.len() - i,
    {
        if x[i] != y[i] {
            return false;
        }
        i += 1;
    }
    assert(x@ == y@);
    true
}

/// Index of the first pair from `k` on whose second part is `key`.
pub open spec fn first_with_alias(v: Seq<(Seq<char>, Seq<char>)>, key: Seq<char>, k: int) -> Option<
    int,
>
    decreases v.len() - k,
{
    if k < 0 || k >= v.len() {
        None
    } else if v[k].1 == key {
        Some(k)
    } else {
        first_with_alias(v, key, k + 1)
    }
}

/// Two paths are the same path (`Path`'s `==`): equal components, so that
/// a trailing `/` or a `.` component makes no difference.
pub open spec fn same_path(a: Seq<char>, b: Seq<char>) -> bool {
    crate::workspace::components_s(a) == crate::workspace::components_s(b)
}

/// Index of the first pair from `k` on whose root is the path `root`.
pub open spec fn first_with_root(v: Seq<(Seq<char>, Seq<char>)>, root: Seq<char>, k: int) -> Option<
    int,
>
    decreases v.len() - k,
{
    if k < 0 || k >= v.len() {
        None
    } else if same_path(v[k].0, root) {
        Some(k)
    } else {
        first_with_root(v, root, k + 1)
    }
}

/// The root recorded under `alias` (blanks trimmed), if any.
pub open spec fn root_for_alias_s(v: Seq<(Seq<char>, Seq<char>)>, alias: Seq<char>) -> Option<
    Seq<char>,
> {
    let a = trim_s(alias);
    if a.len() == 0 {
        None
    } else {
        match first_with_alias(v, a, 0) {
            Some(k) => Some(v[k].0),
            None => None,
        }
    }
}

/// The alias recorded for `root`, or its default alias.
pub open spec fn alias_for_root_s(v: Seq<(Seq<char>, Seq<char>)>, root: Seq<char>) -> Seq<char> {
    match first_with_root(v, root, 0) {
        Some(k) => v[k].1,
        None => default_alias_s(root),
    }
}

impl WorkspaceAliases {
    fn root_for_alias(&self, alias: &str) -> (r: Option<String>)
        ensures
            match root_for_alias_s(self.view(), alias@) {
                Some(x) => r matches Some(s) && s@ == x,
                None => r is None,
            },
    {
        let v = chars_of(alias);
        let (a, b) = trim_bounds(&v, 0, v.len());
        assert(v@.subrange(0, v.len() as int) == v@);
        if a == b {
            return None;
        }
        let key = string_of_range(&v, a, b);
        let mut k: usize = 0;
        while k < self.entries.len()
            invariant
                k <= self.entries.len(),
                key@ == trim_s(alias@),
                trim_s(alias@).len() > 0,
                first_with_alias(self.view(), key@, 0) == first_with_alias(self.view(), key@, k as int),
            decreases self.entries.len() - k,
        {
            assert(self.view()[k as int] == (self.entries@[k as int].0@, self.entries@[k as int].1@));
            if str_eq(self.entries[k].1.as_str(), key.as_str()) {
                let c = self.entries[k].0.clone();
                assert(first_with_alias(self.view(), key@, k as int) == Some(k as int));
                return Some(c);
            }
            k += 1;
        }
        None
    }

    fn alias_for_root(&self, root: &str) -> (r: String)
        ensures
            r@ == alias_for_root_s(self.view(), root@),
    {
        let mut k: usize = 0;
        while k < self.entries.len()
            invariant
                k <= self.entries.len(),
                first_with_root(self.view(), root@, 0) == first_with_root(self.view(), root@, k as int),
            decreases self.entries.len() - k,
        {
            assert(self.view()[k as int] == (self.entries@[k as int].0@, self.entries@[k as int].1@));
            if crate::mapper::same_components(self.entries[k].0.as_str(), root) {
                return self.entries[k].1.clone();
            }
            k += 1;
        }
        default_alias(root)
    }
}

/// The alias under which a workspace root is known.
pub fn alias_for_workspace_root(aliases: &WorkspaceAliases, root: &str) -> (r: String)
    ensures
        r@ == alias_for_root_s(aliases.view(), root@),
{
    aliases.alias_for_root(root)
}

// ───────────────────────── resolving ─────────────────────────

/// The default base for relative paths: the first workspace root, else the
/// current directory, else `.`.
pub open spec fn primary_root_s(roots: Seq<Seq<char>>, current_dir: Option<Seq<char>>) -> Seq<char> {
    if roots.len() > 0 {
        roots[0]
    } else {
        match current_dir {
            Some(d) => d,
            None => "."@,
        }
    }
}

/// The default base for relative paths; `current_dir` is the process's
/// current directory when it could be read.
pub fn primary_root(workspace_roots: &[String], current_dir: Option<&str>) -> (r: String)
    ensures
        r@ == primary_root_s(strings_view(workspace_roots@), crate::text::str_opt(current_dir)),
{
    if workspace_roots.len() > 0 {
        workspace_roots[0].clone()
    } else {
        match current_dir {
            Some(d) => String::from_str(d),
            None => String::from_str("."),
        }
    }
}

/// `s` without its leading `/` and `\` characters.
pub open spec fn trim_leading_seps(s: Seq<char>) -> Seq<char>
    decreases s.len(),
{
    if s.len() > 0 && (s[0] == '/' || s[0] == '\\') {
        trim_leading_seps(s.drop_first())
    } else {
        s
    }
}

/// Index of the first `]` in `s`, if any.
pub open spec fn first_bracket(s: Seq<char>, i: int) -> Option<int>
    decreases s.len() - i,
{
    if i < 0 || i >= s.len() {
        None
    } else if s[i] == ']' {
        Some(i)
    } else {
        first_bracket(s, i + 1)
    }
}

/// `root` joined with `sub`, or `root` itself when `sub` is empty.
pub open spec fn under_root(root: Seq<char>, sub: Seq<char>) -> Seq<char> {
    if sub.len() == 0 {
        root
    } else {
        join_s(root, sub)
    }
}

/// Index of the first root (from `k` on) whose configured or default alias is `folder`.
pub open spec fn first_named_root(
    v: Seq<(Seq<char>, Seq<char>)>,
    roots: Seq<Seq<char>>,
    folder: Seq<char>,
    k: int,
) -> Option<int>
    decreases roots.len() - k,
{
    if k < 0 || k >= roots.len() {
        None
    } else if alias_for_root_s(v, roots[k]) == folder || default_alias_s(roots[k]) == folder {
        Some(k)
    } else {
        first_named_root(v, roots, folder, k + 1)
    }
}

/// Where `[folder]tail` leads, if the folder names a root.
pub open spec fn resolve_prefixed_s(
    v: Seq<(Seq<char>, Seq<char>)>,
    roots: Seq<Seq<char>>,
    folder: Seq<char>,
    tail: Seq<char>,
) -> Option<Seq<char>> {
    let sub = crate::registry::backslash_to_slash(trim_leading_seps(tail));
    match first_named_root(v, roots, folder, 0) {
        Some(k) => Some(under_root(roots[k], sub)),
        None => match root_for_alias_s(v, folder) {
            Some(root) => if roots.len() == 0 || exists|i: int| 0 <= i < roots.len() && same_path(#[trigger] roots[i], root) {
                Some(under_root(root, sub))
            } else {
                None
            },
            None => None,
        },
    }
}

/// Resolution of a path argument against `repo_root`: absolute paths stay,
/// `[Folder]/sub` (or `[Folder]\\sub`) resolves under the root known as
/// `Folder`, with the backslashes of `sub` read as `/`, and anything else is
/// joined onto `repo_root`.
pub open spec fn resolve_from_root_s(
    v: Seq<(Seq<char>, Seq<char>)>,
    repo_root: Seq<char>,
    roots: Seq<Seq<char>>,
    raw: Seq<char>,
) -> Seq<char> {
    if is_absolute_s(raw) {
        raw
    } else {
        let fallback = join_s(repo_root, raw);
        if raw.len() > 0 && raw[0] == '[' {
            let inner = raw.drop_first();
            match first_bracket(inner, 0) {
                Some(b) => match resolve_prefixed_s(
                    v,
                    roots,
                    inner.take(b),
                    inner.subrange(b + 1, inner.len() as int),
                ) {
                    Some(p) => p,
                    None => fallback,
                },
                None => fallback,
            }
        } else {
            fallback
        }
    }
}

/// `Path::join` on strings.
pub fn join_path(root: &str, sub: &str) -> (r: String)
    ensures
        r@ == join_s(root@, sub@),
{
    let s = chars_of(sub);
    if s.len() > 0 && s[0] == '/' {
        return String::from_str(sub);
    }
    let rv = chars_of(root);
    let mut out = String::from_str(root);
    if !(rv.len() == 0 || rv[rv.len() - 1] == '/') {
        push_str(&mut out, "/");
        proof {
            reveal_strlit("/");
        }
    }
    push_str(&mut out, sub);
    out
}

fn under_root_exec(root: &str, sub: &str) -> (r: String)
    ensures
        r@ == under_root(root@, sub@),
{
    let s = chars_of(sub);
    if s.len() == 0 {
        String::from_str(root)
    } else {
        join_path(root, sub)
    }
}

fn contains_root(roots: &[String], root: &str) -> (r: bool)
    ensures
        r == exists|i: int| 0 <= i < roots.len() && same_path(#[trigger] strings_view(roots@)[i], root@),
{
    let mut k: usize = 0;
    while k < roots.len()
        invariant
            k <= roots.len(),
            forall|j: int| 0 <= j < k ==> !same_path(#[trigger] strings_view(roots@)[j], root@),
        decreases roots.len() - k,
    {
        assert(strings_view(roots@)[k as int] == roots@[k as int]@);
        if crate::mapper::same_components(roots[k].as_str(), root) {
            return true;
        }
        k += 1;
    }
    false
}

impl WorkspaceAliases {
    fn resolve_prefixed(&self, roots: &[String], folder: &str, tail: &[char], t0: usize) -> (r:
        Option<String>)
        requires
            t0 <= tail.len(),
        ensures
            match resolve_prefixed_s(
                self.view(),
                strings_view(roots@),
                folder@,
                tail@.subrange(t0 as int, tail.len() as int),
            ) {
                Some(p) => r matches Some(s) && s@ == p,
                None => r is None,
            },
    {
        let ghost t = tail@.subrange(t0 as int, tail.len() as int);
        let mut a = t0;
        while a < tail.len() && (tail[a] == '/' || tail[a] == '\\')
            invariant
                t0 <= a <= tail.len(),
                trim_leading_seps(t) == trim_leading_seps(tail@.subrange(a as int, tail.len() as int)),
            decreases tail.len() - a,
        {
            assert(tail@.subrange(a as int, tail.len() as int).drop_first() == tail@.subrange(
                a + 1,
                tail.len() as int,
            ));
            a += 1;
        }
        let mut w: Vec<char> = Vec::new();
        let mut i: usize = a;
        while i < tail.len()
            invariant
                a <= i <= tail.len(),
                w@ == crate::registry::backslash_to_slash(tail@.subrange(a as int, i as int)),
            decreases tail.len() - i,
        {
            w.push(if tail[i] == '\\' {
                '/'
            } else {
                tail[i]
            });
            i += 1;
            assert(tail@.subrange(a as int, i as int) == tail@.subrange(a as int, i - 1).push(
                tail@[i - 1],
            ));
        }
        let sub = string_of_range(&w, 0, w.len());
        assert(w@.subrange(0, w.len() as int) == w@);
        let ghost rv = strings_view(roots@);
        let mut k: usize = 0;
        while k < roots.len()
            invariant
                k <= roots.len(),
                rv == strings_view(roots@),
                sub@ == crate::registry::backslash_to_slash(trim_leading_seps(t)),
                t == tail@.subrange(t0 as int, tail.len() as int),
                first_named_root(self.view(), rv, folder@, 0) == first_named_root(
                    self.view(),
                    rv,
                    folder@,
                    k as int,
                ),
            decreases roots.len() - k,
        {
            let root = roots[k].as_str();
            assert(rv[k as int] == root@);
            let configured = self.alias_for_root(root);
            let dflt = default_alias(root);
            if str_eq(configured.as_str(), folder) || str_eq(dflt.as_str(), folder) {
                return Some(under_root_exec(root, sub.as_str()));
            }
            k += 1;
        }
        match self.root_for_alias(folder) {
            None => None,
            Some(root) => {
                if roots.len() == 0 || contains_root(roots, root.as_str()) {
                    Some(under_root_exec(root.as_str(), sub.as_str()))
                } else {
                    None
                }
            },
        }
    }
}

/// Resolves a path argument against an explicit primary root plus the workspace roots.
pub fn resolve_path_from_root(
    aliases: &WorkspaceAliases,
    repo_root: &str,
    workspace_roots: &[String],
    raw: &str,
) -> (r: String)
    ensures
        r@ == resolve_from_root_s(aliases.view(), repo_root@, strings_view(workspace_roots@), raw@),
{
    let v = chars_of(raw);
    if v.len() > 0 && v[0] == '/' {
        return String::from_str(raw);
    }
    if v.len() > 0 && v[0] == '[' {
        let ghost inner = v@.drop_first();
        let mut b: usize = 1;
        while b < v.len() && v[b] != ']'
            invariant
                1 <= b <= v.len(),
                v@ == raw@,
                inner == v@.drop_first(),
                first_bracket(inner, 0) == first_bracket(inner, b - 1),
            decreases v.len() - b,
        {
            b += 1;
        }
        if b < v.len() {
            let folder = string_of_range(&v, 1, b);
            assert(inner.take(b - 1) == folder@);
            assert(inner.subrange(b as int, inner.len() as int) == v@.subrange(b + 1, v.len() as int));
            if let Some(p) = aliases.resolve_prefixed(workspace_roots, folder.as_str(), &v, b + 1) {
                return p;
            }
        }
    }
    join_path(repo_root, raw)
}

/// Resolves a path argument against the primary workspace root.
pub fn resolve_path(
    aliases: &WorkspaceAliases,
    workspace_roots: &[String],
    raw: &str,
    current_dir: Option<&str>,
) -> (r: String)
    ensures
        r@ == resolve_from_root_s(
            aliases.view(),
            primary_root_s(strings_view(workspace_roots@), crate::text::str_opt(current_dir)),
            strings_view(workspace_roots@),
            raw@,
        ),
{
    let repo_root = primary_root(workspace_roots, current_dir);
    resolve_path_from_root(aliases, repo_root.as_str(), workspace_roots, raw)
}

/// `resolve_path` with the arguments in the other order.
pub fn resolve_prefixed_path(
    aliases: &WorkspaceAliases,
    raw: &str,
    workspace_roots: &[String],
    current_dir: Option<&str>,
) -> (r: String)
    ensures
        r@ == resolve_from_root_s(
            aliases.view(),
            primary_root_s(strings_view(workspace_roots@), crate::text::str_opt(current_dir)),
            strings_view(workspace_roots@),
            raw@,
        ),
{
    resolve_path(aliases, workspace_roots, raw, current_dir)
}

/// The resolved path as a string.
pub fn resolve_path_string(
    aliases: &WorkspaceAliases,
    workspace_roots: &[String],
    raw: &str,
    current_dir: Option<&str>,
) -> (r: String)
    ensures
        r@ == resolve_from_root_s(
            aliases.view(),
            primary_root_s(strings_view(workspace_roots@), crate::text::str_opt(current_dir)),
            strings_view(workspace_roots@),
            raw@,
        ),
{
    resolve_path(aliases, workspace_roots, raw, current_dir)
}


// ───────────────────────── laws ─────────────────────────

/// An absolute path argument resolves to itself.
pub proof fn law_absolute_paths_resolve_to_themselves(
    v: Seq<(Seq<char>, Seq<char>)>,
    repo_root: Seq<char>,
    roots: Seq<Seq<char>>,
    raw: Seq<char>,
)
    requires
        is_absolute_s(raw),
    ensures
        resolve_from_root_s(v, repo_root, roots, raw) == raw,
{
}

/// The recorded pairs of `set_workspace_aliases(roots, names)`.
pub open spec fn recorded(v: Seq<(Seq<char>, Seq<char>)>, roots: Seq<Seq<char>>, names: Seq<Seq<char>>) -> bool {
    &&& v.len() == roots.len()
    &&& forall|k: int| 0 <= k < roots.len() ==> #[trigger] v[k] == (roots[k], configured_alias_s(roots, names, k))
}

proof fn lemma_first_with_root(v: Seq<(Seq<char>, Seq<char>)>, root: Seq<char>, k: int, j: int)
    requires
        0 <= j <= k < v.len(),
        same_path(v[k].0, root),
        forall|i: int| j <= i < k ==> !same_path((#[trigger] v[i]).0, root),
    ensures
        first_with_root(v, root, j) == Some(k),
    decreases k - j,
{
    if j < k {
        lemma_first_with_root(v, root, k, j + 1);
    }
}

/// Once the aliases of distinct roots are recorded, each root is known
/// under its configured alias (its trimmed name, or its default alias).
pub proof fn law_recorded_alias_is_reported(
    v: Seq<(Seq<char>, Seq<char>)>,
    roots: Seq<Seq<char>>,
    names: Seq<Seq<char>>,
    k: int,
)
    requires
        recorded(v, roots, names),
        0 <= k < roots.len(),
        forall|i: int, j: int| 0 <= i < j < roots.len() ==> !same_path(roots[i], roots[j]),
    ensures
        alias_for_root_s(v, roots[k]) == configured_alias_s(roots, names, k),
{
    assert forall|i: int| 0 <= i < k implies !same_path((#[trigger] v[i]).0, roots[k]) by {
        assert(v[i] == (roots[i], configured_alias_s(roots, names, i)));
    }
    assert(v[k] == (roots[k], configured_alias_s(roots, names, k)));
    lemma_first_with_root(v, roots[k], k, 0);
}

proof fn lemma_first_named_root(
    v: Seq<(Seq<char>, Seq<char>)>,
    roots: Seq<Seq<char>>,
    folder: Seq<char>,
    k: int,
    j: int,
)
    requires
        0 <= j <= k < roots.len(),
        alias_for_root_s(v, roots[k]) == folder,
        forall|i: int|
            j <= i < k ==> alias_for_root_s(v, #[trigger] roots[i]) != folder && default_alias_s(
                roots[i],
            ) != folder,
    ensures
        first_named_root(v, roots, folder, j) == Some(k),
    decreases k - j,
{
    if j < k {
        lemma_first_named_root(v, roots, folder, k, j + 1);
    }
}

proof fn lemma_first_bracket(s: Seq<char>, k: int, j: int)
    requires
        0 <= j <= k < s.len(),
        s[k] == ']',
        forall|i: int| j <= i < k ==> #[trigger] s[i] != ']',
    ensures
        first_bracket(s, j) == Some(k),
    decreases k - j,
{
    if j < k {
        lemma_first_bracket(s, k, j + 1);
    }
}

/// `[Alias]/sub` resolves under the root recorded with that alias (with the
/// backslashes of `sub` read as `/`), when the alias holds no `]` and no
/// earlier root answers to the same name.
pub proof fn law_alias_prefix_resolves_under_its_root(
    v: Seq<(Seq<char>, Seq<char>)>,
    roots: Seq<Seq<char>>,
    names: Seq<Seq<char>>,
    repo_root: Seq<char>,
    k: int,
    sub: Seq<char>,
)
    requires
        recorded(v, roots, names),
        0 <= k < roots.len(),
        forall|i: int, j: int| 0 <= i < j < roots.len() ==> !same_path(roots[i], roots[j]),
        !configured_alias_s(roots, names, k).contains(']'),
        forall|i: int|
            0 <= i < k ==> configured_alias_s(roots, names, i) != configured_alias_s(roots, names, k)
                && default_alias_s(#[trigger] roots[i]) != configured_alias_s(roots, names, k),
    ensures
        ({
            let a = configured_alias_s(roots, names, k);
            resolve_from_root_s(v, repo_root, roots, "["@ + a + "]/"@ + sub) == under_root(
                roots[k],
                crate::registry::backslash_to_slash(trim_leading_seps("/"@ + sub)),
            )
        }),
{
    let a = configured_alias_s(roots, names, k);
    let raw = "["@ + a + "]/"@ + sub;
    reveal_strlit("[");
    reveal_strlit("]/");
    reveal_strlit("/");
    let inner = raw.drop_first();
    assert(inner == a + "]/"@ + sub);
    assert(inner[a.len() as int] == ']');
    assert forall|i: int| 0 <= i < a.len() implies #[trigger] inner[i] != ']' by {
        assert(inner[i] == a[i]);
    }
    lemma_first_bracket(inner, a.len() as int, 0);
    assert(inner.take(a.len() as int) == a);
    assert(inner.subrange(a.len() as int + 1, inner.len() as int) == "/"@ + sub);
    law_recorded_alias_is_reported(v, roots, names, k);
    assert forall|i: int| 0 <= i < k implies alias_for_root_s(v, #[trigger] roots[i]) != a
        && default_alias_s(roots[i]) != a by {
        law_recorded_alias_is_reported(v, roots, names, i);
    }
    lemma_first_named_root(v, roots, a, k, 0);
    assert(!is_absolute_s(raw));
}

} // verus!
