//! The scoped repository map: the immediate children of one directory as
//! nodes, linked to that directory and, through relative imports, to each
//! other. The file system is read by the caller; this module decides what
//! the listing becomes.
use vstd::prelude::*;
use crate::mapper::{
    allowed_exts, clamp_label, is_allowed_ext, normalize_module_id, should_skip_dir_name, size_class_from_bytes, size_class_s,
    skipped_dirs, MapEdge, MapNode, RepoMap,
};
use crate::path::extension_s;
use crate::sort::{is_perm, orders, sort_perm, stable};
use crate::path::{join_s, split_bounds, split_s};
use crate::pathing::join_path;
use crate::text::{chars_eq, chars_of, push_str, str_opt, string_of_range, trim_s};

verus! {

broadcast use vstd::seq_lib::group_seq_properties;

/// Some component of `p` (a piece between `/`s) is a directory name that
/// is never mapped.
pub open spec fn has_forbidden_component_s(p: Seq<char>) -> bool {
    exists|i: int|
        0 <= i < split_s(p, '/').len() && skipped_dirs().contains(#[trigger] split_s(p, '/')[i])
}

/// Whether some component of `path` is a directory name that is never mapped.
pub fn path_has_forbidden_component(path: &str) -> (r: bool)
    ensures
        r == has_forbidden_component_s(path@),
{
    let v = chars_of(path);
    let parts = split_bounds(&v, '/');
    let ghost segs = split_s(v@, '/');
    let mut k: usize = 0;
    while k < parts.len()
        invariant
            k <= parts.len() == segs.len(),
            segs == split_s(v@, '/'),
            v@ == path@,
            forall|q: int|
                0 <= q < parts.len() ==> {
                    let (a, b) = #[trigger] parts@[q];
                    &&& a <= b <= v.len()
                    &&& v@.subrange(a as int, b as int) == segs[q]
                },
            forall|q: int| 0 <= q < k ==> !skipped_dirs().contains(#[trigger] segs[q]),
        decreases parts.len() - k,
    {
        let (a, b) = parts[k];
        let seg = string_of_range(&v, a, b);
        if should_skip_dir_name(seg.as_str()) {
            assert(skipped_dirs().contains(segs[k as int]));
            return true;
        }
        k += 1;
    }
    false
}

/// Extensions tried for an `index` file when an import names a directory.
pub open spec fn index_exts() -> Seq<Seq<char>> {
    seq!["ts"@, "tsx"@, "js"@, "jsx"@]
}

/// The paths tried, in order, for the relative import `imp` from the
/// directory `base`: `base/imp`, then `base/imp.EXT` for each of `exts`,
/// then `base/imp/index.EXT` for the script extensions. An import that,
/// trimmed, does not start with `.` is not relative and gets none.
pub open spec fn import_candidates_s(base: Seq<char>, imp: Seq<char>, exts: Seq<Seq<char>>) -> Seq<
    Seq<char>,
> {
    let i = trim_s(imp);
    if !(i.len() > 0 && i[0] == '.') {
        seq![]
    } else {
        seq![join_s(base, i)] + exts.map_values(|e: Seq<char>| join_s(base, i + "."@ + e))
            + index_exts().map_values(|e: Seq<char>| join_s(join_s(base, i), "index."@ + e))
    }
}

fn import_candidates(base: &str, imp: &str, exts: &[&str]) -> (r: Vec<String>)
    ensures
        r@.map_values(|s: String| s@) == import_candidates_s(
            base@,
            imp@,
            exts@.map_values(|e: &str| e@),
        ),
{
    let v = chars_of(imp);
    let (a, b) = crate::text::trim_bounds(&v, 0, v.len());
    assert(v@.subrange(0, v.len() as int) == v@);
    let ghost i = trim_s(imp@);
    let mut r: Vec<String> = Vec::new();
    if !(a < b && v[a] == '.') {
        assert(r@.map_values(|s: String| s@) =~= Seq::<Seq<char>>::empty());
        return r;
    }
    let t = string_of_range(&v, a, b);
    assert(t@ == i);
    let ghost ev = exts@.map_values(|e: &str| e@);
    let ghost xs = index_exts();
    let raw = join_path(base, t.as_str());
    r.push(join_path(base, t.as_str()));
    let mut k: usize = 0;
    while k < exts.len()
        invariant
            k <= exts.len(),
            t@ == i,
            raw@ == join_s(base@, i),
            ev == exts@.map_values(|e: &str| e@),
            r@.map_values(|s: String| s@) == seq![join_s(base@, i)] + ev.take(k as int).map_values(
                |e: Seq<char>| join_s(base@, i + "."@ + e),
            ),
        decreases exts.len() - k,
    {
        let mut name = t.clone();
        push_str(&mut name, ".");
        push_str(&mut name, exts[k]);
        proof {
            reveal_strlit(".");
        }
        assert(name@ == i + "."@ + ev[k as int]);
        let ghost before = r@.map_values(|s: String| s@);
        r.push(join_path(base, name.as_str()));
        assert(ev.take(k + 1) == ev.take(k as int).push(ev[k as int]));
        assert(r@.map_values(|s: String| s@) == before.push(join_s(base@, i + "."@ + ev[k as int])));
        k += 1;
    }
    assert(ev.take(exts.len() as int) == ev);
    let idx: [&str; 4] = ["ts", "tsx", "js", "jsx"];
    assert(idx@.map_values(|e: &str| e@) =~= xs);
    let ghost head = r@.map_values(|s: String| s@);
    let mut k: usize = 0;
    while k < 4
        invariant
            k <= 4,
            raw@ == join_s(base@, i),
            xs == index_exts(),
            idx@.map_values(|e: &str| e@) == xs,
            r@.map_values(|s: String| s@) == head + xs.take(k as int).map_values(
                |e: Seq<char>| join_s(join_s(base@, i), "index."@ + e),
            ),
        decreases 4 - k,
    {
        let mut name = String::from_str("index.");
        push_str(&mut name, idx[k]);
        proof {
            reveal_strlit("index.");
        }
        assert(name@ == "index."@ + xs[k as int]);
        let ghost before = r@.map_values(|s: String| s@);
        r.push(join_path(raw.as_str(), name.as_str()));
        assert(xs.take(k + 1) == xs.take(k as int).push(xs[k as int]));
        assert(r@.map_values(|s: String| s@) == before.push(
            join_s(join_s(base@, i), "index."@ + xs[k as int]),
        ));
        k += 1;
    }
    assert(xs.take(4) == xs);
    r
}

/// Extensions tried for a relative import in the scoped repository map.
pub open spec fn scoped_import_exts() -> Seq<Seq<char>> {
    seq!["ts"@, "tsx"@, "js"@, "jsx"@, "json"@, "md"@]
}

/// Extensions tried for a relative import in the module graph.
pub open spec fn module_import_exts() -> Seq<Seq<char>> {
    seq!["ts"@, "tsx"@, "js"@, "jsx"@, "json"@, "md"@, "toml"@, "css"@, "html"@]
}

/// The paths tried for a relative import in the scoped repository map.
pub fn scoped_import_candidates(base_dir: &str, imp: &str) -> (r: Vec<String>)
    ensures
        r@.map_values(|s: String| s@) == import_candidates_s(base_dir@, imp@, scoped_import_exts()),
{
    let exts: [&str; 6] = ["ts", "tsx", "js", "jsx", "json", "md"];
    assert(exts@.map_values(|e: &str| e@) =~= scoped_import_exts());
    import_candidates(base_dir, imp, &exts)
}

/// The paths tried for a relative import in the module graph.
pub fn module_import_candidates(base_dir: &str, imp: &str) -> (r: Vec<String>)
    ensures
        r@.map_values(|s: String| s@) == import_candidates_s(base_dir@, imp@, module_import_exts()),
{
    let exts: [&str; 9] = ["ts", "tsx", "js", "jsx", "json", "md", "toml", "css", "html"];
    assert(exts@.map_values(|e: &str| e@) =~= module_import_exts());
    import_candidates(base_dir, imp, &exts)
}

// ───────────────────────── the map of one directory ─────────────────────────

/// An entry of the mapped directory, as the file system reported it.
#[derive(Debug, Clone)]
pub struct ScopeEntry {
    /// The entry's file name.
    pub name: String,
    /// The entry's full path.
    pub path: String,
    /// The entry's path relative to its workspace root, when it lies in one.
    pub rel: Option<String>,
    pub is_dir: bool,
    pub is_file: bool,
    /// Size in bytes (files).
    pub bytes: u64,
    /// Estimated tokens of the file.
    pub est_tokens: u64,
}

/// One relative import of a mapped file: the file's node id and the
/// workspace-relative paths of the candidate files that exist, in the order
/// they are tried.
#[derive(Debug, Clone)]
pub struct ScopeImport {
    pub source: String,
    pub candidates: Vec<String>,
}

/// A map node as plain values.
pub struct NodeV {
    pub id: Seq<char>,
    pub label: Seq<char>,
    pub path: Seq<char>,
    pub kind: Seq<char>,
    pub size_class: Seq<char>,
    pub bytes: u64,
    pub est_tokens: u64,
}

/// The plain values of a map node.
pub open spec fn node_v(n: MapNode) -> NodeV {
    NodeV {
        id: n.id@,
        label: n.label@,
        path: n.path@,
        kind: n.kind@,
        size_class: n.size_class@,
        bytes: n.bytes,
        est_tokens: n.est_tokens,
    }
}

/// The plain values of a map edge: id, source, target.
pub open spec fn edge_v(e: MapEdge) -> (Seq<char>, Seq<char>, Seq<char>) {
    (e.id@, e.source@, e.target@)
}

/// The id of what lies at `rel`: `.` for the root itself.
pub open spec fn module_id_s(rel: Seq<char>) -> Seq<char> {
    if rel.len() == 0 {
        "."@
    } else {
        rel
    }
}

/// A display label: `(unnamed)` for an empty name.
pub open spec fn label_s(name: Seq<char>) -> Seq<char> {
    if name.len() == 0 {
        "(unnamed)"@
    } else {
        name
    }
}

/// The node id of an entry: its relative path, or its name when it has none.
pub open spec fn entry_id(e: ScopeEntry) -> Seq<char> {
    module_id_s(
        match e.rel {
            Some(r) => r@,
            None => e.name@,
        },
    )
}

/// An entry is mapped: its name and no component of its path is excluded,
/// and it is a directory, or a file with a counted extension.
pub open spec fn entry_kept(e: ScopeEntry) -> bool {
    &&& !skipped_dirs().contains(e.name@)
    &&& !has_forbidden_component_s(e.path@)
    &&& (e.is_dir || (e.is_file && counted_file(e.path@)))
}

/// A file of this path is counted in the map, by its extension.
pub open spec fn counted_file(p: Seq<char>) -> bool {
    extension_s(p) matches Some(x) && allowed_exts().contains(x)
}

/// The node of a directory.
pub open spec fn dir_node(id: Seq<char>, label: Seq<char>) -> NodeV {
    NodeV {
        id,
        label,
        path: id,
        kind: "directory"@,
        size_class: "small"@,
        bytes: 0,
        est_tokens: 0,
    }
}

/// The node of a mapped entry.
pub open spec fn entry_node(e: ScopeEntry) -> NodeV {
    if e.is_dir {
        dir_node(entry_id(e), label_s(e.name@))
    } else {
        NodeV {
            id: entry_id(e),
            label: label_s(e.name@),
            path: entry_id(e),
            kind: "file"@,
            size_class: size_class_s(e.bytes),
            bytes: e.bytes,
            est_tokens: e.est_tokens,
        }
    }
}

/// The mapped entries, in listing order.
pub open spec fn kept_entries(es: Seq<ScopeEntry>) -> Seq<ScopeEntry>
    decreases es.len(),
{
    if es.len() == 0 {
        seq![]
    } else if entry_kept(es.last()) {
        kept_entries(es.drop_last()).push(es.last())
    } else {
        kept_entries(es.drop_last())
    }
}

/// The label of the mapped directory: the repository's name (or `root`)
/// when it is the repository root, else its own name (or its id).
pub open spec fn parent_label_s(
    parent_id: Seq<char>,
    repo_name: Option<Seq<char>>,
    scope_name: Option<Seq<char>>,
) -> Seq<char> {
    if parent_id == "."@ {
        match repo_name {
            Some(n) => n,
            None => "root"@,
        }
    } else {
        match scope_name {
            Some(n) => n,
            None => parent_id,
        }
    }
}

/// The nodes before sorting: the directory, then its mapped entries.
pub open spec fn unsorted_nodes(pid: Seq<char>, plabel: Seq<char>, es: Seq<ScopeEntry>) -> Seq<NodeV> {
    seq![dir_node(pid, plabel)] + kept_entries(es).map_values(|e: ScopeEntry| entry_node(e))
}

/// An edge as plain values, its id made of `prefix`, `s`, `->` and `t`.
pub open spec fn link(prefix: Seq<char>, s: Seq<char>, t: Seq<char>) -> (Seq<char>, Seq<char>, Seq<char>) {
    (prefix + s + "->"@ + t, s, t)
}

/// The first candidate whose id names a node, as that id.
pub open spec fn resolved_import(cands: Seq<Seq<char>>, ids: Seq<Seq<char>>) -> Option<Seq<char>>
    decreases cands.len(),
{
    if cands.len() == 0 {
        None
    } else if ids.contains(module_id_s(cands[0])) {
        Some(module_id_s(cands[0]))
    } else {
        resolved_import(cands.drop_first(), ids)
    }
}

/// The import edges: one per import that resolves to a node other than its source.
pub open spec fn import_edges(imps: Seq<ScopeImport>, ids: Seq<Seq<char>>) -> Seq<
    (Seq<char>, Seq<char>, Seq<char>),
>
    decreases imps.len(),
{
    if imps.len() == 0 {
        seq![]
    } else {
        let r = import_edges(imps.drop_last(), ids);
        let l = imps.last();
        match resolved_import(l.candidates@.map_values(|c: String| c@), ids) {
            Some(d) => if d != l.source@ {
                r.push(link("import:"@, l.source@, d))
            } else {
                r
            },
            None => r,
        }
    }
}

/// The edges before sorting: directory to child for each mapped entry, then the imports.
pub open spec fn unsorted_edges(
    pid: Seq<char>,
    plabel: Seq<char>,
    es: Seq<ScopeEntry>,
    imps: Seq<ScopeImport>,
) -> Seq<(Seq<char>, Seq<char>, Seq<char>)> {
    kept_entries(es).map_values(|e: ScopeEntry| link(""@, pid, entry_id(e))) + import_edges(
        imps,
        unsorted_nodes(pid, plabel, es).map_values(|n: NodeV| n.id),
    )
}

/// `r` holds `xs` sorted stably by `key`, through some permutation.
pub open spec fn stably_sorted<A>(r: Seq<A>, xs: Seq<A>, key: spec_fn(A) -> Seq<char>) -> bool {
    exists|p: Seq<usize>|
        #![trigger is_perm(p, xs.len())]
        is_perm(p, xs.len()) && orders(p, xs.map_values(key)) && stable(p, xs.map_values(key))
            && r.len() == xs.len() && forall|i: int| 0 <= i < r.len() ==> r[i] == #[trigger] xs[p[i] as int]
}

fn contains_key(keys: &Vec<Vec<char>>, k: &Vec<char>) -> (r: bool)
    ensures
        r == keys@.map_values(|v: Vec<char>| v@).contains(k@),
{
    let ghost kv = keys@.map_values(|v: Vec<char>| v@);
    let mut i: usize = 0;
    while i < keys.len()
        invariant
            i <= keys.len(),
            kv == keys@.map_values(|v: Vec<char>| v@),
            forall|j: int| 0 <= j < i ==> kv[j] != k@,
        decreases keys.len() - i,
    {
        if chars_eq(&keys[i], k) {
            assert(kv[i as int] == k@);
            return true;
        }
        i += 1;
    }
    false
}

/// The first candidate of `cands` whose id is among `keys`, as that id.
fn resolve_import(cands: &Vec<String>, keys: &Vec<Vec<char>>) -> (r: Option<String>)
    ensures
        match resolved_import(cands@.map_values(|c: String| c@), keys@.map_values(|v: Vec<char>| v@)) {
            Some(d) => r matches Some(x) && x@ == d,
            None => r is None,
        },
{
    let ghost cv = cands@.map_values(|c: String| c@);
    let ghost kv = keys@.map_values(|v: Vec<char>| v@);
    let mut m: usize = 0;
    while m < cands.len()
        invariant
            m <= cands.len(),
            cv == cands@.map_values(|c: String| c@),
            kv == keys@.map_values(|v: Vec<char>| v@),
            resolved_import(cv, kv) == resolved_import(cv.skip(m as int), kv),
        decreases cands.len() - m,
    {
        let id = normalize_module_id(cands[m].as_str());
        let idv = chars_of(id.as_str());
        assert(cv.skip(m as int)[0] == cv[m as int]);
        assert(cv.skip(m as int).drop_first() == cv.skip(m + 1));
        if contains_key(keys, &idv) {
            return Some(id);
        }
        m += 1;
    }
    None
}

/// The edge `prefix` + `s` + `->` + `t`, from `s` to `t`.
fn make_link(prefix: &str, s: &str, t: &str) -> (e: MapEdge)
    ensures
        edge_v(e) == link(prefix@, s@, t@),
{
    let mut id = String::from_str(prefix);
    push_str(&mut id, s);
    push_str(&mut id, "->");
    proof {
        reveal_strlit("->");
    }
    push_str(&mut id, t);
    MapEdge { id, source: String::from_str(s), target: String::from_str(t) }
}

fn copy_node(n: &MapNode) -> (r: MapNode)
    ensures
        node_v(r) == node_v(*n),
{
    MapNode {
        id: n.id.clone(),
        label: n.label.clone(),
        path: n.path.clone(),
        kind: n.kind.clone(),
        size_class: n.size_class.clone(),
        bytes: n.bytes,
        est_tokens: n.est_tokens,
    }
}

fn copy_edge(e: &MapEdge) -> (r: MapEdge)
    ensures
        edge_v(r) == edge_v(*e),
{
    MapEdge { id: e.id.clone(), source: e.source.clone(), target: e.target.clone() }
}

/// The map of one directory: the directory itself (its id from
/// `parent_rel`, its label the repository's name at the root, else its own
/// name), each mapped entry with an edge from the directory to it, and an
/// edge for each import that resolves to another node; nodes and edges each
/// sorted stably by id.
pub fn scoped_repo_map(
    parent_rel: &str,
    repo_name: Option<&str>,
    scope_name: Option<&str>,
    entries: &Vec<ScopeEntry>,
    imports: &Vec<ScopeImport>,
) -> (r: RepoMap)
    ensures
        ({
            let pid = module_id_s(parent_rel@);
            let pl = parent_label_s(pid, str_opt(repo_name), str_opt(scope_name));
            &&& stably_sorted(
                r.nodes@.map_values(|n: MapNode| node_v(n)),
                unsorted_nodes(pid, pl, entries@),
                |n: NodeV| n.id,
            )
            &&& stably_sorted(
                r.edges@.map_values(|e: MapEdge| edge_v(e)),
                unsorted_edges(pid, pl, entries@, imports@),
                |e: (Seq<char>, Seq<char>, Seq<char>)| e.0,
            )
        }),
{
    let pid = normalize_module_id(parent_rel);
    let ghost gp = module_id_s(parent_rel@);
    let plabel = if str_is_dot(pid.as_str()) {
        match repo_name {
            Some(n) => String::from_str(n),
            None => String::from_str("root"),
        }
    } else {
        match scope_name {
            Some(n) => String::from_str(n),
            None => pid.clone(),
        }
    };
    let ghost gl = parent_label_s(gp, str_opt(repo_name), str_opt(scope_name));
    assert(plabel@ == gl);
    let mut un: Vec<MapNode> = Vec::new();
    un.push(
        MapNode {
            id: pid.clone(),
            label: plabel,
            path: pid.clone(),
            kind: String::from_str("directory"),
            size_class: String::from_str("small"),
            bytes: 0,
            est_tokens: 0,
        },
    );
    proof {
        reveal_strlit("directory");
        reveal_strlit("small");
    }
    let mut ue: Vec<MapEdge> = Vec::new();
    let ghost es = entries@;
    assert(kept_entries(es.take(0)) =~= Seq::<ScopeEntry>::empty());
    assert(un@.map_values(|n: MapNode| node_v(n)) =~= unsorted_nodes(gp, gl, es.take(0)));
    let mut i: usize = 0;
    while i < entries.len()
        invariant
            i <= entries.len(),
            es == entries@,
            pid@ == gp,
            un@.map_values(|n: MapNode| node_v(n)) == unsorted_nodes(gp, gl, es.take(i as int)),
            ue@.map_values(|e: MapEdge| edge_v(e)) == kept_entries(es.take(i as int)).map_values(
                |e: ScopeEntry| link(""@, gp, entry_id(e)),
            ),
        decreases entries.len() - i,
    {
        let e = &entries[i];
        let ghost ti = es.take(i as int);
        let ghost tn = es.take(i + 1);
        assert(tn.drop_last() == ti);
        assert(tn.last() == es[i as int]);
        let kept = !should_skip_dir_name(e.name.as_str()) && !path_has_forbidden_component(
            e.path.as_str(),
        ) && (e.is_dir || (e.is_file && is_allowed_ext(e.path.as_str())));
        if kept {
            assert(entry_kept(*e));
            let id = match &e.rel {
                Some(r) => normalize_module_id(r.as_str()),
                None => normalize_module_id(e.name.as_str()),
            };
            assert(id@ == entry_id(*e));
            let node = if e.is_dir {
                MapNode {
                    id: id.clone(),
                    label: clamp_label(e.name.as_str()),
                    path: id.clone(),
                    kind: String::from_str("directory"),
                    size_class: String::from_str("small"),
                    bytes: 0,
                    est_tokens: 0,
                }
            } else {
                MapNode {
                    id: id.clone(),
                    label: clamp_label(e.name.as_str()),
                    path: id.clone(),
                    kind: String::from_str("file"),
                    size_class: size_class_from_bytes(e.bytes),
                    bytes: e.bytes,
                    est_tokens: e.est_tokens,
                }
            };
            proof {
                reveal_strlit("directory");
                reveal_strlit("small");
                reveal_strlit("file");
            }
            assert(node_v(node) == entry_node(*e));
            let ghost bn = un@.map_values(|n: MapNode| node_v(n));
            un.push(node);
            assert(un@.map_values(|n: MapNode| node_v(n)) == bn.push(entry_node(*e)));
            let ghost be = ue@.map_values(|x: MapEdge| edge_v(x));
            ue.push(make_link("", pid.as_str(), id.as_str()));
            proof {
                reveal_strlit("");
            }
            assert(ue@.map_values(|x: MapEdge| edge_v(x)) == be.push(link(""@, gp, entry_id(*e))));
            assert(kept_entries(tn) == kept_entries(ti).push(*e));
        } else {
            assert(!entry_kept(*e));
            assert(kept_entries(tn) == kept_entries(ti));
        }
        assert(unsorted_nodes(gp, gl, tn) == unsorted_nodes(gp, gl, ti) + (if entry_kept(es[i as int]) {
            seq![entry_node(es[i as int])]
        } else {
            seq![]
        }));
        i += 1;
    }
    assert(es.take(entries.len() as int) == es);
    let ghost un_s = unsorted_nodes(gp, gl, es);
    let ghost child = kept_entries(es).map_values(|e: ScopeEntry| link(""@, gp, entry_id(e)));
    let mut nkeys: Vec<Vec<char>> = Vec::new();
    let mut k: usize = 0;
    while k < un.len()
        invariant
            k <= un.len(),
            un@.map_values(|n: MapNode| node_v(n)) == un_s,
            nkeys@.map_values(|v: Vec<char>| v@) == un_s.map_values(|n: NodeV| n.id).take(k as int),
        decreases un.len() - k,
    {
        let ghost before = nkeys@.map_values(|v: Vec<char>| v@);
        nkeys.push(chars_of(un[k].id.as_str()));
        assert(un_s[k as int] == node_v(un@[k as int]));
        assert(nkeys@.map_values(|v: Vec<char>| v@) == before.push(un_s[k as int].id));
        assert(un_s.map_values(|n: NodeV| n.id).take(k + 1) == un_s.map_values(|n: NodeV| n.id).take(
            k as int,
        ).push(un_s[k as int].id));
        k += 1;
    }
    let ghost ids = un_s.map_values(|n: NodeV| n.id);
    assert(ids.take(un.len() as int) == ids);
    let ghost imps = imports@;
    let mut j: usize = 0;
    while j < imports.len()
        invariant
            j <= imports.len(),
            imps == imports@,
            nkeys@.map_values(|v: Vec<char>| v@) == ids,
            ue@.map_values(|e: MapEdge| edge_v(e)) == child + import_edges(imps.take(j as int), ids),
        decreases imports.len() - j,
    {
        let ghost tj = imps.take(j as int);
        let ghost tn = imps.take(j + 1);
        assert(tn.drop_last() == tj);
        assert(tn.last() == imps[j as int]);
        let l = &imports[j];
        let ghost be = ue@.map_values(|x: MapEdge| edge_v(x));
        match resolve_import(&l.candidates, &nkeys) {
            Some(d) => {
                if !chars_eq(&chars_of(d.as_str()), &chars_of(l.source.as_str())) {
                    ue.push(make_link("import:", l.source.as_str(), d.as_str()));
                    proof {
                        reveal_strlit("import:");
                    }
                    assert(ue@.map_values(|x: MapEdge| edge_v(x)) == be.push(
                        link("import:"@, l.source@, d@),
                    ));
                }
            },
            None => {},
        }
        j += 1;
    }
    assert(imps.take(imports.len() as int) == imps);
    let ghost ue_s = unsorted_edges(gp, gl, es, imps);
    assert(ue@.map_values(|e: MapEdge| edge_v(e)) == ue_s);
    let mut ekeys: Vec<Vec<char>> = Vec::new();
    let mut k: usize = 0;
    while k < ue.len()
        invariant
            k <= ue.len(),
            ue@.map_values(|e: MapEdge| edge_v(e)) == ue_s,
            ekeys@.map_values(|v: Vec<char>| v@) == ue_s.map_values(
                |e: (Seq<char>, Seq<char>, Seq<char>)| e.0,
            ).take(k as int),
        decreases ue.len() - k,
    {
        let ghost before = ekeys@.map_values(|v: Vec<char>| v@);
        ekeys.push(chars_of(ue[k].id.as_str()));
        assert(ue_s[k as int] == edge_v(ue@[k as int]));
        assert(ekeys@.map_values(|v: Vec<char>| v@) == before.push(ue_s[k as int].0));
        assert(ue_s.map_values(|e: (Seq<char>, Seq<char>, Seq<char>)| e.0).take(k + 1)
            == ue_s.map_values(|e: (Seq<char>, Seq<char>, Seq<char>)| e.0).take(k as int).push(
            ue_s[k as int].0,
        ));
        k += 1;
    }
    let ghost eks = ue_s.map_values(|e: (Seq<char>, Seq<char>, Seq<char>)| e.0);
    assert(eks.take(ue.len() as int) == eks);
    let pn = sort_perm(&nkeys);
    let pe = sort_perm(&ekeys);
    let mut nodes: Vec<MapNode> = Vec::new();
    let mut q: usize = 0;
    while q < pn.len()
        invariant
            q <= pn.len() == un.len(),
            is_perm(pn@, un.len() as nat),
            nodes.len() == q,
            forall|t: int| 0 <= t < q ==> node_v(#[trigger] nodes@[t]) == node_v(un@[pn@[t] as int]),
        decreases pn.len() - q,
    {
        nodes.push(copy_node(&un[pn[q]]));
        q += 1;
    }
    let mut edges: Vec<MapEdge> = Vec::new();
    let mut q: usize = 0;
    while q < pe.len()
        invariant
            q <= pe.len() == ue.len(),
            is_perm(pe@, ue.len() as nat),
            edges.len() == q,
            forall|t: int| 0 <= t < q ==> edge_v(#[trigger] edges@[t]) == edge_v(ue@[pe@[t] as int]),
        decreases pe.len() - q,
    {
        edges.push(copy_edge(&ue[pe[q]]));
        q += 1;
    }
    proof {
        let rn = nodes@.map_values(|n: MapNode| node_v(n));
        assert forall|t: int| 0 <= t < rn.len() implies rn[t] == #[trigger] un_s[pn@[t] as int] by {
            assert(un_s[pn@[t] as int] == node_v(un@[pn@[t] as int]));
        }
        assert(is_perm(pn@, un_s.len()) && orders(pn@, un_s.map_values(|n: NodeV| n.id)) && stable(
            pn@,
            un_s.map_values(|n: NodeV| n.id),
        ) && rn.len() == un_s.len());
        let re = edges@.map_values(|e: MapEdge| edge_v(e));
        assert forall|t: int| 0 <= t < re.len() implies re[t] == #[trigger] ue_s[pe@[t] as int] by {
            assert(ue_s[pe@[t] as int] == edge_v(ue@[pe@[t] as int]));
        }
        assert(is_perm(pe@, ue_s.len()) && orders(
            pe@,
            ue_s.map_values(|e: (Seq<char>, Seq<char>, Seq<char>)| e.0),
        ) && stable(pe@, ue_s.map_values(|e: (Seq<char>, Seq<char>, Seq<char>)| e.0))
            && re.len() == ue_s.len());
    }
    RepoMap { nodes, edges }
}

fn str_is_dot(s: &str) -> (r: bool)
    ensures
        r == (s@ == "."@),
{
    proof {
        reveal_strlit(".");
    }
    let v = chars_of(s);
    if v.len() == 1 && v[0] == '.' {
        assert(v@ =~= "."@);
        true
    } else {
        false
    }
}

} // verus!
