use cortex::repo_map::{
    module_import_candidates, path_has_forbidden_component, scoped_import_candidates,
    scoped_repo_map, ScopeEntry, ScopeImport,
};

fn entry(name: &str, path: &str, rel: Option<&str>, is_dir: bool, bytes: u64, est: u64) -> ScopeEntry {
    ScopeEntry {
        name: name.to_string(),
        path: path.to_string(),
        rel: rel.map(str::to_string),
        is_dir,
        is_file: !is_dir,
        bytes,
        est_tokens: est,
    }
}

#[test]
fn forbidden_components_anywhere_in_the_path() {
    assert!(path_has_forbidden_component("/w/node_modules/x.js"));
    assert!(path_has_forbidden_component("target"));
    assert!(!path_has_forbidden_component("/w/src/targets/x.rs"));
    assert!(!path_has_forbidden_component(""));
}

#[test]
fn relative_imports_try_extensions_then_index_files() {
    let c = scoped_import_candidates("/r/src", " ./util ");
    assert_eq!(
        c,
        vec![
            "/r/src/./util",
            "/r/src/./util.ts",
            "/r/src/./util.tsx",
            "/r/src/./util.js",
            "/r/src/./util.jsx",
            "/r/src/./util.json",
            "/r/src/./util.md",
            "/r/src/./util/index.ts",
            "/r/src/./util/index.tsx",
            "/r/src/./util/index.js",
            "/r/src/./util/index.jsx",
        ]
    );
    assert!(scoped_import_candidates("/r/src", "react").is_empty());
    let m = module_import_candidates("/r/", "../x");
    assert_eq!(m.len(), 14);
    assert_eq!(m[0], "/r/../x");
    assert_eq!(m[9], "/r/../x.html");
    assert_eq!(m[13], "/r/../x/index.jsx");
}

#[test]
fn scoped_map_lists_children_sorted_by_id() {
    let entries = vec![
        entry("lib", "/w/src/lib", Some("src/lib"), true, 0, 0),
        entry("a.ts", "/w/src/a.ts", Some("src/a.ts"), false, 300_000, 75_000),
        entry("b.png", "/w/src/b.png", Some("src/b.png"), false, 5, 2),
        entry("node_modules", "/w/src/node_modules", Some("src/node_modules"), true, 0, 0),
        entry("z.md", "/w/src/z.md", None, false, 10, 3),
    ];
    let imports = vec![
        ScopeImport {
            source: "src/a.ts".to_string(),
            candidates: vec!["src/missing.ts".to_string(), "z.md".to_string()],
        },
        ScopeImport { source: "src/a.ts".to_string(), candidates: vec!["src/a.ts".to_string()] },
    ];
    let map = scoped_repo_map("src", Some("w"), Some("src"), &entries, &imports);
    let ids: Vec<&str> = map.nodes.iter().map(|n| n.id.as_str()).collect();
    assert_eq!(ids, vec!["src", "src/a.ts", "src/lib", "z.md"]);
    let a = &map.nodes[1];
    assert_eq!(a.kind, "file");
    assert_eq!(a.size_class, "medium");
    assert_eq!(a.label, "a.ts");
    assert_eq!((a.bytes, a.est_tokens), (300_000, 75_000));
    let lib = &map.nodes[2];
    assert_eq!((lib.kind.as_str(), lib.size_class.as_str(), lib.bytes), ("directory", "small", 0));
    assert_eq!(map.nodes[0].label, "src");
    let edges: Vec<(&str, &str, &str)> = map
        .edges
        .iter()
        .map(|e| (e.id.as_str(), e.source.as_str(), e.target.as_str()))
        .collect();
    assert_eq!(
        edges,
        vec![
            ("import:src/a.ts->z.md", "src/a.ts", "z.md"),
            ("src->src/a.ts", "src", "src/a.ts"),
            ("src->src/lib", "src", "src/lib"),
            ("src->z.md", "src", "z.md"),
        ]
    );
}

#[test]
fn scoped_map_of_the_repository_root() {
    let map = scoped_repo_map("", Some("repo"), Some("ignored"), &Vec::new(), &Vec::new());
    assert_eq!(map.nodes.len(), 1);
    assert_eq!(map.nodes[0].id, ".");
    assert_eq!(map.nodes[0].label, "repo");
    assert!(map.edges.is_empty());
    let unnamed = scoped_repo_map("", None, None, &Vec::new(), &Vec::new());
    assert_eq!(unnamed.nodes[0].label, "root");
    let inner = scoped_repo_map("a/b", None, None, &vec![entry("", "/w/a/b/", None, true, 0, 0)], &Vec::new());
    assert_eq!(inner.nodes[0].id, ".");
    assert_eq!(inner.nodes[0].label, "(unnamed)");
    assert_eq!(inner.nodes[1].id, "a/b");
    assert_eq!(inner.nodes[1].label, "a/b");
}
