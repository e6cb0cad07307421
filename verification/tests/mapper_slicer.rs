use cortex::mapper::{
    clamp_label, is_allowed_ext, is_allowed_source_ext, is_known_manifest_file,
    is_module_marker_file, module_for_rust_import, module_id_for_rel_path, normalize_module_id,
    pubspec_name, should_skip_dir_name, size_class_from_bytes, weighted_module_edges,
};
use cortex::slicer::{
    build_repository_map_text, crunch_text_for_cdata, truncate_unknown, estimate_xml_file_overhead_bytes,
    estimate_xml_repository_map_overhead_bytes, importance_score, is_manifest_file,
    truncation_header_for_path,
};

#[test]
fn module_ownership_prefers_the_deepest_root() {
    let roots = vec![
        (".".to_string(), "root".to_string()),
        ("crates/a".to_string(), "a".to_string()),
        ("crates/a/sub".to_string(), "sub".to_string()),
        ("crates/ab".to_string(), "ab".to_string()),
    ];
    assert_eq!(module_id_for_rel_path("crates/a/sub/x.rs", &roots).as_deref(), Some("sub"));
    assert_eq!(module_id_for_rel_path("crates/abc.rs", &roots).as_deref(), Some("root"));
    assert_eq!(module_id_for_rel_path("crates/ab", &roots).as_deref(), Some("ab"));
    assert_eq!(module_id_for_rel_path("x", &roots[1..].to_vec()), None);
}

#[test]
fn file_and_directory_rules() {
    assert!(is_known_manifest_file("go.mod"));
    assert!(!is_known_manifest_file("Cargo.lock"));
    assert!(is_module_marker_file("lib.rs"));
    assert!(should_skip_dir_name(".terraform"));
    assert!(!should_skip_dir_name("src"));
    assert!(is_allowed_ext("a/b.scss"));
    assert!(!is_allowed_ext("a/b.RS"));
    assert!(is_allowed_source_ext("x.dart"));
    assert!(!is_allowed_source_ext("x.json"));
    assert_eq!(size_class_from_bytes(199_999), "small");
    assert_eq!(size_class_from_bytes(200_000), "medium");
    assert_eq!(size_class_from_bytes(1_500_000), "large");
    assert_eq!(normalize_module_id(""), ".");
    assert_eq!(clamp_label(""), "(unnamed)");
    assert_eq!(pubspec_name("# c\n  name:  my_app \n"), Some("my_app".to_string()));
    assert_eq!(pubspec_name("name:\nname: x"), Some("x".to_string()));
}

#[test]
fn importance_scores() {
    assert_eq!(importance_score("src/main.rs"), 120);
    assert_eq!(importance_score("services/api/src/routes.rs"), 120);
    assert_eq!(importance_score("crates/x/tests/test_a.rs"), -1000);
    assert_eq!(importance_score("Cargo.toml"), 65);
    assert_eq!(importance_score("a/b/c/d/e/f/g/h.txt"), -5);
    assert_eq!(importance_score("README.md"), 10);
}

#[test]
fn headers_manifests_and_overheads() {
    assert_eq!(truncation_header_for_path("docs/A.MD"), "# TRUNCATED\n");
    assert_eq!(truncation_header_for_path("a.rs"), "/* TRUNCATED */\n");
    assert!(is_manifest_file("x/Cargo.TOML"));
    assert_eq!(estimate_xml_file_overhead_bytes("é"), 35);
    assert_eq!(estimate_xml_repository_map_overhead_bytes(), 40);
}

#[test]
fn repository_map_lists_paths_within_caps() {
    assert_eq!(
        build_repository_map_text(&vec!["a.rs".to_string(), "b/c.rs".to_string()]),
        "# REPOSITORY_MAP\na.rs\nb/c.rs\n"
    );
    let many: Vec<String> = (0..4001).map(|i| format!("{}", i)).collect();
    let out = build_repository_map_text(&many);
    assert!(out.ends_with("3999\n# ... (truncated)\n"));
    let fits = vec!["x".repeat(65518), "y".to_string()];
    assert_eq!(
        build_repository_map_text(&fits),
        format!("# REPOSITORY_MAP\n{}\n# ... (truncated)\n", "x".repeat(65518))
    );
    let too_big = vec!["x".repeat(65519)];
    assert_eq!(build_repository_map_text(&too_big), "# REPOSITORY_MAP\n# ... (truncated)\n");
}

#[test]
fn cdata_text_is_crunched() {
    assert_eq!(crunch_text_for_cdata("a  \t\nb\r\n\n\n\nc  \n\n"), "a\nb\nc");
    assert_eq!(crunch_text_for_cdata("  x  "), "  x");
    assert_eq!(crunch_text_for_cdata(""), "");
    assert_eq!(crunch_text_for_cdata("\n\nq"), "\nq");
}

#[test]
fn unknown_files_keep_fifty_lines() {
    let content: String = (0..60).map(|i| format!("line {i}\n")).collect();
    let out = truncate_unknown("notes.md", &content);
    let expected_body: Vec<String> = (0..50).map(|i| format!("line {i}")).collect();
    assert_eq!(out, format!("# TRUNCATED\n{}\n\n/* ... */\n", expected_body.join("\n")));
    assert_eq!(truncate_unknown("a.md", "x\r\ny"), "# TRUNCATED\nx\ny\n");
}

#[test]
fn unknown_files_cut_at_byte_cap() {
    let content = "é".repeat(1500);
    let out = truncate_unknown("blob.md", &content);
    assert_eq!(out, format!("# TRUNCATED\n{}\n\n/* ... */\n", "é".repeat(1024)));
}

#[test]
fn scan_options_skip_build_dirs_unless_targeted() {
    let mut cfg = cortex::config::Config::default();
    cfg.scan.exclude_dir_names = vec!["fixtures".to_string()];
    let o = cortex::slicer::build_scan_options("/repo", "services/api", &cfg);
    assert_eq!(o.exclude_dir_names, vec![".git", "node_modules", ".cortexast", "fixtures", "target", "dist"]);
    assert_eq!(o.target, "services/api");
    assert_eq!(o.max_file_bytes, 512 * 1024);
    assert!(o.workspace_roots.is_empty());
    let o = cortex::slicer::build_scan_options("/repo", "/repo/svc/target/", &cfg);
    assert_eq!(o.exclude_dir_names, vec![".git", "node_modules", ".cortexast", "fixtures", "dist"]);
}

#[test]
fn go_module_names_are_short() {
    use_go("module github.com/acme/widget\n\ngo 1.21\n", Some("widget"));
    use_go("// c\n  module  x/y/ \n", Some("y"));
    use_go("module module z", Some("z"));
    use_go("module \n", None);
    use_go("go 1.2\n", None);
    use_go("module ///", Some("///"));
}

fn use_go(text: &str, expected: Option<&str>) {
    assert_eq!(cortex::mapper::go_module_name(text).as_deref(), expected);
}

fn refs(v: &[(&str, &str, u64)]) -> Vec<(String, String, u64)> {
    v.iter().map(|(s, t, w)| (s.to_string(), t.to_string(), *w)).collect()
}

#[test]
fn module_edges_add_up_weights_and_sort_by_id() {
    let edges = weighted_module_edges(&refs(&[
        ("a", "b", 1),
        ("b", "a", 1),
        ("a", "b", 5),
        ("c", "c", 3),
        ("a-", "x", 1),
        ("a", "b", 1),
    ]));
    let got: Vec<(String, String, String, u64)> = edges
        .iter()
        .map(|e| (e.id.clone(), e.source.clone(), e.target.clone(), e.weight))
        .collect();
    assert_eq!(
        got,
        vec![
            ("a-->x".to_string(), "a-".to_string(), "x".to_string(), 1),
            ("a->b".to_string(), "a".to_string(), "b".to_string(), 7),
            ("b->a".to_string(), "b".to_string(), "a".to_string(), 1),
        ]
    );
}

#[test]
fn module_edges_leave_out_self_references() {
    assert!(weighted_module_edges(&refs(&[("m", "m", 4)])).is_empty());
    assert!(weighted_module_edges(&Vec::new()).is_empty());
}

#[test]
fn module_edges_with_equal_ids_order_by_source() {
    let edges = weighted_module_edges(&refs(&[("x", "y->z", 1), ("x->y", "z", 2)]));
    assert_eq!(edges.len(), 2);
    assert_eq!(edges[0].id, "x->y->z");
    assert_eq!(edges[1].id, "x->y->z");
    assert_eq!(edges[0].source, "x");
    assert_eq!(edges[1].source, "x->y");
    assert_eq!(edges[1].weight, 2);
}

#[test]
fn rust_imports_resolve_through_crate_names() {
    let crates = vec![
        ("crates/core".to_string(), Some("cortex-core".to_string()), None),
        ("crates/db".to_string(), Some("db".to_string()), Some("cortex_db".to_string())),
        ("crates/other".to_string(), None, Some("db".to_string())),
    ];
    assert_eq!(
        module_for_rust_import("cortex_core::x::Y", &crates).as_deref(),
        Some("crates/core")
    );
    assert_eq!(
        module_for_rust_import("cortex-core", &crates).as_deref(),
        Some("crates/core")
    );
    assert_eq!(module_for_rust_import(" cortex_db ::a", &crates).as_deref(), Some("crates/db"));
    assert_eq!(module_for_rust_import("db::z", &crates).as_deref(), Some("crates/other"));
    assert_eq!(module_for_rust_import("std::fmt", &crates), None);
    assert_eq!(module_for_rust_import("  ::x", &crates), None);
}

#[test]
fn importance_of_lowercase_path_matches_mixed_case_input() {
    assert_eq!(cortex::slicer::importance_score_of_lowercase("src/main.rs"), importance_score("SRC/Main.rs"));
    assert!(cortex::slicer::importance_score_of_lowercase("tests/a_test.rs") < cortex::slicer::importance_score_of_lowercase("src/lib.rs"));
}

#[test]
fn module_graph_nodes_sorted_and_labelled() {
    use_module_graph();
}

fn use_module_graph() {
    let modules = vec![
        cortex::mapper::ModuleInfo { abs: "/w/repo/web".into(), id: "web".into(), file_count: 2, bytes: 10, est_tokens: 3 },
        cortex::mapper::ModuleInfo { abs: "/w/repo/".into(), id: ".".into(), file_count: 1, bytes: 4, est_tokens: 1 },
        cortex::mapper::ModuleInfo { abs: "/w/repo/api".into(), id: "api".into(), file_count: 5, bytes: 50, est_tokens: 13 },
    ];
    let g = cortex::mapper::assemble_module_graph(
        "/w/repo",
        &modules,
        &refs(&[("web", "api", 1), ("web", "api", 1), ("api", ".", 1), ("api", "api", 1)]),
    );
    let nodes: Vec<(&str, &str, u64)> = g.nodes.iter().map(|n| (n.id.as_str(), n.label.as_str(), n.file_count)).collect();
    assert_eq!(nodes, vec![(".", "repo", 1), ("api", "api", 5), ("web", "web", 2)]);
    let edges: Vec<(&str, u64)> = g.edges.iter().map(|e| (e.id.as_str(), e.weight)).collect();
    assert_eq!(edges, vec![("api->.", 1), ("web->api", 2)]);
}

#[test]
fn module_labels_and_owners() {
    assert_eq!(cortex::mapper::module_label("/", "/"), "root");
    assert_eq!(cortex::mapper::module_label("/w/r", "/w/r/x/.."), "module");
    let ancestors = vec!["/r/a/b".to_string(), "/r/a".to_string(), "/r".to_string()];
    let roots = vec!["/r".to_string(), "/r/a".to_string()];
    assert_eq!(cortex::mapper::owner_module(&ancestors, &roots), Some(1));
    assert_eq!(cortex::mapper::owner_module(&ancestors[..1].to_vec(), &roots), None);
}

#[test]
fn manifest_labels_and_path_dependencies() {
    use_manifest_labels();
}

fn use_manifest_labels() {
    let some = |s: &str| Some(s.to_string());
    assert_eq!(cortex::mapper::manifest_label("Cargo.toml", "f", &None, &some("lib_n"), &some("pkg")), "lib_n");
    assert_eq!(cortex::mapper::manifest_label("Cargo.toml", "f", &some("x"), &None, &some("pkg")), "pkg");
    assert_eq!(cortex::mapper::manifest_label("Cargo.toml", "f", &some("x"), &None, &None), "f");
    assert_eq!(cortex::mapper::manifest_label("go.mod", "f", &some("mod"), &some("l"), &None), "mod");
    assert_eq!(cortex::mapper::manifest_label("package.json", "f", &None, &None, &None), "f");
    let dirs = vec![
        ("crates/a".to_string(), "crates/a".to_string()),
        ("crates/b".to_string(), "b1".to_string()),
        ("crates/b".to_string(), "b2".to_string()),
    ];
    assert_eq!(cortex::mapper::dependency_module("crates/b", "crates/a", &dirs).as_deref(), Some("b2"));
    assert_eq!(cortex::mapper::dependency_module("crates/a", "crates/a", &dirs), None);
    assert_eq!(cortex::mapper::dependency_module("crates/c", "crates/a", &dirs), None);
}

#[test]
fn huge_slice_budgets_and_selection() {
    assert_eq!(cortex::slicer::huge_budgets(100_000, 4, 3_000), (25_000, 2_000));
    assert_eq!(cortex::slicer::huge_budgets(10_000, 10, 3_000), (3_000, 1_000));
    assert_eq!(cortex::slicer::huge_budgets(1_000, 0, 3_000), (1_000, 500));
    assert_eq!(cortex::slicer::root_files_taken(&vec![1000, 900, 200, 5], 500), 2);
    assert_eq!(cortex::slicer::root_files_taken(&vec![], 500), 0);
    assert_eq!(
        cortex::slicer::member_files_kept(&vec![40, 100, 20, 1], 4, 20),
        vec![true, false, true, true]
    );
    assert_eq!(cortex::slicer::member_files_kept(&vec![5, 5], 0, 9), vec![true, false]);
    let rels = vec!["docs/readme.md".to_string(), "src/main.rs".to_string(), "b.rs".to_string(), "a.rs".to_string()];
    let p = cortex::slicer::member_file_order(&rels, &vec![0, 0, 0, 0]);
    assert_eq!(p.len(), 4);
    assert_eq!(rels[p[0]], "src/main.rs");
    let q = cortex::slicer::member_file_order(&rels[2..].to_vec(), &vec![0, 0]);
    assert_eq!(q, vec![1, 0]);
}

#[test]
fn huge_repository_map_sections() {
    let members = vec![
        ("api".to_string(), "crates/api".to_string(), vec!["crates/api/a.rs".to_string(), "crates/api/b.rs".to_string()]),
        ("empty".to_string(), "crates/empty".to_string(), vec![]),
        ("web".to_string(), "web".to_string(), vec!["web/i.ts".to_string()]),
    ];
    assert_eq!(
        cortex::slicer::huge_repository_map_text(true, &members),
        "# REPOSITORY_MAP\n# ROOT (workspace root)\n\n# api (crates/api)\ncrates/api/a.rs\ncrates/api/b.rs\n# web (web)\nweb/i.ts"
    );
    assert_eq!(cortex::slicer::huge_repository_map_text(false, &vec![]), "# REPOSITORY_MAP\n");
    let big = vec![("m".to_string(), "m".to_string(), vec!["x".repeat(100_000)])];
    let t = cortex::slicer::huge_repository_map_text(false, &big);
    assert!(t.ends_with("\n# ... (truncated)\n"));
    assert_eq!(t.len(), "# REPOSITORY_MAP\n".len() + 98_304 + "\n# ... (truncated)\n".len());
}
