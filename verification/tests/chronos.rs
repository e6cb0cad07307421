use cortex::chronos::{
    checkpoint_file_name, checkpoint_listing, checkpoint_request, compare_symbol, saved_report, delete_report, empty_namespace_note, namespace_block, delete_selection, find_one, guess_code_fence, missing_namespace_error,
    no_match_report, plan_checkpoint_delete, purge_report, sanitize_for_filename, CheckpointRecord,
    DeletePlan,
};

fn rec(tag: &str, path: &str, symbol: &str, code: &str) -> CheckpointRecord {
    CheckpointRecord {
        tag: tag.to_string(),
        path: path.to_string(),
        symbol: symbol.to_string(),
        code: code.to_string(),
        created_unix_ms: 0,
    }
}

#[test]
fn file_names_are_sanitized() {
    assert_eq!(sanitize_for_filename("  my  tag!/x "), "my_tag--x");
    assert_eq!(sanitize_for_filename("__a__b__"), "a_b");
    assert_eq!(sanitize_for_filename(""), "");
}

#[test]
fn code_fences_follow_the_extension() {
    assert_eq!(guess_code_fence("src/lib.RS"), "rust");
    assert_eq!(guess_code_fence("a/b.hpp"), "cpp");
    assert_eq!(guess_code_fence("Makefile"), "");
}

#[test]
fn lookup_reports_missing_and_ambiguous_checkpoints() {
    let recs = vec![rec("t1", "a.rs", "f", "x"), rec("t1", "b.rs", "f", "y")];
    let paths = vec!["a.rs".to_string(), "b.rs".to_string()];
    assert_eq!(find_one(&recs, &paths, "f", "t1", Some("b.rs")), Ok(1));
    assert_eq!(
        find_one(&recs, &paths, "g", "t1", None).unwrap_err(),
        "No checkpoint found for symbol `g` at tag `t1`"
    );
    assert_eq!(
        find_one(&recs, &paths, "f", "t1", None).unwrap_err(),
        "Multiple checkpoints match symbol `f` at tag `t1`. Please disambiguate with `path`.\nMatches:\n- a.rs\n- b.rs\n"
    );
}

#[test]
fn comparison_of_two_snapshots() {
    let recs = vec![rec("a", "x.rs", "f", "fn f() {}\n"), rec("b", "x.rs", "f", "fn f() { 1 }  \n")];
    let paths = vec!["x.rs".to_string(), "x.rs".to_string()];
    let out = compare_symbol("cp", &recs, &paths, " f ", "a", "b", None, None, Err(String::new())).unwrap();
    assert_eq!(
        out,
        "## Comparison: `f` (`a` vs `b`)\n\n### `a` — `x.rs`\n```rust\nfn f() {}\n```\n\n### `b` — `x.rs`\n```rust\nfn f() { 1 }\n```\n"
    );
    let same = vec![rec("a", "x.rs", "f", " fn f() {} "), rec("b", "y.rs", "f", "fn f() {}")];
    let out = compare_symbol("cp", &same, &paths, "f", "a", "b", None, None, Err(String::new())).unwrap();
    assert!(out.contains("✅ **NO STRUCTURAL DIFF** — `f` is identical in both snapshots.\n- `a` path: `x.rs`\n- `b` path: `y.rs`\n\nNo action needed."));
    assert_eq!(
        compare_symbol("cp", &recs, &paths, "f", "a", "__live__", None, None, Err(String::new())).unwrap_err(),
        "tag_b='__live__' requires 'path' (the source file containing the symbol)."
    );
    assert_eq!(
        compare_symbol("cp", &vec![], &vec![], "f", "a", "b", None, None, Err(String::new())).unwrap_err(),
        "No checkpoints found (directory missing or empty): cp"
    );
    assert_eq!(
        compare_symbol("cp", &recs, &paths, "f", " ", "b", None, None, Err(String::new())).unwrap_err(),
        "Missing required args: symbol_name, tag_a, tag_b"
    );
    let live = rec("__live__", "x.rs", "f", "fn f() { 2 }");
    let out = compare_symbol("cp", &recs, &paths, "f", "a", "__live__", Some("x.rs"), None, Ok(live)).unwrap();
    assert!(out.ends_with("### `__live__` — `x.rs`\n```rust\nfn f() { 2 }\n```\n"));
}

#[test]
fn delete_requests_plan_purge_or_filters() {
    match plan_checkpoint_delete(None, Some("  "), None, Some("  ")) {
        DeletePlan::PurgeNamespace { namespace } => assert_eq!(namespace, "default"),
        other => panic!("unexpected {other:?}"),
    }
    match plan_checkpoint_delete(Some(" parse "), None, Some("src/a.rs"), Some(" exp ")) {
        DeletePlan::Filtered { namespace, symbol, tag, path_hint } => {
            assert_eq!(namespace, "exp");
            assert_eq!(symbol.as_deref(), Some("parse"));
            assert_eq!(tag, None);
            assert_eq!(path_hint.as_deref(), Some("src/a.rs"));
        }
        other => panic!("unexpected {other:?}"),
    }
}

#[test]
fn delete_selection_applies_given_filters() {
    let recs = vec![rec("v1", "a.rs", "f", ""), rec("v2", "a.rs", "f", ""), rec("v1", "b.rs", "g", "")];
    let paths = vec!["a.rs".to_string(), "a.rs".to_string(), "b.rs".to_string()];
    assert_eq!(delete_selection(&recs, &paths, &Some("f".to_string()), &None, &None), vec![0, 1]);
    assert_eq!(delete_selection(&recs, &paths, &None, &Some("v1".to_string()), &None), vec![0, 2]);
    assert_eq!(
        delete_selection(&recs, &paths, &None, &Some("v1".to_string()), &Some("b.rs".to_string())),
        vec![2]
    );
}

#[test]
fn delete_reports() {
    assert_eq!(
        purge_report("exp", 3, "/r/.cortexast/checkpoints/exp"),
        "Purged namespace 'exp': deleted 3 checkpoint file(s) and the directory /r/.cortexast/checkpoints/exp."
    );
    assert!(missing_namespace_error("v1").starts_with("Error: Namespace 'v1' does not exist."));
    assert_eq!(
        no_match_report(&Some("f".to_string()), &None, &Some("a.rs".to_string())),
        "No checkpoints matched the provided filters (symbol='f', path='a.rs').\nTip: run list_checkpoints to see what exists."
    );
    assert_eq!(
        delete_report("default", "/d", false, 1, 2, &vec!["- /d/x.json: denied".to_string()]),
        "Deleted 1/2 checkpoint(s) from namespace 'default' (/d).\n\nSome deletes failed:\n- /d/x.json: denied"
    );
    assert_eq!(
        delete_report("default", "/old", true, 2, 2, &Vec::new()),
        "Deleted 2/2 checkpoint(s) from legacy flat store (/old)."
    );
}

fn stamped(tag: &str, symbol: &str, ms: u64) -> CheckpointRecord {
    CheckpointRecord {
        tag: tag.to_string(),
        path: "src/lib.rs".to_string(),
        symbol: symbol.to_string(),
        code: String::new(),
        created_unix_ms: ms,
    }
}

#[test]
fn namespace_blocks_group_by_tag_newest_first() {
    let recs = vec![stamped("v2", "a", 1), stamped("v1", "b", 5), stamped("v2", "c", 9), stamped("v1", "d", 7)];
    assert_eq!(
        namespace_block("default", &recs),
        "\n### Namespace: `default`\n\n#### `v1`\n- `d` — `src/lib.rs`\n- `b` — `src/lib.rs`\n\n#### `v2`\n- `c` — `src/lib.rs`\n- `a` — `src/lib.rs`\n\n"
    );
    assert_eq!(namespace_block("x", &Vec::new()), "");
}

#[test]
fn tag_blocks_show_fifty_and_count_the_rest() {
    let recs: Vec<CheckpointRecord> = (0..53).map(|i| stamped("t", &format!("s{i}"), i)).collect();
    let block = namespace_block("n", &recs);
    assert_eq!(block.matches("- `s").count(), 50);
    assert!(block.contains("- `s52` — `src/lib.rs`\n"));
    assert!(!block.contains("- `s2` "));
    assert!(block.ends_with("- *... 3 more*\n\n"));
}

#[test]
fn listings_order_namespaces_then_legacy() {
    let named = vec![
        ("zeta".to_string(), vec![stamped("t", "z", 1)]),
        ("alpha".to_string(), vec![stamped("t", "a", 1)]),
        ("empty".to_string(), Vec::new()),
    ];
    let legacy = vec![stamped("old", "o", 1)];
    let out = checkpoint_listing(&named, &legacy);
    assert!(out.starts_with("## Checkpoints\n\n### Namespace: `alpha`"));
    let a = out.find("`alpha`").unwrap();
    let z = out.find("`zeta`").unwrap();
    let l = out.find("`(legacy)`").unwrap();
    assert!(a < z && z < l);
    assert!(!out.contains("`empty`"));
    assert_eq!(checkpoint_listing(&named[2..].to_vec(), &Vec::new()), "*(no checkpoints yet)*");
    assert_eq!(empty_namespace_note("v9"), "*(no checkpoints in namespace 'v9' yet)*");
}

#[test]
fn checkpoint_requests_need_tag_symbol_and_path() {
    assert_eq!(checkpoint_request("a.rs", "f", "  ", None).unwrap_err(), "Missing semantic tag");
    assert_eq!(checkpoint_request("a.rs", " ", "v1", None).unwrap_err(), "Missing symbol_name");
    assert_eq!(checkpoint_request("", "f", "v1", None).unwrap_err(), "Missing path");
    let q = checkpoint_request(" src/a.rs ", " f ", " v1 ", Some("  ")).unwrap();
    assert_eq!((q.tag.as_str(), q.symbol.as_str(), q.path.as_str(), q.namespace.as_str()), ("v1", "f", "src/a.rs", "default"));
    assert_eq!(checkpoint_file_name("pre refactor", "Foo::bar", 42), format!("{}__{}__42.json", cortex::chronos::sanitize_for_filename("pre refactor"), cortex::chronos::sanitize_for_filename("Foo::bar")));
    assert_eq!(
        saved_report("default", "v1", "f", "a.rs", "/s/v1__f__1.json"),
        "Checkpoint saved.\n- namespace: `default`\n- tag: `v1`\n- symbol: `f`\n- path: `a.rs`\n- file: /s/v1__f__1.json"
    );
}

#[test]
fn checkpoint_paths_relative_to_roots() {
    use_checkpoint_paths();
}

fn use_checkpoint_paths() {
    let roots = vec!["/w/a".to_string(), "/w/b".to_string()];
    assert_eq!(cortex::chronos::checkpoint_rel_path("/w", &roots, "/w/b/src/x.rs"), "[b]/src/x.rs");
    assert_eq!(cortex::chronos::checkpoint_rel_path("/w", &roots, "/w/a"), "[a]");
    assert_eq!(cortex::chronos::checkpoint_rel_path("/w", &roots[..1].to_vec(), "/w/a/y.rs"), "y.rs");
    assert_eq!(cortex::chronos::checkpoint_rel_path("/w", &vec![], "/w/c/z.rs"), "c/z.rs");
    assert_eq!(cortex::chronos::checkpoint_rel_path("/w", &vec![], "/v/z.rs"), "/v/z.rs");
    assert_eq!(cortex::chronos::checkpoint_rel_path("/w", &roots, "/w/ab/q.rs"), "ab/q.rs");
}
