use cortex::server::{extract_path_from_uri, force_inline_truncate, score_path};

#[test]
fn uris_name_paths() {
    assert_eq!(extract_path_from_uri("file:///home/u/proj/"), Some("/home/u/proj".to_string()));
    assert_eq!(extract_path_from_uri("file:///C:/work/app"), Some("C:/work/app".to_string()));
    assert_eq!(extract_path_from_uri("/plain/path"), Some("/plain/path".to_string()));
    assert_eq!(extract_path_from_uri("file:///"), None);
    assert_eq!(extract_path_from_uri(""), None);
    assert_eq!(extract_path_from_uri("/1:/x"), Some("/1:/x".to_string()));
}

#[test]
fn paths_score_by_file_name_first() {
    let terms = vec!["auth".to_string(), "api".to_string(), "zzz".to_string()];
    assert_eq!(score_path("src/API/Auth.rs", &terms), 40);
    assert_eq!(score_path("lib/auth_api.rs", &terms), 60);
    assert_eq!(score_path("auth/handlers/mod.rs", &terms), 10);
    assert_eq!(score_path("x.rs", &Vec::new()), 0);
}

#[test]
fn inline_output_is_capped_on_char_boundaries() {
    assert_eq!(force_inline_truncate("short".to_string(), 10), "short");
    let capped = force_inline_truncate("héllo".to_string(), 2);
    assert_eq!(capped, "h\n\n... ✂️ [TRUNCATED: 2/6 chars to prevent IDE spill]");
    let capped = force_inline_truncate("abcdef".to_string(), 3);
    assert!(capped.starts_with("abc\n\n"));
    assert!(capped.ends_with("[TRUNCATED: 3/6 chars to prevent IDE spill]"));
}

#[test]
fn tool_call_routing_pieces() {
    use_tool_call_routing();
}

fn use_tool_call_routing() {
    assert_eq!(cortex::server::negotiated_max_chars(None), 8000);
    assert_eq!(cortex::server::negotiated_max_chars(Some(0)), 8000);
    assert_eq!(cortex::server::negotiated_max_chars(Some(120)), 120);
    let r = cortex::server::tool_reply(Err("abcdef".to_string()), 3);
    assert!(r.is_error);
    assert!(r.text.starts_with("abc\n\n... "));
    assert!(r.text.contains("[TRUNCATED: 3/6 chars"));
    let ok = cortex::server::tool_reply(Ok("hi".to_string()), 3);
    assert!(!ok.is_error);
    assert_eq!(ok.text, "hi");
    assert_eq!(cortex::server::tool_not_found("x"), "Tool not found: x");
    assert_eq!(
        cortex::server::tool_alias("call_hierarchy"),
        Some(("cortex_symbol_analyzer".to_string(), "blast_radius".to_string()))
    );
    assert_eq!(
        cortex::server::tool_alias("map_repo"),
        Some(("cortex_code_explorer".to_string(), "map_overview".to_string()))
    );
    assert_eq!(cortex::server::tool_alias("cortex_chronos"), None);
    let plural = Some(vec![Some(" a ".to_string()), None, Some("  ".to_string()), Some("b".to_string())]);
    assert_eq!(cortex::server::string_list_arg(&plural, &Some("z".to_string())), vec!["a", "b"]);
    assert_eq!(cortex::server::string_list_arg(&None, &Some(" z ".to_string())), vec!["z"]);
    assert!(cortex::server::string_list_arg(&None, &Some(" ".to_string())).is_empty());
    let roots = vec!["/a".to_string(), "/b".to_string()];
    assert_eq!(cortex::server::effective_workspace_roots("/r", &roots, false), roots);
    assert_eq!(cortex::server::effective_workspace_roots("/r", &roots, true), vec!["/r"]);
    assert_eq!(cortex::server::effective_workspace_roots("/r", &vec![], false), vec!["/r"]);
}

#[test]
fn query_slice_limits_scope_and_ranking() {
    assert_eq!(cortex::server::query_limits(None, 30_000, 20), (20, 240));
    assert_eq!(cortex::server::query_limits(None, 1_000, 20), (8, 96));
    assert_eq!(cortex::server::query_limits(None, 1_000_000, 100), (60, 400));
    assert_eq!(cortex::server::query_limits(None, 1_000, 0), (1, 80));
    assert_eq!(cortex::server::query_limits(Some(3), 1_000, 20), (3, 80));
    let prefixes = vec!["src".to_string(), "[A]/lib".to_string()];
    assert!(cortex::server::in_scope("src", &prefixes));
    assert!(cortex::server::in_scope("src/a.rs", &prefixes));
    assert!(!cortex::server::in_scope("srcx/a.rs", &prefixes));
    assert!(cortex::server::in_scope("[A]/lib/x", &prefixes));
    let rels = vec!["docs/auth.md".to_string(), "src/auth.rs".to_string(), "src/auth/mod.rs".to_string(), "src/main.rs".to_string()];
    let sizes = vec![10, 500, 20, 5];
    let terms = vec!["auth".to_string()];
    let r = cortex::server::rank_candidates(&rels, &sizes, &terms, 3);
    assert_eq!(r, vec![0, 1, 2]);
    let r2 = cortex::server::rank_candidates(&rels, &sizes, &terms, 10);
    assert_eq!(r2, vec![0, 1, 2, 3]);
}

#[test]
fn missing_path_answers_list_sorted_entries() {
    let entries = vec!["src".to_string(), "Cargo.toml".to_string(), "README.md".to_string()];
    let m = cortex::server::missing_map_target("lib", "/r", &entries);
    assert_eq!(
        m,
        "Error: Path 'lib' does not exist in repo root '/r'.\nAvailable top-level entries in this repo: ['Cargo.toml', 'README.md', 'src'].\nPlease correct your target_dirs array (or pass repoPath explicitly).\nYou can operate on multiple workspace roots simultaneously. Provide arrays of target directories (e.g. target_dirs=['[ProjectA]','[ProjectB]']) to analyze cross-repo features."
    );
    let many: Vec<String> = (0..40).map(|i| format!("e{:02}", 39 - i)).collect();
    let m2 = cortex::server::missing_map_target("x", "/r", &many);
    assert!(m2.contains("['e00', 'e01'"));
    assert!(m2.contains("'e29']"));
    assert!(!m2.contains("e30"));
    let found = vec![
        ("Orchestrator.rs".to_string(), "src/Orchestrator.rs".to_string()),
        ("main.rs".to_string(), "src/main.rs".to_string()),
        ("orchestrator_test.rs".to_string(), "src/orchestrator_test.rs".to_string()),
    ];
    assert_eq!(
        cortex::server::slice_target_suggestions("ORCHESTRATOR", &found),
        vec!["src/Orchestrator.rs".to_string(), "src/orchestrator_test.rs".to_string()]
    );
    assert_eq!(cortex::server::sorted_first(&vec!["b".to_string(), "a".to_string()], 1), vec!["a".to_string()]);
}

#[test]
fn query_terms_are_lowercase_words_of_two_bytes() {
    assert_eq!(
        cortex::server::query_terms("  Auth\tTOKEN a é\u{3000}Refresh-Flow "),
        vec!["auth".to_string(), "token".to_string(), "é".to_string(), "refresh-flow".to_string()]
    );
    assert!(cortex::server::query_terms("   ").is_empty());
}
