use cortex::act::{fire_index_modified, fire_tombstone, patch_env_text, patched_env_message, ShellExecParams};
use cortex::batch::{execute_batch_with, summarize_output, BatchOp, DEFAULT_MAX_OUTPUT_CHARS};
use cortex::pathing::{
    alias_for_workspace_root, primary_root, resolve_path, resolve_path_from_root, resolve_path_string,
    resolve_prefixed_path, set_workspace_aliases, WorkspaceAliases,
};

#[test]
fn nested_batch_respects_fail_fast() {
    let summary = execute_batch_with(
        vec![
            BatchOp {
                tool_name: "cortex_act_batch_execute".to_string(),
                parameters: serde_json::Value::Object(serde_json::Map::new()),
            },
            BatchOp {
                tool_name: "cortex_search_exact".to_string(),
                parameters: serde_json::Value::Object(serde_json::Map::new()),
            },
        ],
        true,
        DEFAULT_MAX_OUTPUT_CHARS,
        |_: &str, _: &serde_json::Value| Ok("should not run".to_string()),
    );

    assert_eq!(summary.total, 2);
    assert_eq!(summary.passed, 0);
    assert_eq!(summary.failed, 1);
    assert_eq!(summary.skipped, 1);
    assert_eq!(summary.results.len(), 1);
    assert_eq!(summary.results[0].output, "Nested cortex_act_batch_execute is not allowed");
}

#[test]
fn truncation_preserves_raw_char_count() {
    let summary = execute_batch_with(
        vec![BatchOp {
            tool_name: "cortex_search_exact".to_string(),
            parameters: serde_json::Value::Object(serde_json::Map::new()),
        }],
        false,
        16,
        |_: &str, _: &serde_json::Value| Ok("abcdefghijklmnopqrstuvwxyz".to_string()),
    );

    assert_eq!(summary.results.len(), 1);
    assert!(summary.results[0].truncated);
    assert_eq!(summary.results[0].output_chars, 26);
    assert!(summary.results[0].output.ends_with("call this tool individually for full output]"));
}

#[test]
fn batch_counts_add_up_without_fail_fast() {
    let ops = vec![
        BatchOp { tool_name: "a".to_string(), parameters: 1u32 },
        BatchOp { tool_name: "cortex_act_batch_execute".to_string(), parameters: 2 },
        BatchOp { tool_name: "c".to_string(), parameters: 3 },
    ];
    let summary = execute_batch_with(ops, false, 100, |name: &str, p: &u32| {
        if *p == 3 { Err(format!("{} failed", name)) } else { Ok("ok".to_string()) }
    });
    assert_eq!((summary.total, summary.passed, summary.failed, summary.skipped), (3, 1, 2, 0));
    assert_eq!(summary.results[2].output, "c failed");
    assert_eq!(summary.results[2].index, 2);
}

#[test]
fn output_summaries_keep_or_cut() {
    let (out, cut, n) = summarize_output("héllo".to_string(), 5);
    assert_eq!((out.as_str(), cut, n), ("héllo", false, 5));
    let (out, cut, n) = summarize_output("x".repeat(100), 70);
    assert!(cut);
    assert_eq!(n, 100);
    assert_eq!(out.chars().count(), 70);
    assert!(out.starts_with("xxxxxxxxx... [truncated"));
    let (out, _, _) = summarize_output("abc".to_string(), 0);
    assert_eq!(out, "... [truncated — call this tool individually for full output]");
}

#[test]
fn prefixed_paths_resolve_against_workspace_roots() {
    let mut aliases = WorkspaceAliases::new();
    let roots = vec!["/w/fixture-root".to_string(), "/w/other".to_string()];
    set_workspace_aliases(&mut aliases, &roots, &["ProjectA".to_string(), "  ".to_string()]);
    assert_eq!(resolve_path(&aliases, &roots, "[ProjectA]/src/lib.rs", None), "/w/fixture-root/src/lib.rs");
    assert_eq!(resolve_path(&aliases, &roots, "[fixture-root]/src/lib.rs", None), "/w/fixture-root/src/lib.rs");
    assert_eq!(resolve_path(&aliases, &roots, "[other]", None), "/w/other");
    assert_eq!(resolve_path(&aliases, &roots, "[Nope]/x", None), "/w/fixture-root/[Nope]/x");
    assert_eq!(resolve_path(&aliases, &roots, "/abs/p", None), "/abs/p");
    assert_eq!(resolve_prefixed_path(&aliases, "src", &roots, None), "/w/fixture-root/src");
    assert_eq!(resolve_path_string(&aliases, &[], "a", Some("/cwd")), "/cwd/a");
    assert_eq!(resolve_path_from_root(&aliases, "/r/", &roots, "b"), "/r/b");
    assert_eq!(alias_for_workspace_root(&aliases, "/w/other"), "other");
    assert_eq!(alias_for_workspace_root(&aliases, "/"), "root");
    assert_eq!(primary_root(&[], None), ".");
}

#[test]
fn env_files_are_patched_line_by_line() {
    let raw = "FOO=bar\n  BAZ=123  \n# comment";
    assert_eq!(patch_env_text(raw, "set", "FOO", Some("baz")).unwrap(), "FOO=baz\n  BAZ=123  \n# comment\n");
    assert_eq!(patch_env_text(raw, "delete", "BAZ", None).unwrap(), "FOO=bar\n# comment\n");
    assert_eq!(
        patch_env_text(raw, "set", "NEW_KEY", Some("hello")).unwrap(),
        "FOO=bar\n  BAZ=123  \n# comment\nNEW_KEY=hello\n"
    );
    assert_eq!(patch_env_text("", "delete", "X", None).unwrap(), "\n");
    assert_eq!(patch_env_text(raw, "set", "FOO", None).unwrap_err(), "'value' required for 'set' action");
    assert!(patch_env_text(raw, "set", "FOO", Some("a\nb")).unwrap_err().starts_with("Value for key 'FOO' contains newline"));
    assert_eq!(patch_env_text(raw, "merge", "FOO", None).unwrap_err(), "Unknown action: merge");
    assert_eq!(patched_env_message(".env", "FOO"), "✅ Patched .env '.env' for key 'FOO'");
}

#[test]
fn index_hooks_are_no_ops_and_params_default_empty() {
    fire_tombstone("p".to_string(), "f".to_string());
    fire_index_modified("p".to_string(), "f".to_string());
    let p = ShellExecParams::default();
    assert!(p.command.is_none() && p.timeout_secs.is_none());
}

#[test]
fn sql_statements_end_at_top_level_semicolons() {
    let s = "CREATE TABLE t (a INT, b TEXT DEFAULT ';'); SELECT 1;";
    assert_eq!(cortex::act::find_sql_statement_end(s, 0), 43);
    assert_eq!(&s[..43], "CREATE TABLE t (a INT, b TEXT DEFAULT ';');");
    assert_eq!(cortex::act::find_sql_statement_end(s, 43), s.len());
    let q = "INSERT INTO \"we;ird\" VALUES ('é;x', (1;2)); tail";
    let end = cortex::act::find_sql_statement_end(q, 0);
    assert_eq!(&q[..end], "INSERT INTO \"we;ird\" VALUES ('é;x', (1;2));");
    assert_eq!(cortex::act::find_sql_statement_end("no end", 0), 6);
    assert_eq!(cortex::act::find_sql_statement_end("x;", 10), 2);
}

#[test]
fn test_patch_env() {
    let mut text = "FOO=bar\n  BAZ=123  \n# comment".to_string();
    text = patch_env_text(&text, "set", "FOO", Some("baz")).unwrap();
    assert!(text.contains("FOO=baz"));
    text = patch_env_text(&text, "delete", "BAZ", None).unwrap();
    assert!(!text.contains("BAZ="));
    text = patch_env_text(&text, "set", "NEW_KEY", Some("hello")).unwrap();
    assert!(text.contains("NEW_KEY=hello"));
}

#[test]
fn resolves_prefixed_paths_against_workspace_root_names() {
    let root = "/tmp/work/fixture-root".to_string();
    let nested = format!("{root}/src");
    let mut aliases = WorkspaceAliases::new();
    set_workspace_aliases(&mut aliases, &[root.clone()], &["ProjectA".to_string()]);
    let aliased = resolve_path(&aliases, &[root.clone()], "[ProjectA]/src/lib.rs", None);
    assert_eq!(aliased, format!("{nested}/lib.rs"));
    let resolved = resolve_path(&aliases, &[root.clone()], "[fixture-root]/src/lib.rs", None);
    assert_eq!(resolved, format!("{nested}/lib.rs"));
    let windows_style = resolve_path(&aliases, &[root.clone()], r#"[ProjectA]\src\lib.rs"#, None);
    assert_eq!(windows_style, format!("{nested}/lib.rs"));
}

#[test]
fn aliases_match_roots_as_paths() {
    let mut aliases = WorkspaceAliases::new();
    set_workspace_aliases(&mut aliases, &["/w/a".to_string()], &["Alpha".to_string()]);
    assert_eq!(cortex::pathing::alias_for_workspace_root(&aliases, "/w/a/"), "Alpha");
    assert_eq!(cortex::pathing::alias_for_workspace_root(&aliases, "/w/./a"), "Alpha");
    assert_eq!(cortex::pathing::alias_for_workspace_root(&aliases, "/w/ab"), "ab");
    let roots = vec!["/w/a/".to_string()];
    assert_eq!(resolve_prefixed_path(&aliases, "[Alpha]/x.rs", &roots, None), "/w/a/x.rs");
}
