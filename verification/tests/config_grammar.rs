use cortex::config::{Config, HugeCodebaseConfig};
use cortex::grammar::{ensure_grammar_available, grammar_action_error, is_core_language, scm_path, wasm_path};
use cortex::scanner::ScanOptions;

#[test]
fn config_defaults() {
    let c = Config::default();
    assert_eq!(c.output_dir, ".cortexast");
    assert_eq!(c.token_estimator.chars_per_token, 4);
    assert_eq!(c.token_estimator.max_file_bytes, 524288);
    assert_eq!(c.active_languages, vec!["rust", "typescript", "python"]);
    let h = HugeCodebaseConfig::default();
    assert_eq!((h.enabled, h.file_count_threshold, h.min_member_budget, h.member_scan_depth), (false, 150, 4000, 3));
}

#[test]
fn grammar_paths_and_availability() {
    assert_eq!(wasm_path("/home/u/.cortex-works/grammars", "go"), "/home/u/.cortex-works/grammars/go.wasm");
    assert_eq!(scm_path("/g/", "php"), "/g/php_prune.scm");
    assert!(is_core_language("python"));
    assert!(!is_core_language("go"));
    assert!(ensure_grammar_available("rust", "/g/rust.wasm", false).is_ok());
    assert_eq!(
        ensure_grammar_available("go", "/g/go.wasm", false).unwrap_err(),
        "Grammar for 'go' is not available. Bundle the .wasm file at '/g/go.wasm' to enable this language."
    );
    assert!(ensure_grammar_available("go", "/g/go.wasm", true).is_ok());
    assert_eq!(grammar_action_error(" status "), None);
    assert!(grammar_action_error("add").unwrap().contains("not supported"));
    assert_eq!(grammar_action_error("x").unwrap(), "Invalid action 'x'. Must be 'status' or 'add'.");
}

#[test]
fn scan_target_root_joins_relative_targets() {
    let o = ScanOptions {
        repo_root: "/repo".to_string(),
        target: "src".to_string(),
        max_file_bytes: 1,
        exclude_dir_names: vec![],
        workspace_roots: vec![],
        extra_glob_excludes: vec![],
    };
    assert_eq!(o.target_root(), "/repo/src");
    let o2 = ScanOptions { target: "/abs".to_string(), ..o };
    assert_eq!(o2.target_root(), "/abs");
}
