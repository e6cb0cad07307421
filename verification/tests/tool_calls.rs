use cortex::tool_args::{plan_explorer_call, ExplorerRequest};
use cortex::server::tool_reply;
use cortex::tool_args::{analyzer_args, chronos_failure, plan_analyzer_call, plan_chronos_call, AnalyzerRequest, ChronosRequest};

#[test]
fn default_cap_keeps_replies_within_reach() {
    let long = "a".repeat(9000);
    let r = tool_reply(Ok(long), 8000);
    assert!(r.text.len() <= 8000 + 250);
    assert!(r.text.contains("✂️"));
    assert!(r.text.ends_with("[TRUNCATED: 8000/9000 chars to prevent IDE spill]"));
    let short = tool_reply(Ok("fits".to_string()), 8000);
    assert_eq!(short.text, "fits");
    assert!(!short.is_error);
}

#[test]
fn analyzer_arguments_are_read_from_json() {
    let a = analyzer_args(r#"{"action":"read_source","path":"src/a.rs","symbol_names":["x"," ",3],"instance_index":2,"skeleton_only":true}"#);
    assert_eq!(a.action.as_deref(), Some("read_source"));
    assert_eq!(a.path.as_deref(), Some("src/a.rs"));
    assert_eq!(a.symbol_names, Some(vec![Some("x".to_string()), Some(" ".to_string()), None]));
    assert_eq!(a.instance_index, Some(2));
    assert_eq!(a.skeleton_only, Some(true));
    assert_eq!(a.ignore_gitignore, None);
    match plan_analyzer_call(&a) {
        Ok(AnalyzerRequest::ReadMany { path, names, skeleton_only }) => {
            assert_eq!(path, "src/a.rs");
            assert_eq!(names, vec!["x".to_string()]);
            assert!(skeleton_only);
        }
        _ => panic!("expected a batch read"),
    }
    let b = analyzer_args(r#"{"action":"find_usages","symbol_name":"f"}"#);
    let e = plan_analyzer_call(&b).err().unwrap();
    assert!(e.contains("You omitted 'target_dir'"));
}

#[test]
fn chronos_save_needs_path_then_symbol() {
    let e = plan_chronos_call(r#"{"action":"save_checkpoint"}"#).err().unwrap();
    assert!(e.contains("You omitted 'path'"));
    let e = plan_chronos_call(r#"{"action":"save_checkpoint","path":"a.rs"}"#).err().unwrap();
    assert!(e.contains("You omitted 'symbol_name'"));
    match plan_chronos_call(r#"{"action":" save_checkpoint ","path":"a.rs","symbol_name":"f","tag":"pre"}"#) {
        Ok(ChronosRequest::Save { path, symbol, tag, namespace }) => {
            assert_eq!((path.as_str(), symbol.as_str(), tag.as_str()), ("a.rs", "f", "pre"));
            assert_eq!(namespace, None);
        }
        _ => panic!("expected a save"),
    }
}

#[test]
fn chronos_compare_and_live_tag() {
    let e = plan_chronos_call(r#"{"action":"compare_checkpoint","symbol_name":"f","tag_a":"x"}"#).err().unwrap();
    assert!(e.contains("You omitted 'tag_b'"));
    let e = plan_chronos_call(r#"{"action":"compare_checkpoint","symbol_name":"f","tag_a":"x","tag_b":" __live__"}"#).err().unwrap();
    assert!(e.starts_with("Error: tag_b='__live__' requires 'path'"));
    assert!(matches!(
        plan_chronos_call(r#"{"action":"compare_checkpoint","symbol_name":"f","tag_a":"x","tag_b":"__live__","path":"a.rs"}"#),
        Ok(ChronosRequest::Compare { .. })
    ));
}

#[test]
fn chronos_delete_needs_a_filter() {
    let e = plan_chronos_call(r#"{"action":"delete_checkpoint","symbol_name":"  ","namespace":" "}"#).err().unwrap();
    assert!(e.starts_with("Error: action 'delete_checkpoint' requires at least one filter"));
    match plan_chronos_call(r#"{"action":"delete_checkpoint","namespace":"qa"}"#) {
        Ok(ChronosRequest::Delete { symbol, tag, path, namespace }) => {
            assert_eq!((symbol, tag, path), (None, None, None));
            assert_eq!(namespace.as_deref(), Some("qa"));
        }
        _ => panic!("expected a delete"),
    }
    match plan_chronos_call(r#"{"action":"delete_checkpoint","semantic_tag":" t "}"#) {
        Ok(ChronosRequest::Delete { tag, .. }) => assert_eq!(tag.as_deref(), Some("t")),
        _ => panic!("expected a delete"),
    }
}

#[test]
fn chronos_unknown_action_and_failures() {
    let e = plan_chronos_call("{}").err().unwrap();
    assert!(e.starts_with("Error: Invalid or missing 'action' for cortex_chronos: received ''."));
    assert!(matches!(plan_chronos_call(r#"{"action":"list_checkpoints"}"#), Ok(ChronosRequest::List { namespace: None })));
    let req = plan_chronos_call(r#"{"action":"compare_checkpoint","symbol_name":"f","tag_a":"x","tag_b":"y"}"#).ok().unwrap();
    let m = chronos_failure(&req, "No checkpoint found for f");
    assert!(m.starts_with("compare_symbol failed: No checkpoint found for f\n\nTip: run cortex_chronos"));
    assert_eq!(chronos_failure(&req, "disk"), "compare_symbol failed: disk");
    let list = plan_chronos_call(r#"{"action":"list_checkpoints"}"#).ok().unwrap();
    assert_eq!(chronos_failure(&list, "io"), "list_checkpoints failed: io");
}


#[test]
fn explorer_map_overview_needs_targets() {
    let e = plan_explorer_call(r#"{"action":"map_overview","target_dirs":[" ",2]}"#).err().unwrap();
    assert!(e.starts_with("Error: action 'map_overview' requires 'target_dirs'"));
    match plan_explorer_call(r#"{"action":"map_overview","target_dir":" src ","search_filter":"  ","ignore_gitignore":true,"exclude":["a",1]}"#) {
        Ok(ExplorerRequest::MapOverview { target_dirs, search_filter, ignore_gitignore, exclude }) => {
            assert_eq!(target_dirs, vec!["src".to_string()]);
            assert_eq!(search_filter, None);
            assert!(ignore_gitignore);
            assert_eq!(exclude, vec!["a".to_string()]);
        }
        _ => panic!("expected a map"),
    }
}

#[test]
fn explorer_deep_slice_defaults() {
    let e = plan_explorer_call(r#"{"action":"deep_slice"}"#).err().unwrap();
    assert!(e.starts_with("Error: action 'deep_slice' requires the 'target' parameter"));
    match plan_explorer_call(r#"{"action":"deep_slice","target":"src","query":"auth","single_file":true,"only_dirs":["a"," b "]}"#) {
        Ok(ExplorerRequest::DeepSlice { target, budget_tokens, single_file, only_dirs, query, .. }) => {
            assert_eq!(target, "src");
            assert_eq!(budget_tokens, 32000);
            assert!(single_file);
            assert_eq!(only_dirs, vec!["a".to_string(), "b".to_string()]);
            assert_eq!(query, None);
        }
        _ => panic!("expected a slice"),
    }
    match plan_explorer_call(r#"{"action":"deep_slice","target":"src","query":"auth","budget_tokens":900,"query_limit":4}"#) {
        Ok(ExplorerRequest::DeepSlice { budget_tokens, query, query_limit, .. }) => {
            assert_eq!(budget_tokens, 900);
            assert_eq!(query.as_deref(), Some("auth"));
            assert_eq!(query_limit, Some(4));
        }
        _ => panic!("expected a slice"),
    }
}

#[test]
fn explorer_other_actions() {
    assert!(matches!(plan_explorer_call(r#"{"action":"workspace_topology"}"#), Ok(ExplorerRequest::Topology)));
    match plan_explorer_call(r#"{"action":"skeleton"}"#) {
        Ok(ExplorerRequest::Skeleton { target_dirs }) => assert!(target_dirs.is_empty()),
        _ => panic!("expected a skeleton"),
    }
    let e = plan_explorer_call(r#"{"action":"nope"}"#).err().unwrap();
    assert!(e.starts_with("Error: Invalid or missing 'action' for cortex_code_explorer: received 'nope'."));
}
