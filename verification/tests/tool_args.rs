use cortex::tool_args::{analyzer_failure, plan_analyzer_call, AnalyzerArgs, AnalyzerRequest};

fn args(action: &str) -> AnalyzerArgs {
    AnalyzerArgs {
        action: Some(action.to_string()),
        path: None,
        symbol_name: None,
        symbol_names: None,
        target_dir: None,
        changed_path: None,
        only_dir: None,
        aliases: None,
        instance_index: None,
        max_symbols: None,
        skeleton_only: None,
        ignore_gitignore: None,
    }
}

#[test]
fn search_actions_need_target_dir_then_symbol() {
    let e = plan_analyzer_call(&args("find_usages")).err().unwrap();
    assert_eq!(
        e,
        "Error: action 'find_usages' requires both 'symbol_name' and 'target_dir'. You omitted 'target_dir'. Use '.' to search the entire repo. Please call cortex_symbol_analyzer again with action='find_usages', symbol_name='<name>', and target_dir='.'."
    );
    let mut a = args(" blast_radius ");
    a.target_dir = Some(".".to_string());
    let e2 = plan_analyzer_call(&a).err().unwrap();
    assert!(e2.contains("You omitted 'symbol_name'"));
    a.symbol_name = Some("f".to_string());
    match plan_analyzer_call(&a) {
        Ok(AnalyzerRequest::BlastRadius { target_dir, symbol }) => assert_eq!((target_dir.as_str(), symbol.as_str()), (".", "f")),
        _ => panic!("expected blast radius"),
    }
}

#[test]
fn read_source_batches_and_single() {
    let mut a = args("read_source");
    assert!(plan_analyzer_call(&a).err().unwrap().contains("You omitted 'path'"));
    a.path = Some("src/a.rs".to_string());
    assert!(plan_analyzer_call(&a).err().unwrap().contains("You omitted 'symbol_name'"));
    a.symbol_names = Some(vec![Some(" ".to_string()), None]);
    assert!(plan_analyzer_call(&a).err().unwrap().contains("non-empty array"));
    a.symbol_names = Some(vec![Some(" A ".to_string()), None, Some("B".to_string())]);
    match plan_analyzer_call(&a) {
        Ok(AnalyzerRequest::ReadMany { names, skeleton_only, .. }) => {
            assert_eq!(names, vec![" A ".to_string(), "B".to_string()]);
            assert!(!skeleton_only);
        }
        _ => panic!("expected batch read"),
    }
    a.symbol_names = None;
    a.symbol_name = Some("main".to_string());
    a.instance_index = Some(2);
    match plan_analyzer_call(&a) {
        Ok(AnalyzerRequest::ReadOne { symbol, instance_index, .. }) => {
            assert_eq!(symbol, "main");
            assert_eq!(instance_index, Some(2));
        }
        _ => panic!("expected single read"),
    }
}

#[test]
fn propagation_checklist_modes_and_unknown_action() {
    let mut a = args("propagation_checklist");
    a.changed_path = Some("  api.proto ".to_string());
    match plan_analyzer_call(&a) {
        Ok(AnalyzerRequest::ChangedFile { changed_path, max_symbols }) => {
            assert_eq!((changed_path.as_str(), max_symbols), ("api.proto", 20))
        }
        _ => panic!("expected changed file"),
    }
    let mut b = args("propagation_checklist");
    assert!(plan_analyzer_call(&b).err().unwrap().contains("requires 'symbol_name'"));
    b.symbol_name = Some(" User ".to_string());
    b.target_dir = Some("svc".to_string());
    b.only_dir = Some("".to_string());
    b.aliases = Some(vec![Some(" UserDto ".to_string()), Some("".to_string())]);
    match plan_analyzer_call(&b) {
        Ok(AnalyzerRequest::Checklist { symbol, scan_dir, aliases, ignore_gitignore }) => {
            assert_eq!((symbol.as_str(), scan_dir.as_str()), ("User", "svc"));
            assert_eq!(aliases, vec!["UserDto".to_string()]);
            assert!(!ignore_gitignore);
        }
        _ => panic!("expected checklist"),
    }
    let e = plan_analyzer_call(&AnalyzerArgs { action: None, ..args("") }).err().unwrap();
    assert!(e.starts_with("Error: Invalid or missing 'action' for cortex_symbol_analyzer: received ''."));
    let req = AnalyzerRequest::BlastRadius { target_dir: ".".into(), symbol: "f".into() };
    assert_eq!(analyzer_failure(&req, "boom"), "call_hierarchy failed: boom");
}
