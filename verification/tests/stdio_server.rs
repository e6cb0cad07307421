use cortex::server::{retain_in_scope, scoped_candidates};
use cortex::slicer::slice_content;
use cortex::mapper::{modules_from_manifests, ManifestEntry};
use cortex::mapper::module_tally;
use cortex::editor::find_block_end;
use cortex::json::{member, member_str};
use cortex::server::{bootstrap_root, tool_call_head, ReplyKind, ServerState};
use cortex::skeleton::{keeps_extension, skeleton_extensions, skeleton_max_files_of};

#[test]
fn initialize_takes_the_workspace_folders() {
    let mut st = ServerState::new(Some("/boot".to_string()));
    let line = r#"{"jsonrpc":"2.0","id":1,"method":"initialize","params":{"protocolVersion":"2025-03-26","workspaceFolders":[{"uri":"file:///home/u/proj/","name":" Main "},{"path":"/srv/other"}]}}"#;
    let r = st.answer_line(line).unwrap();
    assert_eq!(r.kind, ReplyKind::Initialize);
    assert_eq!(r.id, "1");
    assert_eq!(r.detail, "\"2025-03-26\"");
    assert_eq!(st.workspace_roots().to_vec(), vec!["/home/u/proj".to_string(), "/srv/other".to_string()]);
    assert_eq!(st.workspace_root_names().to_vec(), vec!["Main".to_string(), "other".to_string()]);
}

#[test]
fn initialize_falls_back_to_root_uri_and_default_version() {
    let mut st = ServerState::new(None);
    let r = st.answer_line(r#"{"id":2,"method":"initialize","params":{"rootUri":"file:///C:/work/"}}"#).unwrap();
    assert_eq!(r.detail, "\"2024-11-05\"");
    assert_eq!(st.workspace_roots().to_vec(), vec!["C:/work".to_string()]);
    assert_eq!(st.workspace_root_names().to_vec(), vec!["work".to_string()]);
}

#[test]
fn initialize_without_roots_keeps_the_bootstrap_root() {
    let mut st = ServerState::new(Some("/boot".to_string()));
    let r = st.answer_line(r#"{"id":3,"method":"initialize","params":{"workspaceFolders":[]}}"#).unwrap();
    assert_eq!(r.kind, ReplyKind::Initialize);
    assert_eq!(st.workspace_roots().to_vec(), vec!["/boot".to_string()]);
}

#[test]
fn notifications_and_garbage_get_no_answer() {
    let mut st = ServerState::new(None);
    assert!(st.answer_line(r#"{"jsonrpc":"2.0","method":"notifications/initialized"}"#).is_none());
    assert!(st.answer_line("not json").is_none());
    assert!(st.answer_line("").is_none());
    assert!(st.workspace_roots().is_empty());
}

#[test]
fn methods_are_answered_by_kind() {
    let mut st = ServerState::new(None);
    let r = st.answer_line(r#"{"id":"abc","method":"ping"}"#).unwrap();
    assert_eq!(r.kind, ReplyKind::Ping);
    assert_eq!(r.id, "\"abc\"");
    assert_eq!(st.answer_line(r#"{"id":4,"method":"tools/list"}"#).unwrap().kind, ReplyKind::ToolList);
    assert_eq!(st.answer_line(r#"{"id":5,"method":"resources/list"}"#).unwrap().kind, ReplyKind::ResourceList);
    assert_eq!(st.answer_line(r#"{"id":6,"method":"prompts/list"}"#).unwrap().kind, ReplyKind::PromptList);
    let r = st.answer_line(r#"{"id":null,"method":"foo/bar"}"#).unwrap();
    assert_eq!(r.kind, ReplyKind::MethodNotFound);
    assert_eq!(r.id, "null");
    assert_eq!(r.detail, "Method not found: foo/bar");
    let r = st.answer_line(r#"{"id":7}"#).unwrap();
    assert_eq!(r.detail, "Method not found: ");
}

#[test]
fn tool_calls_carry_their_parameters() {
    let mut st = ServerState::new(None);
    let r = st.answer_line(r#"{"id":8,"method":"tools/call"}"#).unwrap();
    assert_eq!(r.kind, ReplyKind::ToolCall);
    assert_eq!(r.detail, "{}");
    let r = st.answer_line(r#"{"id":9,"method":"tools/call","params":{"name":"x","arguments":{"max_chars":5}}}"#).unwrap();
    assert_eq!(r.detail, r#"{"arguments":{"max_chars":5},"name":"x"}"#);
    let head = tool_call_head(&r.detail);
    assert_eq!(head.name, "x");
    assert_eq!(head.arguments, r#"{"max_chars":5}"#);
    assert_eq!(head.max_chars, 5);
}

#[test]
fn tool_call_head_defaults() {
    let h = tool_call_head("{}");
    assert_eq!(h.name, "");
    assert_eq!(h.arguments, "{}");
    assert_eq!(h.max_chars, 8000);
    assert_eq!(tool_call_head(r#"{"arguments":{"max_chars":0}}"#).max_chars, 8000);
    assert_eq!(tool_call_head(r#"{"arguments":{"max_chars":"12"}}"#).max_chars, 8000);
    assert_eq!(tool_call_head(r#"{"arguments":{"max_chars":-3}}"#).max_chars, 8000);
}

#[test]
fn bootstrap_root_priority() {
    let none: Vec<Option<String>> = vec![None, None, None, None];
    assert_eq!(bootstrap_root(Some("/x".into()), &none, None, None, "/home/u"), Some("/x".to_string()));
    let explicit = vec![None, Some(" /a ".to_string()), Some("/b".to_string()), None];
    assert_eq!(bootstrap_root(None, &explicit, Some("/p".into()), None, "/home/u"), Some("/a".to_string()));
    assert_eq!(bootstrap_root(None, &none, Some("/home/u ".into()), Some("/i".into()), "/home/u"), Some("/i".to_string()));
    assert_eq!(bootstrap_root(None, &none, Some("/p".into()), Some("/i".into()), "/home/u"), Some("/p".to_string()));
    assert_eq!(bootstrap_root(None, &none, None, None, "/home/u"), None);
    let blank = vec![Some("  ".to_string()), None, None, None];
    assert_eq!(bootstrap_root(None, &blank, Some("/p".into()), None, "/home/u"), None);
}

#[test]
fn json_members_are_read_back() {
    assert_eq!(member(r#"{"a":{"b":[1,2]}}"#, "a"), Some(r#"{"b":[1,2]}"#.to_string()));
    assert_eq!(member(r#"{"a":1}"#, "b"), None);
    assert_eq!(member("[1]", "a"), None);
    assert_eq!(member_str(r#"{"a":"t\"x"}"#, "a"), Some("t\"x".to_string()));
    assert_eq!(member_str(r#"{"a":5}"#, "a"), None);
}

#[test]
fn block_end_of_braces_skips_literals() {
    assert_eq!(find_block_end("fn a() { let s = \"}\"; }\nrest"), 23);
    assert_eq!(find_block_end("fn x() {"), 8);
    assert_eq!(find_block_end("é {é}tail"), 7);
}

#[test]
fn block_end_of_indentation() {
    assert_eq!(find_block_end("def f():\n    a = 1\n\n    b = 2\n\nx = 3\n"), 30);
    assert_eq!(find_block_end("a\nb\nc\nd\ne {\n}"), 2);
    assert_eq!(find_block_end(""), 0);
    assert_eq!(find_block_end("def g():\n    pass"), 17);
}

#[test]
fn skeleton_extension_filter() {
    let f = skeleton_extensions(r#"{"extensions":[".RS","..Py",3,"ts"]}"#);
    assert_eq!(f, vec!["rs".to_string(), "py".to_string(), "ts".to_string()]);
    assert!(skeleton_extensions("{}").is_empty());
    let none: Vec<String> = Vec::new();
    assert!(keeps_extension(Some("RS"), &none));
    assert!(!keeps_extension(Some("md"), &none));
    assert!(!keeps_extension(None, &none));
    assert!(keeps_extension(Some("Py"), &f));
    assert!(!keeps_extension(Some("go"), &f));
    assert_eq!(skeleton_max_files_of(r#"{"max_files":900}"#), 500);
    assert_eq!(skeleton_max_files_of(r#"{"max_files":12}"#), 12);
    assert_eq!(skeleton_max_files_of("{}"), 200);
}

#[test]
fn module_tally_counts_files_in_their_nearest_module() {
    let roots = vec!["/r".to_string(), "/r/a".to_string(), "/r/b".to_string()];
    let anc = |v: &[&str]| v.iter().map(|s| s.to_string()).collect::<Vec<String>>();
    let files = vec![
        (anc(&["/r/a/src", "/r/a", "/r"]), 10u64),
        (anc(&["/r/a", "/r"]), 5),
        (anc(&["/r/c", "/r"]), 7),
        (anc(&["/r/b"]), 1),
        (anc(&["/elsewhere"]), 2),
    ];
    assert_eq!(module_tally(&roots, &files), vec![(2, 9), (2, 15), (1, 1)]);
}

fn entry(dir_abs: &str, dir_rel: &str, manifest: &str, text: Option<&str>) -> ManifestEntry {
    ManifestEntry {
        dir_abs: dir_abs.to_string(),
        dir_rel: dir_rel.to_string(),
        manifest: manifest.to_string(),
        text: text.map(|t| t.to_string()),
        cargo_lib: None,
        cargo_package: None,
    }
}

#[test]
fn manifests_give_sorted_deduplicated_modules() {
    let entries = vec![
        entry("/r/web", "web", "package.json", Some(r#"{"name":"@acme/web"}"#)),
        entry("/r/app", "app", "pubspec.yaml", Some("name: mobile\n")),
        entry("/r/web", "web", "go.mod", Some("module x\n")),
        entry("/r/node_modules/x", "node_modules/x", "package.json", None),
        entry("/r/svc", "svc", "go.mod", Some("module github.com/acme/svc\n")),
        entry("/r/misc", "misc", "README.md", None),
        entry("/r", "", "Cargo.toml", None),
    ];
    let ms = modules_from_manifests(&entries);
    let ids: Vec<&str> = ms.iter().map(|m| m.id.as_str()).collect();
    assert_eq!(ids, vec![".", "app", "svc", "web"]);
    let labels: Vec<&str> = ms.iter().map(|m| m.label.as_str()).collect();
    assert_eq!(labels, vec!["r", "mobile", "svc", "@acme/web"]);
}

#[test]
fn slice_content_by_kind() {
    let pkg = slice_content("web/package.json", r#"{"name":"a","extra":1,"scripts":{"b":"c"}}"#.to_string(), false, false, None, None);
    assert_eq!(pkg, "{\n  \"name\": \"a\",\n  \"scripts\": {\n    \"b\": \"c\"\n  }\n}");
    assert_eq!(slice_content("web/package.json", "not json".to_string(), false, false, None, None), "not json");
    assert_eq!(slice_content("Cargo.TOML", "x".to_string(), true, false, None, Some("C".to_string())), "C");
    assert_eq!(slice_content("Cargo.toml", "x".to_string(), true, false, None, None), "x");
    assert_eq!(slice_content("src/a.rs", "fn a() {}".to_string(), false, true, Some("SK".to_string()), None), "SK");
    assert_eq!(slice_content("src/a.rs", "fn a() {}".to_string(), false, false, Some("SK".to_string()), None), "fn a() {}");
}

#[test]
fn query_scope_filters() {
    let rels = vec!["api/a.rs".to_string(), "apix/b.rs".to_string(), "api".to_string(), "web/c.ts".to_string()];
    let none: Vec<String> = Vec::new();
    assert_eq!(scoped_candidates(&rels, &none), vec![0, 1, 2, 3]);
    let api = vec!["api".to_string()];
    assert_eq!(scoped_candidates(&rels, &api), vec![0, 2]);
    assert_eq!(retain_in_scope(&rels, &api), vec!["api/a.rs".to_string(), "api".to_string()]);
    assert_eq!(retain_in_scope(&rels, &none), rels);
}
