use cortex::skeleton::{contains_todo_fixme, is_definition_line, render_universal_skeleton};

fn chars(s: &str) -> Vec<char> {
    s.chars().collect()
}

#[test]
fn definition_lines() {
    assert!(is_definition_line(&chars("  function foo() {")));
    assert!(is_definition_line(&chars("public static fn build(x)")));
    assert!(is_definition_line(&chars("staticfn x")));
    assert!(is_definition_line(&chars("\tfunc (r *T) Run()")) == false);
    assert!(is_definition_line(&chars("func Run()")));
    assert!(is_definition_line(&chars("x = 1 // todo later")));
    assert!(!is_definition_line(&chars("return value")));
    assert!(!is_definition_line(&chars("class")));
    assert!(contains_todo_fixme(&chars("a FixMe b")));
}

#[test]
fn skeleton_keeps_definitions_and_marks_gaps() {
    let src = "class A:\n    x = 1\n    y = 2\ndef f():\n    pass\ndef g():\n";
    assert_eq!(render_universal_skeleton(src), "class A:\n...\ndef f():\n...\ndef g():\n");
}

#[test]
fn skeleton_without_definitions_shows_the_head() {
    let src = "  a  \nb\n";
    assert_eq!(render_universal_skeleton(src), "/* TRUNCATED */\na\nb\n");
    let long = format!("{}\n", "x".repeat(2001));
    assert_eq!(render_universal_skeleton(&long), "/* MINIFIED_OR_GENERATED — skipped */\n");
}

fn span(name: &str, kind: &str, sig: Option<&str>, body: Option<&str>) -> cortex::skeleton::SymbolSpan {
    cortex::skeleton::SymbolSpan {
        name: name.to_string(),
        kind: kind.to_string(),
        signature: sig.map(str::to_string),
        body: body.map(str::to_string),
    }
}

#[test]
fn file_skeleton_tags_and_groups_symbols() {
    let syms = vec![
        span("run", "function", Some("  pub fn run()  "), Some("fn run() { todo!() }")),
        span("Config", "struct", None, None),
        span("MockStore", "class", Some("class MockStore"), None),
        span("x", "variable", None, None),
        span("helper", "method", Some("   "), Some("fn helper() {}")),
    ];
    let s = cortex::skeleton::file_skeleton("src/App.rs", &syms);
    assert_eq!(s.fns, vec!["pub fn run() <INCOMPLETE>".to_string(), "helper".to_string()]);
    assert_eq!(s.structs, vec!["Config".to_string(), "MockStore <MOCK>".to_string()]);
    let t = cortex::skeleton::file_skeleton("tests/Stubs.rs", &vec![span("f", "function", None, Some("pass"))]);
    assert_eq!(t.fns, vec!["f <INCOMPLETE,MOCK>".to_string()]);
    assert_eq!(cortex::skeleton::skeleton_max_files(None), 200);
    assert_eq!(cortex::skeleton::skeleton_max_files(Some(9000)), 500);
    assert_eq!(cortex::skeleton::skeleton_max_files(Some(3)), 3);
}

#[test]
fn project_skeleton_text_orders_files_and_caps_lines() {
    let fsk = |fns: &[&str], sts: &[&str]| cortex::skeleton::FileSkeleton {
        fns: fns.iter().map(|s| s.to_string()).collect(),
        structs: sts.iter().map(|s| s.to_string()).collect(),
    };
    let files = vec![
        ("src/b.rs".to_string(), fsk(&["fn b()"], &[])),
        ("src/a.rs".to_string(), fsk(&["fn a()", "fn a2()"], &["A"])),
        ("src/b.rs".to_string(), fsk(&[], &["B"])),
    ];
    assert_eq!(
        cortex::skeleton::project_skeleton_text("/r", &files, 200),
        "# Project Skeleton — `/r`\n# Files: 3  (cap: 200)\n\nsrc/a.rs:\n  fn: [fn a(), fn a2()]\n  struct: [A]\nsrc/b.rs:\n  struct: [B]\n"
    );
    assert_eq!(
        cortex::skeleton::project_skeleton_text("/r", &vec![], 200),
        "*No supported source files found in `/r`.*"
    );
    let many: Vec<(String, cortex::skeleton::FileSkeleton)> =
        (0..1500).map(|i| (format!("f{:04}.rs", i), fsk(&["fn x()"], &[]))).collect();
    let t = cortex::skeleton::project_skeleton_text("/r", &many, 500);
    assert!(t.ends_with("\n# ... (truncated at 2000 lines / 3003 total)"));
    assert_eq!(t.lines().count(), 2001);
}
