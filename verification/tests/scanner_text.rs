use cortex::scanner::{default_override_globs, strip_jsonc_comments};

#[test]
fn jsonc_line_comments_are_removed() {
    let src = "{\n  // settings\n  \"a\": 1, // trailing\n  \"b\": \"http://x\"\n}";
    assert_eq!(strip_jsonc_comments(src), "{\n  \n  \"a\": 1, \n  \"b\": \"http://x\"\n}");
}

#[test]
fn jsonc_escaped_quotes_keep_strings_open() {
    let src = "{\"k\": \"say \\\"//hi\\\"\"} // end";
    assert_eq!(strip_jsonc_comments(src), "{\"k\": \"say \\\"//hi\\\"\"} ");
    assert_eq!(strip_jsonc_comments("a / b"), "a / b");
}

#[test]
fn jsonc_stripping_twice_changes_nothing() {
    let src = "x ///y\n\"//\" z // w";
    let once = strip_jsonc_comments(src);
    assert_eq!(strip_jsonc_comments(&once), once);
}

#[test]
fn scan_exclusions_in_order() {
    let dirs = vec![" /generated/ ".to_string(), "  ".to_string(), "docs".to_string()];
    let extra = vec!["  !**/secret.txt ".to_string(), "".to_string()];
    let globs = default_override_globs(&dirs, &extra);
    assert_eq!(globs.len(), 25 + 2 * 42 + 4 + 1);
    assert_eq!(globs[0], "!**/*.lock");
    assert_eq!(globs[24], "!**/*.min.css");
    assert_eq!(globs[25], "!**/.git");
    assert_eq!(globs[26], "!**/.git/**");
    assert_eq!(globs[27], "!**/node_modules");
    assert_eq!(globs[108], "!**/.cache/**");
    assert_eq!(globs[109], "!**/generated");
    assert_eq!(globs[110], "!**/generated/**");
    assert_eq!(globs[111], "!**/docs");
    assert_eq!(globs[113], "!**/secret.txt");
}

#[test]
fn code_workspace_excludes_take_true_globs_of_both_sections() {
    let text = "{ // workspace\n  \"folders\": [],\n  \"settings\": {\n    \"files.exclude\": { \"**/b\": true, \"**/a\": true, \"x\": false, \"w\": { \"when\": \"y\" } },\n    \"search.exclude\": { \"dist\": true } // build output\n  }\n}\n";
    assert_eq!(
        cortex::scanner::code_workspace_excludes(text),
        vec!["!**/a".to_string(), "!**/b".to_string(), "!dist".to_string()]
    );
    assert!(cortex::scanner::code_workspace_excludes("{ not json").is_empty());
    assert!(cortex::scanner::code_workspace_excludes("{\"folders\": []}").is_empty());
    assert_eq!(
        cortex::scanner::code_workspace_excludes("{\"settings\": {\"search.exclude\": {\"t\": true}}}"),
        vec!["!t".to_string()]
    );
}
