use cortex::atomic::{
    allow_machine_string, build_commit_message, lint_z4_source, normalize_summary,
    sync_commit_message,
};

#[test]
fn human_surface_lint_rejects_spaces_inside_quotes() {
    let err = lint_z4_source("sample.z4", "@a: DATA DOC:\"hello world\"\n")
        .expect_err("human string must be rejected");
    assert!(err.to_string().contains("human-readable quoted string"));
}

#[test]
fn machine_strings_pass_lint() {
    lint_z4_source(
        "sample.z4",
        "@a: DATA DOC:\"0x41444400\"\n@b: MOVE IA:%rax IB:0x10\n",
    )
    .expect("machine surface should pass");
}

#[test]
fn commit_message_is_hex_scoped() {
    assert_eq!(
        build_commit_message("0x16ab1d44", "sync parser map"),
        "[Z4_0x16ab1d44] sync parser map"
    );
}

#[test]
fn lint_reports_comment_surface_and_the_offending_string() {
    assert_eq!(
        lint_z4_source("a.z4", "@a: RET # done\n").unwrap_err(),
        "Refusing atomic sync for 'a.z4': '#' comment surface detected"
    );
    assert_eq!(
        lint_z4_source("a.z4", "@a: DATA DOC:\"ok_1\" X:\"two words\"\n").unwrap_err(),
        "Refusing atomic sync for 'a.z4': human-readable quoted string detected (two words)"
    );
    assert!(lint_z4_source("a.z4", "\"unterminated").is_ok());
}

#[test]
fn machine_string_rules() {
    assert!(allow_machine_string("0xA0\\0\\0"));
    assert!(!allow_machine_string("0xZZ"));
    assert!(allow_machine_string("%rax@b:1/2.3-_"));
    assert!(!allow_machine_string("a b"));
    assert!(!allow_machine_string("a!"));
}

#[test]
fn summaries_are_collapsed_and_checked() {
    assert_eq!(normalize_summary("  sync \t parser\nmap  ").unwrap(), "sync parser map");
    assert_eq!(normalize_summary(" \n ").unwrap_err(), "'summary' must not be empty");
    assert_eq!(
        normalize_summary("caf\u{e9}").unwrap_err(),
        "'summary' must be ASCII-only for z4 atomic commits"
    );
    assert_eq!(
        sync_commit_message(Some("0x1f"), Some(" fix  map ")).unwrap(),
        "[Z4_0x1f] fix map"
    );
    assert_eq!(
        sync_commit_message(Some("1f"), Some("x")).unwrap_err(),
        "'phase_id' must match 0x[0-9A-Fa-f]+"
    );
    assert_eq!(
        sync_commit_message(None, Some("x")).unwrap_err(),
        "'phase_id' required (example: 0x16ab1d44)"
    );
    assert_eq!(sync_commit_message(Some("0x1"), None).unwrap_err(), "'summary' required");
}
