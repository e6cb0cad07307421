use cortex::dispatch::{
    act_tool, ast_edits, data_edits, diagnostics_command, markup_edits, shell_timeout, sql_edits,
    z4_refusal, ActTool, EditFields, ProjectFiles,
};

fn item(target: Option<&str>, action: Option<&str>, code: Option<&str>, content: Option<&str>) -> EditFields {
    EditFields {
        target: target.map(str::to_string),
        action: action.map(str::to_string),
        code: code.map(str::to_string),
        content: content.map(str::to_string),
        value: None,
    }
}

#[test]
fn tool_names_route_to_tools() {
    assert_eq!(act_tool("cortex_act_edit_markup"), Ok(ActTool::EditMarkup));
    assert_eq!(act_tool("cortex_fs_manage"), Ok(ActTool::FsManage));
    let err = act_tool("nope").unwrap_err();
    assert!(err.starts_with("Unknown tool: 'nope'. Available: cortex_act_edit_ast,"));
}

#[test]
fn markup_and_sql_refuse_z4_files() {
    assert!(z4_refusal(ActTool::EditMarkup, true).unwrap().contains("disabled when z4=true"));
    assert!(z4_refusal(ActTool::SqlSurgery, true).unwrap().contains("disabled when z4=true"));
    assert_eq!(z4_refusal(ActTool::EditMarkup, false), None);
    assert_eq!(z4_refusal(ActTool::EditAst, true), None);
}

#[test]
fn edit_items_take_defaults_and_refusals() {
    let es = ast_edits(&vec![item(Some("fn:a"), None, None, None)]).unwrap();
    assert_eq!((es[0].target.as_str(), es[0].action.as_str(), es[0].code.as_str()), ("fn:a", "replace", ""));
    assert_eq!(
        sql_edits(&vec![item(Some("t"), Some("delete"), None, Some("x")), item(None, None, None, None)]).unwrap_err(),
        "Each edit must have a 'target'"
    );
    let m = markup_edits(&vec![item(Some("h:A"), Some("insert_after"), None, Some("text"))]).unwrap();
    assert_eq!(m[0].code, "text");
    let e = markup_edits(&vec![item(Some("h:A"), None, None, None)]).unwrap_err();
    assert_eq!(
        e,
        "Action 'replace' on target 'h:A' requires non-empty 'code' (replacement content). Use the 'code' field (not 'content') for replacement text."
    );
    assert!(markup_edits(&vec![item(Some("h:A"), Some("delete"), None, None)]).is_ok());
    let d = data_edits(&vec![EditFields { value: Some("1".into()), ..item(Some("$.a"), None, None, None) }]).unwrap();
    assert_eq!((d[0].action.as_str(), d[0].value.as_deref()), ("set", Some("1")));
    assert!(data_edits(&vec![item(Some(""), None, None, None)]).is_err());
}

#[test]
fn diagnostics_commands_by_manifest() {
    let none = ProjectFiles {
        cargo_toml: false,
        package_json: false,
        go_mod: false,
        pom_xml: false,
        mvnw: false,
        build_gradle: false,
        build_gradle_kts: false,
        gradlew: false,
    };
    assert_eq!(diagnostics_command("/p", ProjectFiles { cargo_toml: true, package_json: true, ..none }).unwrap(), "cargo check 2>&1");
    assert_eq!(diagnostics_command("/p", ProjectFiles { pom_xml: true, mvnw: true, ..none }).unwrap(), "./mvnw compile -q 2>&1");
    assert_eq!(diagnostics_command("/p", ProjectFiles { build_gradle_kts: true, ..none }).unwrap(), "gradle assemble -q 2>&1");
    assert_eq!(
        diagnostics_command("/p", none).unwrap_err(),
        "No supported manifest found in '/p'. run_diagnostics supports: Cargo.toml, package.json, go.mod, pom.xml, build.gradle."
    );
    assert_eq!(shell_timeout(true, None), 60);
    assert_eq!(shell_timeout(false, None), 30);
    assert_eq!(shell_timeout(false, Some(5)), 5);
}
