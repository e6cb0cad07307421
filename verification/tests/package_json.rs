use cortex::package_json::{compact_package_json, member_name, npm_workspace_patterns, package_json_name};

#[test]
fn package_json_name_and_member_name() {
    assert_eq!(package_json_name("{\"name\": \"web-app\", \"version\": \"1\"}").as_deref(), Some("web-app"));
    assert_eq!(package_json_name("{\"name\": 3}"), None);
    assert_eq!(package_json_name("not json"), None);
    assert_eq!(member_name(Some("{\"name\": \"api\"}"), "dir"), "api");
    assert_eq!(member_name(Some("{}"), "dir"), "dir");
    assert_eq!(member_name(None, "dir"), "dir");
}

#[test]
fn npm_workspace_patterns_in_both_forms() {
    assert_eq!(
        npm_workspace_patterns("{\"workspaces\": [\"packages/*\", 3, \"apps/*\"]}"),
        vec!["packages/*".to_string(), "apps/*".to_string()]
    );
    assert_eq!(
        npm_workspace_patterns("{\"workspaces\": {\"packages\": [\"libs/**\"], \"nohoist\": []}}"),
        vec!["libs/**".to_string()]
    );
    assert!(npm_workspace_patterns("{\"workspaces\": {\"nohoist\": []}}").is_empty());
    assert!(npm_workspace_patterns("{\"workspaces\": \"x\"}").is_empty());
    assert!(npm_workspace_patterns("[").is_empty());
}

#[test]
fn compact_package_json_keeps_the_listed_fields() {
    let text = "{\"name\": \"a\", \"description\": \"long\", \"scripts\": {\"b\": \"c\"}, \"dependencies\": {}}";
    let c = compact_package_json(text).unwrap();
    let v: serde_json::Value = serde_json::from_str(&c).unwrap();
    let obj = v.as_object().unwrap();
    assert_eq!(obj.len(), 3);
    assert!(obj.contains_key("name") && obj.contains_key("scripts") && obj.contains_key("dependencies"));
    assert!(!obj.contains_key("description"));
    assert_eq!(compact_package_json("nope"), None);
}
