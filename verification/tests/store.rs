use cortex::store::{
    checkpoint_entries, checkpoint_keyword_filter, eq_filter, index_stats, parse_tags,
    plan_history_query, purge_excluded_filter, scope_filter, select_history, sort_rules_by_ts,
    sql_escape, AgentRule, CheckpointRow, HistoryRow,
};

fn row(id: &str, tags: &str, ts: &str) -> HistoryRow {
    HistoryRow {
        id: id.to_string(),
        session_id: "s".to_string(),
        project_path: "/p".to_string(),
        intent: "i".to_string(),
        decision: "d".to_string(),
        source_ide: "ide".to_string(),
        tags_json: tags.to_string(),
        ts: ts.to_string(),
        data: "{}".to_string(),
    }
}

#[test]
fn escape_doubles_quotes() {
    assert_eq!(sql_escape("O'Brien"), "O''Brien");
    assert_eq!(sql_escape("''"), "''''");
    assert_eq!(sql_escape("plain"), "plain");
}

#[test]
fn equality_predicate_quotes_value() {
    assert_eq!(eq_filter("id", "a'b"), "id = 'a''b'");
    assert_eq!(eq_filter("concept_key", "auth"), "concept_key = 'auth'");
}

#[test]
fn scope_predicate_lists_scopes() {
    let scopes = vec!["global".to_string(), "/path/it's".to_string()];
    assert_eq!(
        scope_filter(&scopes),
        Some("scope IN ('global', '/path/it''s')".to_string())
    );
    assert_eq!(scope_filter(&Vec::new()), None);
}

#[test]
fn keyword_history_plan() {
    let plan = plan_history_query("x", false, Some("/p"), Some("2024-01-01"), None, 0);
    assert_eq!(plan.limit, 10);
    assert_eq!(plan.fetch_limit, 40);
    assert_eq!(
        plan.predicate.as_deref(),
        Some(
            "project_path = '/p' AND ts >= '2024-01-01' AND (intent LIKE '%x%' OR decision LIKE '%x%' OR data LIKE '%x%')"
        )
    );
}

#[test]
fn vector_history_plan_has_no_keyword_predicate() {
    let plan = plan_history_query("x", true, None, None, Some("2025"), 3);
    assert_eq!(plan.limit, 3);
    assert_eq!(plan.fetch_limit, 12);
    assert_eq!(plan.predicate.as_deref(), Some("ts <= '2025'"));
    let plan = plan_history_query("", false, None, None, None, 5);
    assert_eq!(plan.predicate, None);
}

#[test]
fn checkpoint_keyword_predicate() {
    assert_eq!(
        checkpoint_keyword_filter("a'b"),
        "(concept_key LIKE '%a''b%' OR core_logic LIKE '%a''b%' OR tags LIKE '%a''b%')"
    );
}

#[test]
fn purge_predicate_lists_excluded_prefixes() {
    assert_eq!(
        purge_excluded_filter("/w"),
        "project_path = '/w' AND (file_path LIKE 'target/%' OR file_path LIKE 'node_modules/%' \
         OR file_path LIKE 'dist/%' OR file_path LIKE 'build/%' OR file_path LIKE 'out/%' \
         OR file_path LIKE '.git/%' OR file_path LIKE 'target\\%' OR file_path LIKE 'node_modules\\%' \
         OR file_path LIKE 'dist\\%' OR file_path LIKE 'build\\%' OR file_path LIKE 'out\\%' \
         OR file_path LIKE '.git\\%')"
    );
}

#[test]
fn tags_parse_or_default_to_none() {
    assert_eq!(parse_tags("[\"a\",\"b\"]"), vec!["a".to_string(), "b".to_string()]);
    assert!(parse_tags("not json").is_empty());
    assert!(parse_tags("").is_empty());
}

#[test]
fn history_selection_filters_limits_and_orders() {
    let rows = vec![
        row("1", "[\"x\"]", "2024-01-01"),
        row("2", "[\"y\"]", "2024-05-01"),
        row("3", "[\"x\",\"y\"]", "2024-03-01"),
        row("4", "broken", "2024-09-01"),
        row("5", "[\"x\"]", "2024-02-01"),
    ];
    let required = Some(vec!["x".to_string()]);
    let got = select_history(&rows, &required, 2);
    let ids: Vec<&str> = got.iter().map(|e| e.id.as_str()).collect();
    assert_eq!(ids, vec!["3", "1"]);
    assert_eq!(got[0].tags, vec!["x".to_string(), "y".to_string()]);

    let all = select_history(&rows, &None, 10);
    let ids: Vec<&str> = all.iter().map(|e| e.id.as_str()).collect();
    assert_eq!(ids, vec!["4", "2", "3", "5", "1"]);
    assert!(all[0].tags.is_empty());
}

#[test]
fn history_selection_keeps_order_of_equal_stamps() {
    let rows = vec![row("a", "[]", "t"), row("b", "[]", "t"), row("c", "[]", "u")];
    let got = select_history(&rows, &None, 10);
    let ids: Vec<&str> = got.iter().map(|e| e.id.as_str()).collect();
    assert_eq!(ids, vec!["c", "a", "b"]);
}

#[test]
fn rules_sorted_oldest_first() {
    let mk = |id: &str, ts: &str| AgentRule {
        id: id.to_string(),
        scope: "global".to_string(),
        rule: "r".to_string(),
        ts: ts.to_string(),
    };
    let rules = vec![mk("a", "3"), mk("b", "1"), mk("c", "2"), mk("d", "1")];
    let sorted = sort_rules_by_ts(&rules);
    let ids: Vec<&str> = sorted.iter().map(|r| r.id.as_str()).collect();
    assert_eq!(ids, vec!["b", "d", "c", "a"]);
}

#[test]
fn checkpoint_entries_default_to_three() {
    let rows: Vec<CheckpointRow> = (0..5)
        .map(|i| CheckpointRow {
            id: format!("{i}"),
            concept_key: "k".to_string(),
            core_logic: "c".to_string(),
            tags_json: "[\"t\"]".to_string(),
            ts: "0".to_string(),
        })
        .collect();
    let got = checkpoint_entries(&rows, 0);
    assert_eq!(got.len(), 3);
    assert_eq!(got[2].id, "2");
    assert_eq!(got[0].tags, vec!["t".to_string()]);
    assert_eq!(checkpoint_entries(&rows, 10).len(), 5);
}

#[test]
fn index_stats_count_symbols_and_distinct_files() {
    let pairs = |v: &[(&str, &str)]| -> Vec<(String, String)> {
        v.iter().map(|(a, b)| (a.to_string(), b.to_string())).collect()
    };
    let rows = pairs(&[
        ("/p2", "x.rs"),
        ("/p1", "a.rs"),
        ("/p1", "a.rs"),
        ("/p1", "b.rs"),
    ]);
    let stats = index_stats(&rows);
    assert_eq!(stats.len(), 2);
    assert_eq!(stats[0].project_path, "/p1");
    assert_eq!(stats[0].symbol_count, 3);
    assert_eq!(stats[0].file_count, 2);
    assert_eq!(stats[1].project_path, "/p2");
    assert_eq!(stats[1].symbol_count, 1);
    assert_eq!(stats[1].file_count, 1);
    assert!(index_stats(&Vec::new()).is_empty());
}
