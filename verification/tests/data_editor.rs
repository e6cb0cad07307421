use cortex::data_edit::{coerce_json_value, is_float_literal_exec, parse_path};

#[test]
fn plain_string_gets_quoted() {
    assert_eq!(coerce_json_value("Hacked by Cortex"), r#""Hacked by Cortex""#);
}

#[test]
fn string_with_quotes_is_escaped() {
    assert_eq!(coerce_json_value(r#"say "hello""#), r#""say \"hello\"""#);
}

#[test]
fn json_literals_pass_through() {
    assert_eq!(coerce_json_value("true"), "true");
    assert_eq!(coerce_json_value("false"), "false");
    assert_eq!(coerce_json_value("null"), "null");
}

#[test]
fn numbers_pass_through() {
    assert_eq!(coerce_json_value("42"), "42");
    assert_eq!(coerce_json_value("3.14"), "3.14");
    assert_eq!(coerce_json_value("-7"), "-7");
}

#[test]
fn already_quoted_string_passes_through() {
    assert_eq!(coerce_json_value(r#""already quoted""#), r#""already quoted""#);
}

#[test]
fn json_object_passes_through() {
    assert_eq!(coerce_json_value(r#"{"key": 1}"#), r#"{"key": 1}"#);
}

#[test]
fn json_array_passes_through() {
    assert_eq!(coerce_json_value("[1, 2, 3]"), "[1, 2, 3]");
}

#[test]
fn float_recognizer_agrees_with_std_parse() {
    let samples = [
        "0", "1.", ".5", ".", "1e5", "1E-3", "+2.5e+7", "e5", "1e", "1e+", "inf", "-Infinity",
        "NaN", "nan1", "1.2.3", "--1", "", "0x10", " 1", "12a",
    ];
    for s in samples {
        assert_eq!(is_float_literal_exec(s), s.parse::<f64>().is_ok(), "sample {:?}", s);
    }
}

#[test]
fn backslashes_are_escaped_and_blanks_trimmed() {
    assert_eq!(coerce_json_value("  a\\b  "), "\"a\\\\b\"");
    assert_eq!(coerce_json_value("   "), "\"\"");
    assert_eq!(coerce_json_value(" 1e3 "), "1e3");
}

#[test]
fn data_paths_split_on_dots_and_brackets() {
    assert_eq!(parse_path("$.paths['/users'].get"), vec!["paths", "/users", "get"]);
    assert_eq!(parse_path("a.\"b.c\"[0]"), vec!["a", "b.c", "0"]);
    assert_eq!(parse_path("$"), Vec::<String>::new());
}
