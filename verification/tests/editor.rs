use cortex::editor::backtrack_decorators;

#[test]
fn bottom_up_sort_preserves_byte_offsets() {
    let source = "AAAA BBBB CCCC";
    let mut ops: Vec<(usize, usize, &str)> = vec![(0, 4, "X"), (5, 9, "Y"), (10, 14, "Z")];
    ops.sort_by(|a, b| b.0.cmp(&a.0));
    let mut buf = source.to_string();
    for (start, end, rep) in ops {
        buf = format!("{}{}{}", &buf[..start], rep, &buf[end..]);
    }
    assert_eq!(buf, "X Y Z");
}

#[test]
fn backtrack_decorators_single() {
    let source = "@app.get(\"/\")\ndef foo():\n    pass\n";
    let def_start = source.find("def foo").unwrap();
    let adjusted = backtrack_decorators(source, def_start);
    assert_eq!(&source[adjusted..def_start + 3], "@app.get(\"/\")\ndef");
}

#[test]
fn backtrack_decorators_multiple() {
    let source = "@decorator1\n@decorator2\ndef bar():\n    pass\n";
    let def_start = source.find("def bar").unwrap();
    let adjusted = backtrack_decorators(source, def_start);
    assert_eq!(&source[adjusted..def_start + 3], "@decorator1\n@decorator2\ndef");
}

#[test]
fn backtrack_decorators_none() {
    let source = "def plain():\n    pass\n";
    let def_start = source.find("def plain").unwrap();
    let adjusted = backtrack_decorators(source, def_start);
    assert_eq!(adjusted, def_start);
}

#[test]
fn backtrack_decorators_stops_at_blank_line() {
    let source = "@other_func_decorator\ndef other():\n    pass\n\n@app.get(\"/\")\ndef foo():\n    pass\n";
    let def_start = source.find("def foo").unwrap();
    let adjusted = backtrack_decorators(source, def_start);
    assert_eq!(&source[adjusted..def_start + 3], "@app.get(\"/\")\ndef");
}

#[test]
fn backtrack_decorators_counts_multibyte_lines_and_indented_decorators() {
    let source = "  @d\u{e9}co\n@x\ndef f():\n";
    let def_start = source.find("def f").unwrap();
    assert_eq!(backtrack_decorators(source, def_start), 0);
    assert_eq!(backtrack_decorators(source, 0), 0);
}

fn edit(target: &str, action: &str, code: &str) -> cortex::editor::AstEdit {
    cortex::editor::AstEdit { target: target.to_string(), action: action.to_string(), code: code.to_string() }
}

#[test]
fn edits_render_bottom_up_with_separators() {
    let ops = vec![(10, 14, edit("c", "replace", "Z")), (5, 9, edit("b", "replace", "Y")), (0, 4, edit("a", "replace", "X"))];
    assert_eq!(cortex::editor::render_ast_edits("AAAA BBBB CCCC", &ops), "X\n\n Y\n\n Z\n\n");
    let del = vec![(5, 9, edit("drop", "delete", "ignored"))];
    assert_eq!(cortex::editor::render_ast_edits("keep drop\nrest", &del), "keep \nrest");
    let line = vec![(0, 8, edit("a", "replace", "fn a(){1}\n"))];
    assert_eq!(cortex::editor::render_ast_edits("fn a(){}\nfn b(){}", &line), "fn a(){1}\n\nfn b(){}");
    let joined = vec![(0, 3, edit("a", "replace", "x\n"))];
    assert_eq!(cortex::editor::render_ast_edits("abcdef", &joined), "x\n\ndef");
    let wide = vec![(2, 5, edit("e", "replace", "E"))];
    assert_eq!(cortex::editor::render_ast_edits("é€x", &wide), "éE\n\nx");
}

#[test]
fn edit_operations_address_named_symbols_latest_first() {
    let syms = vec![
        cortex::editor::Symbol { name: "greet".to_string(), kind: "function".to_string(), start_byte: 0, end_byte: 10 },
        cortex::editor::Symbol { name: "Auth".to_string(), kind: "class".to_string(), start_byte: 20, end_byte: 40 },
    ];
    let edits = vec![edit("greet", "replace", "g"), edit("class:Auth", "delete", "")];
    let ops = cortex::editor::collect_ast_operations(&syms, &edits).unwrap();
    let spans: Vec<(usize, usize, &str)> = ops.iter().map(|(s, e, ed)| (*s, *e, ed.target.as_str())).collect();
    assert_eq!(spans, vec![(20, 40, "class:Auth"), (0, 10, "greet")]);
    let err = cortex::editor::collect_ast_operations(&syms, &vec![edit("missing", "replace", "")]).unwrap_err();
    assert_eq!(err, "AST target not found in source: 'missing'. Use `map_overview` first to discover symbol names.");
}
