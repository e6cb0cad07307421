use cortex::z4::Z4LanguageDriver;

#[test]
fn z4_extracts_hex_labels_and_ranges() {
    let source = "@f11c: PUSH IA:%rbp\n@alpha: MOVE IA:%rax IB:0x10\n@beta: DATA DOC:\"0xA01\\0\"\n";
    let symbols = Z4LanguageDriver::extract_symbols(source);

    assert_eq!(symbols.len(), 3);
    assert_eq!(symbols[0].name, "f11c");
    assert_eq!(symbols[0].kind, "hex_label");
    assert!(symbols[1].end_byte > symbols[1].start_byte);
}

#[test]
fn z4_density_map_tracks_hex_content() {
    let source = "@f11c: PUSH IA:%rbp\n@alpha: MOVE IA:%rax IB:0x10\n@beta: DATA DOC:\"0xA01\\0\"\n";
    let rendered = Z4LanguageDriver::render_density_map(source);

    assert!(rendered.contains("# Z4_HEX_LABEL_DENSITY"));
    assert!(rendered.contains("hex_labels=0x1"));
    assert!(rendered.contains("doc_hex_rows=0x1"));
}

#[test]
fn z4_read_symbol_respects_label_boundaries() {
    let source = "@alpha: MOVE IA:%rax IB:0x10\n@beta: RET\n";
    let rendered = Z4LanguageDriver::read_symbol("sample.z4", source, "alpha", false, None)
        .expect("z4 symbol read");

    assert!(rendered.contains("@alpha: MOVE IA:%rax IB:0x10"));
    assert!(!rendered.contains("@beta: RET"));
}

#[test]
fn density_map_exact_text() {
    let source = "@f11c: PUSH IA:%rbp\n@alpha: MOVE IA:%rax IB:0x10\n@beta: DATA DOC:\"0xA01\\0\"\n";
    let rendered = Z4LanguageDriver::render_density_map(source);
    assert_eq!(
        rendered,
        "# Z4_HEX_LABEL_DENSITY\nlabels=0x3 hex_labels=0x1 hex_literals=0x2 doc_hex_rows=0x1 bytes=0x4b lines=0x3 label_density_per_kib=0x28 hex_density_per_kib=0x1b\n0x0000..0x004b labels=0x3 hex_labels=0x1 hex_literals=0x2\n"
    );
}

#[test]
fn read_symbol_lists_sorted_symbols_when_missing() {
    let source = "@zeta: RET\n@alpha: RET\n@f00d: RET\n";
    let err = Z4LanguageDriver::read_symbol("a.z4", source, "nope", false, None).unwrap_err();
    assert_eq!(
        err,
        "Symbol `nope` not found in a.z4.\nAvailable symbols (showing 3):\n  hex_label f00d\n  label alpha\n  label zeta"
    );
}

#[test]
fn one_symbol_per_label_line_and_tiling() {
    let src = "@a:\n x\n@b: y\r\nnot @c:\n@d\n@e_1:";
    let syms = cortex::z4::Z4LanguageDriver::extract_symbols(src);
    let label_lines = src.lines().filter(|l| {
        let b = l.as_bytes();
        if b.first() != Some(&b'@') { return false; }
        let n = b[1..].iter().take_while(|c| c.is_ascii_alphanumeric() || **c == b'_').count();
        n > 0 && b.get(1 + n) == Some(&b':')
    }).count();
    assert_eq!(syms.len(), label_lines);
    assert_eq!(syms.len(), 3);
    for w in syms.windows(2) {
        assert_eq!(w[0].end_byte, w[1].start_byte);
        assert!(w[0].start_byte < w[0].end_byte);
    }
    assert_eq!(syms.last().unwrap().end_byte, src.len());
}
