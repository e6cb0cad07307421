use cortex::hexdoc::{decode_hex_bridge, decode_hex_literal, render_bytes_for_agent, scan_hex_docs};
use cortex::registry::{is_machine_visible_path, parse_registry_artifact, RegistryArtifact};

#[test]
fn parses_real_z4_registry_records() {
    let bytes = b"Z4REG001K\0\0\0\0\0\0\0\x86\x29\xb2\x04\0\0\0\0\x03\0\0\0\0\0\0\0\x08\0\0\0\0\0\0\0alloc.z4";
    let artifact = parse_registry_artifact("z4.reg", bytes).expect("registry parse");

    match artifact {
        RegistryArtifact::Registry { entries, .. } => {
            assert_eq!(entries.len(), 1);
            assert_eq!(entries[0].offset, 0x10);
            assert_eq!(entries[0].id, 0x04b22986);
            assert_eq!(entries[0].class_label, "source");
            assert_eq!(entries[0].path, "alloc.z4");
        }
        _ => panic!("expected registry artifact"),
    }
}

#[test]
fn parses_real_smi_catalog_records() {
    let bytes = b"Z4SMI001\0\0\0\0\0\0\0\0crt0.z4\0alloc.z4\0";
    let artifact =
        parse_registry_artifact("build/compiler.filelist", bytes).expect("catalog parse");

    match artifact {
        RegistryArtifact::Catalog { entries, .. } => {
            assert_eq!(entries.len(), 2);
            assert_eq!(entries[0].slot, 0);
            assert_eq!(entries[0].offset, 0x10);
            assert_eq!(entries[1].path, "alloc.z4");
        }
        _ => panic!("expected catalog artifact"),
    }
}

#[test]
fn hex_bridge_decodes_ascii_docs() {
    let rendered = decode_hex_bridge(None, None, None, Some("0x41444400"), 8).expect("hex bridge");
    assert!(rendered.contains("bytes=0x4"));
    assert!(rendered.contains("ADD\\0"));
}

#[test]
fn hex_literal_decoding_pads_odd_digits_and_drops_nul_escapes() {
    assert_eq!(decode_hex_literal(" \"0xA01\\0\" ").unwrap(), vec![0x0a, 0x01]);
    assert_eq!(decode_hex_literal("0x").unwrap(), Vec::<u8>::new());
    assert_eq!(
        decode_hex_literal("41").unwrap_err(),
        "Expected hex DOC literal starting with 0x"
    );
}

#[test]
fn rendered_bytes_escape_controls_and_quotes() {
    assert_eq!(render_bytes_for_agent(&[b'A', b'\n', 0, b'"', 0xff]), "A\\n\\0\\\"\\xff");
}

#[test]
fn hex_bridge_lists_rows_of_a_source() {
    let source = "@alpha: DATA DOC:\"0x4869\"\n@beta: RET\n@gamma: DATA DOC:\"0x21\"\n";
    let rows = scan_hex_docs(source);
    assert_eq!(rows.len(), 2);
    assert_eq!(rows[0].label.as_deref(), Some("alpha"));
    assert_eq!(rows[1].line_0, 2);

    let all = decode_hex_bridge(Some("a.z4"), Some(source), None, None, 1).unwrap();
    assert_eq!(
        all,
        "# Z4_HEX_BRIDGE\npath=a.z4 docs=0x2\nline=0x1 label=@alpha bytes=0x2 text=\"Hi\"\n... 0x1 more docs\n"
    );
    let narrowed = decode_hex_bridge(Some("a.z4"), Some(source), Some("GAMMA"), None, 8).unwrap();
    assert_eq!(
        narrowed,
        "# Z4_HEX_BRIDGE\npath=a.z4 docs=0x1\nline=0x3 label=@gamma bytes=0x1 text=\"!\"\n"
    );
    assert_eq!(
        decode_hex_bridge(Some("a.z4"), Some(source), Some("delta"), None, 8).unwrap_err(),
        "Symbol 'delta' not found in z4 source"
    );
    assert_eq!(
        decode_hex_bridge(Some("a.z4"), Some(source), Some("beta"), None, 8).unwrap_err(),
        "No DATA/DEFINE DOC hex literals found in a.z4"
    );
    assert_eq!(
        decode_hex_bridge(None, None, None, None, 8).unwrap_err(),
        "'path' required when 'doc_hex' is omitted"
    );
    assert_eq!(
        decode_hex_bridge(Some("a.z4"), None, None, None, 8).unwrap_err(),
        "Failed to read z4 source 'a.z4'"
    );
}

#[test]
fn machine_visible_paths_are_sources_and_catalogs() {
    assert!(is_machine_visible_path("src/main.Z4"));
    assert!(is_machine_visible_path("build/compiler.filelist"));
    assert!(is_machine_visible_path("unit.project.z4"));
    assert!(!is_machine_visible_path("README.md"));
}
