use cortex::registry::{
    parse_registry_artifact, read_registry, registry_aliases_from, render_build_units,
    render_registry_table, rename_guard_status, unit_scan, CatalogEntry, RegistryReport,
    UnitCatalog, UnitReport,
};

const REG: &[u8] = b"Z4REG001K\0\0\0\0\0\0\0\x86\x29\xb2\x04\0\0\0\0\x03\0\0\0\0\0\0\0\x08\0\0\0\0\0\0\0alloc.z4";
const SMI: &[u8] = b"Z4SMI001\0\0\0\0\0\0\0\0crt0.z4\0alloc.z4\0";

#[test]
fn registry_table_lists_records() {
    let a = parse_registry_artifact("z4.reg", REG).unwrap();
    assert_eq!(
        render_registry_table("z4.reg", &a, 8),
        "# Z4_REG_READER\npath=z4.reg kind=registry magic=Z4REG001K entries=0x1\noffset=0x10 id=0x4b22986 class=0x3(source) len=0x8 path=alloc.z4\n"
    );
    let c = parse_registry_artifact("u.filelist", SMI).unwrap();
    assert_eq!(
        render_registry_table("u.filelist", &c, 1),
        "# Z4_REG_READER\npath=u.filelist kind=catalog magic=Z4SMI001 entries=0x2\nslot=0x0 offset=0x10 path=crt0.z4\n... 0x1 more entries\n"
    );
}

#[test]
fn read_registry_dispatches_on_format() {
    match read_registry("u.filelist", SMI, "json", 0).unwrap() {
        RegistryReport::Json(cortex::registry::RegistryArtifact::Catalog { entries, .. }) => {
            assert_eq!(entries.len(), 1)
        }
        _ => panic!("expected json catalog"),
    }
    assert!(matches!(read_registry("u.filelist", SMI, "table", 3).unwrap(), RegistryReport::Table(_)));
    match read_registry("u.filelist", SMI, "xml", 3) {
        Err(e) => assert_eq!(e, "Unsupported output_format 'xml'. Use 'table' or 'json'."),
        Ok(_) => panic!("expected error"),
    }
    match read_registry("x", b"nope", "table", 3) {
        Err(e) => assert_eq!(e, "Unsupported z4 registry artifact 'x': expected Z4REG001K/Z4SMI001"),
        Ok(_) => panic!("expected error"),
    }
}

fn entry(slot: usize, path: &str) -> CatalogEntry {
    CatalogEntry { slot, offset: 16, path: path.to_string() }
}

fn report(alias: &str, defs: usize, uses: usize, def_files: &[&str], use_files: &[&str]) -> UnitReport {
    UnitReport {
        alias: alias.to_string(),
        catalog_rel: format!("{}/compiler.filelist", alias),
        defs,
        uses,
        def_files: def_files.iter().map(|s| s.to_string()).collect(),
        use_files: use_files.iter().map(|s| s.to_string()).collect(),
    }
}

#[test]
fn build_units_and_rename_guard_reports() {
    let units = vec![
        UnitCatalog { alias: "build/compiler.filelist".to_string(), entries: Ok(vec![entry(0, "alpha.z4"), entry(1, "beta.z4")]) },
        UnitCatalog { alias: "other".to_string(), entries: Err("bad catalog".to_string()) },
    ];
    assert_eq!(
        render_build_units(&units, 1, 1).unwrap(),
        "# Z4_UNIT_SCAN\nmode=build_units units=0x2\nunit=build/compiler.filelist files=0x2\n  0x0 alpha.z4\n  ... 0x1 more files\n... 0x1 more units\n"
    );
    assert_eq!(render_build_units(&units, 2, 1).unwrap_err(), "bad catalog");

    let single = vec![report("build", 1, 1, &["alpha.z4"], &["alpha.z4"])];
    assert_eq!(rename_guard_status(&single), ("single_unit_safe", 1, 1));
    let out = unit_scan("rename_guard", Ok(vec![]), Some(" beta "), &single, 8, 8).unwrap();
    assert!(out.contains("status=single_unit_safe"));
    assert!(out.contains("defs=0x1"));
    assert!(out.contains("uses=0x1"));
    assert!(out.contains("  def_files=alpha.z4\n"));
    let multi = vec![report("a", 1, 2, &["x.z4"], &["x.z4", "y.z4"]), report("b", 0, 1, &[], &["z.z4"])];
    assert_eq!(rename_guard_status(&multi), ("cross_unit_references", 1, 2));
    assert_eq!(
        unit_scan("rename_guard", Ok(vec![]), Some("f"), &vec![], 8, 8).unwrap(),
        "# Z4_UNIT_SCAN\nmode=rename_guard symbol=f status=not_found units=0x0\n"
    );
    assert_eq!(
        unit_scan("rename_guard", Ok(vec![]), Some("  "), &multi, 8, 8).unwrap_err(),
        "'symbol_name' required for action='rename_guard'"
    );
    assert_eq!(
        unit_scan("list", Ok(vec![]), None, &multi, 8, 8).unwrap_err(),
        "Unsupported cortex_z4_unit_scan action 'list'. Use 'build_units' or 'rename_guard'."
    );
    assert_eq!(unit_scan("build_units", Err("no catalogs".to_string()), None, &multi, 8, 8).unwrap_err(), "no catalogs");
}

#[test]
fn registry_aliases_name_files_by_id() {
    let aliases = registry_aliases_from("z4.reg", Some(REG));
    assert_eq!(aliases.display_name("./alloc.z4", "alloc.z4").as_deref(), Some("[0x4b22986] alloc.z4"));
    assert_eq!(aliases.display_name("x/alloc.z4", "alloc.z4").as_deref(), Some("[0x4b22986] alloc.z4"));
    assert!(!aliases.is_empty());
    assert!(registry_aliases_from("z4.reg", None).is_empty());
}

#[test]
fn unit_report_counts_definitions_and_uses() {
    use_unit_report();
}

fn use_unit_report() {
    let f = |path: &str, text: Option<&str>, uses: usize| cortex::registry::UnitFile {
        path: path.to_string(),
        text: text.map(str::to_string),
        uses,
    };
    let files = vec![
        f("src/b.z4", Some("@Main:\n  x\n@main:\n@Other:\n"), 0),
        f("src/a.z4", Some("@other:\n"), 2),
        f("src/c.txt", Some("@Main:\n"), 5),
        f("src/d.z4", None, 4),
        f("src/a.z4", Some("@MAIN:\n"), 1),
    ];
    let r = cortex::registry::unit_report_of("app", "app.filelist", &files, "main").unwrap();
    assert_eq!(r.alias, "app");
    assert_eq!(r.catalog_rel, "app.filelist");
    assert_eq!(r.defs, 3);
    assert_eq!(r.uses, 3);
    assert_eq!(r.def_files, vec!["src/a.z4".to_string(), "src/b.z4".to_string()]);
    assert_eq!(r.use_files, vec!["src/a.z4".to_string()]);
    let none = vec![f("src/c.txt", Some("@main:\n"), 5), f("src/d.z4", None, 4), f("e.z4", Some("x"), 0)];
    assert!(cortex::registry::unit_report_of("u", "c", &none, "main").is_none());
}

#[test]
fn catalog_entries_of_catalogs_only() {
    let reg = parse_registry_artifact("z4.reg", REG);
    let e = cortex::registry::catalog_entries_of("z4.reg", reg).unwrap_err();
    assert_eq!(e, "Expected catalog (.filelist/.project.z4), got registry 'z4.reg'");
    let smi = parse_registry_artifact("app.filelist", SMI);
    let ok = cortex::registry::catalog_entries_of("app.filelist", smi).unwrap();
    assert_eq!(ok.len(), 2);
    assert_eq!(ok[1].path, "alloc.z4");
}
