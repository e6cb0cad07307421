use cortex::exact_search::{search_params, search_report, tally_search, WalkedFile};

fn file(path: &str, lines: &[(&str, bool)]) -> WalkedFile {
    WalkedFile { path: path.to_string(), lines: Some(lines.iter().map(|(t, m)| (t.to_string(), *m)).collect()) }
}

#[test]
fn parameters_and_caps() {
    assert_eq!(
        search_params(None, None, None).err().unwrap(),
        "'regex_pattern' is required and must be a non-empty string"
    );
    assert!(search_params(Some(""), None, None).is_err());
    let p = search_params(Some("fn main"), Some("..RS"), None).ok().unwrap();
    assert_eq!(p.pattern, "fn main");
    assert_eq!(p.ext.as_deref(), Some("rs"));
    assert_eq!((p.max_results, p.max_files), (50, 10));
    let q = search_params(Some("x"), Some(""), Some(10_000)).ok().unwrap();
    assert_eq!(q.ext, None);
    assert_eq!((q.max_results, q.max_files), (500, 50));
    let r = search_params(Some("x"), None, Some(3)).ok().unwrap();
    assert_eq!((r.max_results, r.max_files), (3, 5));
}

#[test]
fn tally_keeps_lines_until_the_caps() {
    let files = vec![
        file("a.rs", &[("  foo()  ", true), ("bar", false), ("foo2", true)]),
        WalkedFile { path: "skip.bin".to_string(), lines: None },
        file("b.rs", &[("x", false)]),
        file("c.rs", &[("foo", true), ("foo again", true)]),
        file("d.rs", &[("foo", true)]),
    ];
    let t = tally_search(&files, 3, 5);
    assert_eq!(t.hits, vec!["a.rs:1: foo()", "a.rs:3: foo2", "c.rs:1: foo"]);
    assert_eq!((t.scanned, t.with_matches, t.capped), (3, 2, true));
    let all = tally_search(&files, 50, 10);
    assert_eq!(all.hits.len(), 5);
    assert_eq!((all.scanned, all.with_matches, all.capped), (4, 3, false));
}

#[test]
fn reports_with_and_without_matches() {
    let p = search_params(Some("foo"), Some("rs"), Some(3)).ok().unwrap();
    let none = tally_search(&vec![file("a.rs", &[("x", false)])], 3, 5);
    assert_eq!(search_report("/w", &p, &none), "No matches for `foo` in `/w` (1 file(s) scanned, filtering *.rs).");
    let t = tally_search(&vec![file("a.rs", &[("foo", true), ("foo", true), ("foo", true), ("foo", true)])], 3, 5);
    assert_eq!(
        search_report("/w", &p, &t),
        "## Exact Search — `foo`\n_3 match(es) across 1 file(s) (1 scanned) (*.rs) ⚠️ Results capped at 3 lines / 5 files. Increase max_results or narrow your pattern._\n\n```\na.rs:1: foo\na.rs:2: foo\na.rs:3: foo\n```\n"
    );
}
