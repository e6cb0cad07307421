use cortex::workspace::{
    discover_workspace_members_multi, find_containing_member, order_members, workspace_member, is_heavy_dir, languages_for_manifest_kind, manifest_kind_of,
    render_workspace_topology, DiscoveredRoot, ManifestKind, WorkspaceDiscoveryOptions,
    WorkspaceMember,
};

fn member(name: &str, rel: &str, abs: &str, kind: ManifestKind) -> WorkspaceMember {
    WorkspaceMember {
        name: name.to_string(),
        rel_path: rel.to_string(),
        abs_path: abs.to_string(),
        manifest_kind: kind,
        depth: rel.matches('/').count(),
    }
}

#[test]
fn deepest_containing_member_wins() {
    let ms = vec![
        member("svc", "services", "/r/services", ManifestKind::Unknown),
        member("api", "services/api", "/r/services/api/", ManifestKind::Cargo),
        member("apix", "services/apix", "/r/services/apix", ManifestKind::Npm),
    ];
    assert_eq!(find_containing_member(&ms, "/r/services/api/src/main.rs").unwrap().name, "api");
    assert_eq!(find_containing_member(&ms, "/r/services//other").unwrap().name, "svc");
    assert_eq!(find_containing_member(&ms, "/r/services/apix").unwrap().name, "apix");
    assert!(find_containing_member(&ms, "/elsewhere").is_none());
}

#[test]
fn manifest_kinds_and_languages() {
    assert_eq!(manifest_kind_of(false, true, true, false, true), ManifestKind::Npm);
    assert_eq!(manifest_kind_of(false, false, false, true, true), ManifestKind::Python);
    assert_eq!(manifest_kind_of(false, false, false, false, false), ManifestKind::Unknown);
    assert_eq!(languages_for_manifest_kind(ManifestKind::Npm), vec!["typescript", "javascript"]);
    assert!(languages_for_manifest_kind(ManifestKind::Unknown).is_empty());
    assert_eq!(ManifestKind::Go.name(), "go");
    assert!(is_heavy_dir("node_modules"));
    assert!(!is_heavy_dir("src"));
    assert_eq!(WorkspaceDiscoveryOptions::default().max_depth, 3);
}

#[test]
fn topology_lists_roots_and_members_by_prefix() {
    assert_eq!(
        render_workspace_topology(&vec![]),
        "# WORKSPACE_TOPOLOGY\n*(no workspace roots detected)*"
    );
    let roots = vec![
        DiscoveredRoot {
            path: "/w/beta".to_string(),
            name: "beta".to_string(),
            kind: ManifestKind::Cargo,
            members: vec![member("core", "crates/core", "/w/beta/crates/core", ManifestKind::Cargo)],
        },
        DiscoveredRoot {
            path: "/w/alpha".to_string(),
            name: "alpha-app".to_string(),
            kind: ManifestKind::Npm,
            members: vec![],
        },
    ];
    let out = render_workspace_topology(&roots);
    assert!(out.starts_with(
        "# WORKSPACE_TOPOLOGY\n- [alpha] kind=root name=alpha-app manifest=npm languages=typescript,javascript\n- [beta] kind=root name=beta manifest=cargo languages=rust\n- [beta]/crates/core kind=member name=core manifest=cargo languages=rust\n\nHint: "
    ));
    let single = render_workspace_topology(&vec![DiscoveredRoot {
        path: "/w/x".to_string(),
        name: "x".to_string(),
        kind: ManifestKind::Unknown,
        members: vec![],
    }]);
    assert!(single.starts_with("# WORKSPACE_TOPOLOGY\n- . kind=root name=x manifest=unknown languages=-\n"));
}

#[test]
fn multi_root_members_are_prefixed_and_ordered() {
    let roots = vec!["/w/alpha".to_string(), "/w/beta/".to_string()];
    let found = vec![
        vec![
            member("deep", "crates/deep", "/w/alpha/crates/deep", ManifestKind::Cargo),
            member("z", "z", "/w/alpha/z", ManifestKind::Npm),
        ],
        vec![member("a", "a", "/w/beta/a", ManifestKind::Go)],
    ];
    let all = discover_workspace_members_multi(&roots, &found);
    let rels: Vec<&str> = all.iter().map(|m| m.rel_path.as_str()).collect();
    assert_eq!(rels, vec!["[alpha]/z", "[beta]/a", "[alpha]/crates/deep"]);
    assert_eq!(all[1].abs_path, "/w/beta/a");
    assert_eq!(all[2].depth, 1);
}

#[test]
fn single_root_members_pass_through() {
    let roots = vec!["/w/alpha".to_string()];
    let found = vec![vec![
        member("z", "z", "/w/alpha/z", ManifestKind::Npm),
        member("a", "a", "/w/alpha/a", ManifestKind::Npm),
    ]];
    let all = discover_workspace_members_multi(&roots, &found);
    let rels: Vec<&str> = all.iter().map(|m| m.rel_path.as_str()).collect();
    assert_eq!(rels, vec!["z", "a"]);
    assert!(discover_workspace_members_multi(&Vec::new(), &Vec::new()).is_empty());
}

#[test]
fn members_take_slash_paths_and_depths() {
    let m = workspace_member("api".to_string(), "services\\api\\v2", "/r/services/api/v2".to_string(), ManifestKind::Go);
    assert_eq!(m.rel_path, "services/api/v2");
    assert_eq!(m.depth, 2);
    assert_eq!(m.manifest_kind, ManifestKind::Go);
}

#[test]
fn members_ordered_by_depth_then_path() {
    let ms = vec![
        member("c", "b/c", "/r/b/c", ManifestKind::Cargo),
        member("z", "z", "/r/z", ManifestKind::Npm),
        member("a", "a", "/r/a", ManifestKind::Npm),
    ];
    let sorted = order_members(&ms);
    let rels: Vec<&str> = sorted.iter().map(|m| m.rel_path.as_str()).collect();
    assert_eq!(rels, vec!["a", "z", "b/c"]);
}
