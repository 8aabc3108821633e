use std::collections::HashMap;

use todo_scan::config::{Config, PackageCheckConfig};
use todo_scan::model::{PackageInfo, WorkspaceKind};
use todo_scan::workspace::{
    detect_manual, expand_glob, glob_prefix, literal_member, package_name_from_path, package_path, packages_for,
    parse_go_work, parse_pnpm_packages, workspace_of,
};

fn pkg(name: &str, path: &str, kind: WorkspaceKind) -> PackageInfo {
    PackageInfo { name: name.to_string(), path: path.to_string(), kind }
}

#[test]
fn pnpm_packages_are_unquoted() {
    let pats = parse_pnpm_packages("packages:\n  - 'apps/*'\n  - 'libs/*'\n");
    assert_eq!(pats, vec!["apps/*".to_string(), "libs/*".to_string()]);
}

#[test]
fn pnpm_list_skips_comments_and_stops_at_next_key() {
    let yaml = "packages:\n  - \"a/*\"\n\n  # comment\n  - b\ncatalog:\n  - c\n";
    assert_eq!(parse_pnpm_packages(yaml), vec!["a/*".to_string(), "b".to_string()]);
    assert!(parse_pnpm_packages("name: x\n- y\n").is_empty());
}

#[test]
fn go_work_use_block_and_single_use() {
    let uses = parse_go_work("go 1.21\n\nuse (\n\t./cmd/server\n\t./pkg/lib\n)\n");
    assert_eq!(uses, vec!["cmd/server".to_string(), "pkg/lib".to_string()]);
    let single = parse_go_work("go 1.22\nuse ./tools\nuse lib\n");
    assert_eq!(single, vec!["tools".to_string(), "lib".to_string()]);
}

#[test]
fn glob_prefix_stops_at_first_glob_part() {
    assert_eq!(glob_prefix("packages/*"), "packages");
    assert_eq!(glob_prefix("crates/*/src"), "crates");
    assert_eq!(glob_prefix("*"), "");
    assert_eq!(glob_prefix("a/b/c"), "a/b/c");
}

#[test]
fn package_names_are_last_components() {
    assert_eq!(package_name_from_path("crates/core"), "core");
    assert_eq!(package_name_from_path("app"), "app");
    assert_eq!(package_name_from_path(".."), "..");
}

#[test]
fn literal_members_lose_dot_slash() {
    assert_eq!(literal_member("./crates/core"), Some("crates/core".to_string()));
    assert_eq!(literal_member("crates/cli"), Some("crates/cli".to_string()));
    assert_eq!(literal_member("crates/*"), None);
    assert_eq!(literal_member("x[12]"), None);
}

#[test]
fn expand_glob_sorts_and_dedups_matches() {
    let cands = vec![
        "crates/beta".to_string(),
        "crates/alpha".to_string(),
        "other/x".to_string(),
        "crates/alpha".to_string(),
    ];
    assert_eq!(expand_glob("crates/*", &cands), vec!["crates/alpha".to_string(), "crates/beta".to_string()]);
    assert!(expand_glob("crates/[", &cands).is_empty());
}

#[test]
fn workspace_sorted_by_path_or_name() {
    let paths = vec!["crates/core".to_string(), "crates/cli".to_string()];
    let ws = workspace_of(WorkspaceKind::Cargo, packages_for(&paths, WorkspaceKind::Cargo), false).unwrap();
    assert_eq!(ws.kind, WorkspaceKind::Cargo);
    assert_eq!(ws.packages[0].name, "cli");
    assert_eq!(ws.packages[0].path, "crates/cli");
    assert_eq!(ws.packages[1].name, "core");
    let nx = workspace_of(
        WorkspaceKind::Nx,
        vec![pkg("lib", "a/lib", WorkspaceKind::Nx), pkg("app", "z/app", WorkspaceKind::Nx)],
        true,
    )
    .unwrap();
    assert_eq!(nx.packages[0].name, "app");
    assert!(workspace_of(WorkspaceKind::Npm, vec![], false).is_none());
}

#[test]
fn manual_workspace_from_config() {
    let mut config = Config::default();
    assert!(detect_manual(&config).is_none());
    let mut packages = HashMap::new();
    packages.insert("auth".to_string(), PackageCheckConfig { max: Some(10), block_tags: vec![] });
    packages.insert("api".to_string(), PackageCheckConfig { max: Some(20), block_tags: vec![] });
    config.workspace.packages = packages;
    let ws = detect_manual(&config).unwrap();
    assert_eq!(ws.kind, WorkspaceKind::Manual);
    assert_eq!(ws.packages.len(), 2);
    assert_eq!(ws.packages[0].name, "api");
    assert_eq!(ws.packages[0].path, "api");
    assert_eq!(ws.packages[1].name, "auth");
}

#[test]
fn package_path_finds_or_lists_available() {
    let ws = workspace_of(
        WorkspaceKind::Cargo,
        vec![pkg("core", "crates/core", WorkspaceKind::Cargo), pkg("cli", "crates/cli", WorkspaceKind::Cargo)],
        false,
    )
    .unwrap();
    assert_eq!(package_path(&ws, "core"), Ok("crates/core".to_string()));
    assert_eq!(
        package_path(&ws, "web"),
        Err("package 'web' not found in workspace. Available: cli, core".to_string())
    );
}
