use todo_scan::init::{collect_suggested_dirs, ProjectHint};


#[test]
fn test_collect_suggested_dirs_deduplicates() {
    let hints = vec![
        ProjectHint {
            name: "A",
            exclude_dirs: vec!["dist"],
        },
        ProjectHint {
            name: "B",
            exclude_dirs: vec!["dist", "vendor"],
        },
    ];
    let dirs = collect_suggested_dirs(&hints);
    assert_eq!(dirs, vec!["dist", "vendor"]);
}


#[test]
fn test_collect_suggested_dirs_empty() {
    let hints: Vec<ProjectHint> = vec![];
    let dirs = collect_suggested_dirs(&hints);
    assert!(dirs.is_empty(), "empty hints should produce empty dirs");
}


#[test]
fn test_collect_suggested_dirs_single_hint() {
    let hints = vec![ProjectHint {
        name: "Rust",
        exclude_dirs: vec!["target"],
    }];
    let dirs = collect_suggested_dirs(&hints);
    assert_eq!(dirs, vec!["target"]);
}


#[test]
fn test_collect_suggested_dirs_multiple_hints_overlapping() {
    let hints = vec![
        ProjectHint {
            name: "Rust",
            exclude_dirs: vec!["target"],
        },
        ProjectHint {
            name: "JavaScript/TypeScript",
            exclude_dirs: vec!["node_modules", "dist", ".next"],
        },
        ProjectHint {
            name: "Go",
            exclude_dirs: vec!["vendor"],
        },
    ];
    let dirs = collect_suggested_dirs(&hints);
    assert_eq!(
        dirs,
        vec!["target", "node_modules", "dist", ".next", "vendor"]
    );
}


#[test]
fn test_collect_suggested_dirs_full_overlap_deduplicates() {
    // Both hints share the exact same dir
    let hints = vec![
        ProjectHint {
            name: "A",
            exclude_dirs: vec!["shared_dir", "only_a"],
        },
        ProjectHint {
            name: "B",
            exclude_dirs: vec!["shared_dir", "only_b"],
        },
    ];
    let dirs = collect_suggested_dirs(&hints);
    assert_eq!(dirs, vec!["shared_dir", "only_a", "only_b"]);
    // Verify no duplicates
    let unique: std::collections::HashSet<&&str> = dirs.iter().collect();
    assert_eq!(unique.len(), dirs.len(), "should have no duplicates");
}
