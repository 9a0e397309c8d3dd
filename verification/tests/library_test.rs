use cargo_affected::affected::compute_affected;
use cargo_affected::check_force_triggers;
use cargo_affected::graph::{DependencyGraph, Package, TargetKind};
use cargo_affected::is_excluded;

fn small_graph() -> DependencyGraph {
    let pkg = |name: &str, dir: &str, targets: Vec<TargetKind>| Package {
        name: name.to_string(),
        rel_dir: dir.to_string(),
        targets,
    };
    let graph = DependencyGraph {
        packages: vec![
            pkg("lib-core", "lib-core", vec![TargetKind::Library]),
            pkg("lib-core-ext", "lib-core-ext", vec![TargetKind::Library]),
            pkg("app-one", "apps/app-one", vec![TargetKind::Binary]),
        ],
        deps: vec![
            vec![],  // lib-core
            vec![0], // lib-core-ext -> lib-core
            vec![0], // app-one -> lib-core
        ],
    };
    assert!(graph.well_formed());
    graph
}

fn s(v: &[&str]) -> Vec<String> {
    v.iter().map(|s| s.to_string()).collect()
}

// ── Force-trigger matching through globset ──────────────────────────

#[test]
fn trigger_trailing_slash_matches_everything_beneath() {
    // "infra/" is normalized to "infra/**" and matches nested files…
    assert_eq!(
        check_force_triggers(&s(&["infra/nested/deep/file.yml"]), &s(&["infra/"])).unwrap(),
        true
    );
    // …but not files elsewhere.
    assert_eq!(
        check_force_triggers(&s(&["other/file.yml"]), &s(&["infra/"])).unwrap(),
        false
    );
}

#[test]
fn trigger_bare_name_matches_exact_path_only() {
    assert_eq!(
        check_force_triggers(&s(&["Cargo.lock"]), &s(&["Cargo.lock"])).unwrap(),
        true
    );
    assert_eq!(
        check_force_triggers(&s(&["lib-core/src/lib.rs"]), &s(&["Cargo.lock"])).unwrap(),
        false
    );
}

#[test]
fn trigger_recursive_glob_matches_nested_file() {
    assert_eq!(
        check_force_triggers(&s(&[".github/workflows/ci.yml"]), &s(&[".github/**"])).unwrap(),
        true
    );
}

#[test]
fn trigger_star_crosses_separators_by_default() {
    // Globs are compiled with globset's defaults, where "*" is not stopped by
    // path separators: "ci/*.yml" matches nested files too.
    assert_eq!(
        check_force_triggers(&s(&["ci/workflow.yml"]), &s(&["ci/*.yml"])).unwrap(),
        true
    );
    assert_eq!(
        check_force_triggers(&s(&["ci/nested/workflow.yml"]), &s(&["ci/*.yml"])).unwrap(),
        true
    );
    assert_eq!(
        check_force_triggers(&s(&["ci/workflow.toml"]), &s(&["ci/*.yml"])).unwrap(),
        false
    );
}

#[test]
fn trigger_empty_list_never_fires() {
    assert_eq!(
        check_force_triggers(&s(&["anything/at/all"]), &s(&[])).unwrap(),
        false
    );
}

#[test]
fn trigger_malformed_pattern_is_reported() {
    // "[" is not a valid glob; the error carries the offending pattern.
    let err = check_force_triggers(&s(&["some/file"]), &s(&["["])).unwrap_err();
    assert_eq!(err.pattern, "[");
}

#[test]
fn trigger_first_malformed_pattern_wins() {
    let err = check_force_triggers(&s(&["some/file"]), &s(&["ok/*", "[", "[x"])).unwrap_err();
    assert_eq!(err.pattern, "[");
}

#[test]
fn trigger_malformed_pattern_fails_before_matching() {
    // Even when an earlier pattern would match, compilation errors come first.
    let err = check_force_triggers(&s(&["infra/deploy.yml"]), &s(&["infra/", "["])).unwrap_err();
    assert_eq!(err.pattern, "[");
}

// ── compute_affected and trigger errors ─────────────────────────────

#[test]
fn compute_affected_reports_malformed_trigger() {
    let graph = small_graph();
    let err = compute_affected(&graph, &s(&["lib-core/src/lib.rs"]), &s(&["["]), &s(&[]))
        .unwrap_err();
    assert_eq!(err.pattern, "[");
}

#[test]
fn compute_affected_empty_changes_skip_trigger_compilation() {
    // With no changed files the computation short-circuits before any glob
    // pattern is compiled, so a malformed trigger is not an error.
    let graph = small_graph();
    let result = compute_affected(&graph, &s(&[]), &s(&["["]), &s(&[])).unwrap();
    assert!(!result.force_all);
    assert!(result.changed_crates.is_empty());
    assert!(result.affected_library_members.is_empty());
    assert!(result.affected_binary_members.is_empty());
}

// ── Exclusion rules ─────────────────────────────────────────────────

#[test]
fn exclusion_by_name_matches_exactly() {
    let rules = s(&["lib-core"]);
    assert!(is_excluded("lib-core", "lib-core", &rules));
    assert!(!is_excluded("lib-core-ext", "lib-core-ext", &rules));
}

#[test]
fn exclusion_path_prefix_respects_directory_boundary() {
    // "lib-core/" strips to "lib-core": hides the directory and what is
    // beneath it, never the sibling "lib-core-ext".
    let rules = s(&["lib-core/"]);
    assert!(is_excluded("lib-core", "lib-core", &rules));
    assert!(is_excluded("nested", "lib-core/nested", &rules));
    assert!(!is_excluded("lib-core-ext", "lib-core-ext", &rules));
}

#[test]
fn exclusion_exact_path_matches_directory_only() {
    let rules = s(&["tools/tool-alpha"]);
    assert!(is_excluded("tool-alpha", "tools/tool-alpha", &rules));
    assert!(is_excluded("deep", "tools/tool-alpha/deep", &rules));
    assert!(!is_excluded("tool-alphabet", "tools/tool-alphabet", &rules));
}

#[test]
fn exclusion_path_rule_ignores_package_name() {
    // A rule with a separator is matched against the directory, not the name.
    let rules = s(&["tools/"]);
    assert!(!is_excluded("tools/", "elsewhere", &rules));
    assert!(is_excluded("anything", "tools/x", &rules));
}

#[test]
fn excluding_sibling_directory_keeps_package_visible() {
    let graph = small_graph();
    let changed = s(&["lib-core-ext/src/lib.rs"]);
    let excluded = s(&["lib-core/"]);
    let result = compute_affected(&graph, &changed, &s(&[]), &excluded).unwrap();
    // lib-core-ext lives in lib-core-ext/, which "lib-core/" must not hide.
    assert_eq!(result.changed_crates, vec!["lib-core-ext"]);
    assert_eq!(result.affected_library_members, vec!["lib-core-ext"]);
}

// ── Change mapping respects component boundaries ────────────────────

#[test]
fn change_in_sibling_directory_is_not_attributed() {
    let graph = small_graph();
    // A file under lib-core-ext/ must not touch lib-core, and vice versa.
    let result =
        compute_affected(&graph, &s(&["lib-core-ext/src/lib.rs"]), &s(&[]), &s(&[])).unwrap();
    assert_eq!(result.changed_crates, vec!["lib-core-ext"]);
    let result =
        compute_affected(&graph, &s(&["lib-core/src/lib.rs"]), &s(&[]), &s(&[])).unwrap();
    assert_eq!(result.changed_crates, vec!["lib-core"]);
    assert!(
        result
            .affected_library_members
            .contains(&"lib-core-ext".to_string())
    );
}

// ── Output lists are sorted and duplicate-free ──────────────────────

#[test]
fn output_lists_sorted_and_unique() {
    let graph = small_graph();
    let changed = s(&["lib-core/src/lib.rs", "apps/app-one/src/main.rs"]);
    let result = compute_affected(&graph, &changed, &s(&[]), &s(&[])).unwrap();
    for list in [
        &result.changed_crates,
        &result.affected_library_members,
        &result.affected_binary_members,
    ] {
        for w in list.windows(2) {
            assert!(w[0] < w[1]);
        }
    }
    assert_eq!(result.changed_crates, vec!["app-one", "lib-core"]);
}

// ── Idempotence ─────────────────────────────────────────────────────

#[test]
fn identical_inputs_yield_identical_results() {
    let graph = small_graph();
    let changed = s(&["lib-core/src/lib.rs"]);
    let triggers = s(&["infra/"]);
    let excluded = s(&["apps/"]);
    let first = compute_affected(&graph, &changed, &triggers, &excluded).unwrap();
    let second = compute_affected(&graph, &changed, &triggers, &excluded).unwrap();
    assert_eq!(first, second);
}

// ── Monotonicity ────────────────────────────────────────────────────

#[test]
fn adding_changed_files_never_shrinks_affected() {
    let graph = small_graph();
    let fewer = s(&["lib-core-ext/src/lib.rs"]);
    let more = s(&["lib-core-ext/src/lib.rs", "lib-core/src/lib.rs"]);
    let small = compute_affected(&graph, &fewer, &s(&[]), &s(&[])).unwrap();
    let large = compute_affected(&graph, &more, &s(&[]), &s(&[])).unwrap();
    for name in &small.affected_library_members {
        assert!(large.affected_library_members.contains(name));
    }
    assert_eq!(
        large.affected_library_members,
        vec!["app-one", "lib-core", "lib-core-ext"]
    );
}

// ── Workspace member at the workspace root ──────────────────────────

#[test]
fn root_package_owns_every_file() {
    let graph = DependencyGraph {
        packages: vec![Package {
            name: "root-pkg".to_string(),
            rel_dir: "".to_string(),
            targets: vec![TargetKind::Library],
        }],
        deps: vec![vec![]],
    };
    assert!(graph.well_formed());
    let result = compute_affected(&graph, &s(&["src/lib.rs"]), &s(&[]), &s(&[])).unwrap();
    assert_eq!(result.changed_crates, vec!["root-pkg"]);
}
