use nanite::context::{
    build_context_summary_lines, detect_bootstrap_command, detect_license_source, detect_named_target,
    detect_package_manager, detect_repo_shape, detect_run_command, detect_test_command, find_toml_string_value,
    package_manager_run_command, parse_package_json, render_list_summary, render_optional_summary,
    render_summary_value, resolve_repo_name, RepoContextFacts,
};
use nanite::value_map::ValueMap;

fn values(pairs: &[(&str, &str)]) -> ValueMap {
    let mut map = ValueMap::new();
    for (k, v) in pairs {
        map.insert((*k).to_owned(), (*v).to_owned());
    }
    map
}

#[test]
fn repo_name_prefers_values_then_directory() {
    assert_eq!(resolve_repo_name(&values(&[("repo_name", "a"), ("project_name", "b")]), "/x/c"), "a");
    assert_eq!(resolve_repo_name(&values(&[("repo_name", "  "), ("project_name", "b")]), "/x/c"), "b");
    assert_eq!(resolve_repo_name(&values(&[]), "/x/c"), "c");
    assert_eq!(resolve_repo_name(&values(&[]), "/"), "project");
}

#[test]
fn summary_helpers_render_missing_facts() {
    assert_eq!(render_optional_summary(&None), "(none)");
    assert_eq!(render_optional_summary(&Some("MIT".to_owned())), "MIT");
    assert_eq!(render_list_summary(&vec![], ", "), "(none)");
    assert_eq!(render_list_summary(&vec!["a".to_owned(), "b".to_owned()], "; "), "a; b");
    assert_eq!(render_summary_value("  x "), "x");
    assert_eq!(render_summary_value("  "), "(blank)");
}

#[test]
fn summary_lines_list_facts_then_values() {
    let facts = RepoContextFacts {
        repo_name: "nanite".to_owned(),
        repo_shape: "single_project".to_owned(),
        ci_workflows: vec!["ci.yml".to_owned()],
        license_source: None,
        bootstrap_command: Some("cargo build".to_owned()),
        run_command: None,
        test_command: Some("cargo test -q".to_owned()),
        docs_present: vec![],
        workspace_inventory: vec![],
    };
    let lines = build_context_summary_lines("/work/nanite", &facts, &values(&[("b", " "), ("a", "x")]));
    assert_eq!(lines.len(), 12);
    assert_eq!(lines[0], "- Repo name: nanite");
    assert_eq!(lines[1], "- Current directory: /work/nanite");
    assert_eq!(lines[3], "- Verified CI workflows: ci.yml");
    assert_eq!(lines[4], "- Verified license source: (none)");
    assert_eq!(lines[10], "- a: x");
    assert_eq!(lines[11], "- b: (blank)");
}

#[test]
fn named_targets_skip_comments_and_blank_lines() {
    let justfile = "# dev: not this\n\nbuild:\n  cargo build\nrun target: build\ndev:\n";
    assert_eq!(detect_named_target(justfile, &vec!["dev", "run", "start"]), Some("dev".to_owned()));
    assert_eq!(detect_named_target("test: x\n", &vec!["test", "check"]), Some("test".to_owned()));
    assert_eq!(detect_named_target("nothing here\n", &vec!["test"]), None);
}

#[test]
fn toml_string_values_are_unquoted() {
    let cargo = "[package]\nname = \"nanite\"\n  license = \"MIT OR Apache-2.0\"\n";
    assert_eq!(find_toml_string_value(cargo, "license"), Some("MIT OR Apache-2.0".to_owned()));
    assert_eq!(find_toml_string_value(cargo, "version"), None);
}

#[test]
fn package_managers_come_from_locks_then_the_manifest() {
    let pkg = parse_package_json(r#"{"packageManager": "yarn@4.0.0", "scripts": {"dev": "vite", "test": "vitest"}, "license": "MIT"}"#);
    assert!(pkg.is_some());
    assert_eq!(detect_package_manager(true, false, false, false, false, &pkg), Some("pnpm"));
    assert_eq!(detect_package_manager(false, false, false, false, false, &pkg), Some("yarn"));
    assert_eq!(detect_package_manager(false, false, false, false, false, &parse_package_json("{}")), Some("npm"));
    assert_eq!(detect_package_manager(false, false, false, false, false, &None), None);
    assert!(parse_package_json("not json").is_none());
}

#[test]
fn commands_follow_the_project_files() {
    let pkg = parse_package_json(r#"{"scripts": {"start": "node .", "check": "tsc"}}"#);
    assert_eq!(detect_bootstrap_command(Some("bun"), true, false, false, true), Some("bun install".to_owned()));
    assert_eq!(detect_bootstrap_command(None, false, true, false, false), Some("python -m pip install -e .".to_owned()));
    assert_eq!(detect_bootstrap_command(None, false, false, false, false), None);
    assert_eq!(detect_run_command(Some("dev:\n"), None, &pkg, Some("pnpm"), true), Some("just dev".to_owned()));
    assert_eq!(detect_run_command(None, Some("serve:\n"), &pkg, Some("pnpm"), true), Some("make serve".to_owned()));
    assert_eq!(detect_run_command(None, None, &pkg, Some("pnpm"), true), Some("pnpm start".to_owned()));
    assert_eq!(detect_run_command(None, None, &None, None, true), Some("cargo run".to_owned()));
    assert_eq!(detect_test_command(None, None, &pkg, None, false, false, false), Some("npm run check".to_owned()));
    assert_eq!(detect_test_command(None, None, &None, None, false, true, false), Some("pytest".to_owned()));
    assert_eq!(detect_test_command(None, None, &None, None, false, false, true), Some("go test ./...".to_owned()));
    assert_eq!(package_manager_run_command(Some("bun"), "dev"), "bun run dev");
    assert_eq!(package_manager_run_command(None, "dev"), "npm run dev");
}

#[test]
fn repo_shape_and_license_source() {
    assert_eq!(detect_repo_shape(false, Some("[workspace]\nmembers = []"), None), "monorepo_root");
    assert_eq!(detect_repo_shape(false, None, Some("{\"workspaces\": []}")), "monorepo_root");
    assert_eq!(detect_repo_shape(false, Some("[package]"), None), "single_project");
    assert_eq!(detect_license_source(Some("LICENSE"), None, &None), Some("LICENSE".to_owned()));
    assert_eq!(
        detect_license_source(None, Some("license = \"MIT\""), &None),
        Some("Cargo.toml (MIT)".to_owned())
    );
    let pkg = parse_package_json(r#"{"license": "ISC"}"#);
    assert_eq!(detect_license_source(None, None, &pkg), Some("package.json (ISC)".to_owned()));
}
