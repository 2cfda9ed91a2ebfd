use nanite::context::{inventory_dirs, inventory_lines, workspace_inventory};
use nanite::sorting::sort_strings;

fn names(list: &[&str]) -> Vec<String> {
    list.iter().map(|s| s.to_string()).collect()
}

#[test]
fn names_sort_in_string_order() {
    assert_eq!(sort_strings(&names(&["web", "api", "Zed", "api2", "api"])), names(&["Zed", "api", "api", "api2", "web"]));
    assert_eq!(sort_strings(&Vec::new()), Vec::<String>::new());
}

#[test]
fn the_inventory_lists_apps_packages_and_crates() {
    assert_eq!(inventory_dirs(), vec!["apps", "packages", "crates"]);
}

#[test]
fn the_inventory_has_one_sorted_section_per_non_empty_directory() {
    let listings = vec![
        ("apps".to_owned(), names(&["web", "admin"])),
        ("packages".to_owned(), Vec::new()),
        ("crates".to_owned(), names(&["nanite-core"])),
    ];
    let inventory = workspace_inventory(&listings);
    assert_eq!(inventory.as_deref(), Some("[apps]\n- admin\n- web\n\n[crates]\n- nanite-core"));
    assert_eq!(
        inventory_lines(&inventory),
        names(&["[apps]; - admin; - web", "[crates]; - nanite-core"])
    );
}

#[test]
fn long_directories_are_cut_to_twelve_names() {
    let many: Vec<String> = (0..20).map(|i| format!("pkg{i:02}")).rev().collect();
    let inventory = workspace_inventory(&vec![("packages".to_owned(), many)]).unwrap();
    assert_eq!(inventory.lines().count(), 13);
    assert!(inventory.ends_with("- pkg11"));
}

#[test]
fn an_empty_workspace_has_no_inventory() {
    assert_eq!(workspace_inventory(&vec![("apps".to_owned(), Vec::new())]), None);
    assert!(inventory_lines(&None).is_empty());
}

#[test]
fn agents_see_a_fixed_list_of_repository_files() {
    let candidates = nanite::context::snippet_candidates();
    assert_eq!(candidates.len(), 15);
    assert_eq!(candidates[0], "Cargo.toml");
    assert_eq!(candidates[14], "docs/README.md");
}

#[test]
fn at_most_eight_workflows_are_shown_in_sorted_order() {
    let files: Vec<String> = (0..10).map(|i| format!("w{i}.yml")).rev().collect();
    let paths = nanite::context::workflow_snippet_paths(&files);
    assert_eq!(paths.len(), 8);
    assert_eq!(paths[0], ".github/workflows/w0.yml");
    assert_eq!(paths[7], ".github/workflows/w7.yml");
}

#[test]
fn snippets_are_cut_to_the_limit() {
    let snippet = nanite::context::context_snippet("README.md", &"x".repeat(5000));
    assert_eq!(snippet.path, "README.md");
    assert_eq!(snippet.content.len(), 4096 + 3);
}
