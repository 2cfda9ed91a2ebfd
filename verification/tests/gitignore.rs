use nanite::gitignore::{
    catalog, metadata_from_relative_path, parse_non_tty_selection, render_gitignore,
    resolve_selection_token, sort_templates_by_catalog_order, preview_lines,
    gitignore_detail_lines, GitignoreTemplate, SelectionError,
};

#[test]
fn catalog_contains_known_entries_and_is_sorted() {
    let templates = catalog();

    assert!(templates.iter().any(|template| template.id == "root/rust"));
    assert!(templates.iter().any(|template| template.id == "root/java"));
    assert!(templates.iter().any(|template| template.id == "root/kotlin"));

    let sorted = templates.windows(2).all(|pair| match pair {
        [left, right] => {
            left.label < right.label || (left.label == right.label && left.group <= right.group)
        }
        _ => true,
    });
    assert!(sorted, "embedded gitignore catalog should be sorted");
}

#[test]
fn nested_path_metadata_is_derived_consistently() {
    let entry = metadata_from_relative_path("community/Java/Maven.gitignore").unwrap();

    assert_eq!(entry.id, "community/java/maven");
    assert_eq!(entry.label, "maven");
    assert_eq!(entry.group, "community/java");
    assert_eq!(entry.display, "maven [community/java]");
    assert_eq!(entry.source_path, "community/Java/Maven.gitignore");
}

#[test]
fn derives_metadata_for_nested_paths() {
    let metadata = metadata_from_relative_path("community/Java/Maven.gitignore").unwrap();

    assert_eq!(metadata.id, "community/java/maven");
    assert_eq!(metadata.label, "maven");
    assert_eq!(metadata.group, "community/java");
    assert_eq!(metadata.display, "maven [community/java]");
    assert_eq!(metadata.source_path, "community/Java/Maven.gitignore");
}

#[test]
fn slugifies_symbols_for_ids() {
    let metadata = metadata_from_relative_path("root/C++.gitignore").unwrap();

    assert_eq!(metadata.id, "root/c-plus-plus");
    assert_eq!(metadata.label, "c++");
}

#[test]
fn non_tty_selection_accepts_indexes_ids_labels_and_source_paths() {
    let templates = catalog();

    let selected =
        parse_non_tty_selection(&templates, "1, root/kotlin, rust [root], Rust.gitignore").unwrap();

    assert_eq!(selected.len(), 3);
    assert!(selected.iter().any(|template| template.id == "root/kotlin"));
    assert!(selected.iter().any(|template| template.id == "root/rust"));
}

#[test]
fn selected_templates_are_sorted_by_catalog_order() {
    let templates = catalog();
    let mut selected = vec![
        templates.iter().find(|template| template.id == "root/rust").unwrap(),
        templates.iter().find(|template| template.id == "root/java").unwrap(),
    ];

    sort_templates_by_catalog_order(&templates, &mut selected).unwrap();

    assert_eq!(selected[0].id, "root/java");
    assert_eq!(selected[1].id, "root/rust");
}

#[test]
fn labels_always_include_group_context() {
    let templates = catalog();
    let template = templates.iter().find(|template| template.id == "root/rust").unwrap();

    assert_eq!(template.display, "rust [root]");
}

#[test]
fn ambiguous_label_requires_full_match() {
    let templates = [
        GitignoreTemplate::new("root/node", "node", "root", "node [root]", "root/Node.gitignore", "node"),
        GitignoreTemplate::new(
            "community/javascript/node",
            "node",
            "community/javascript",
            "node [community/javascript]",
            "community/JavaScript/Node.gitignore",
            "node2",
        ),
    ];

    let error = resolve_selection_token(&templates, "node").unwrap_err().message();
    assert!(error.contains("matched multiple templates"));
}

#[test]
fn render_normalizes_spacing_and_trailing_newline() {
    let templates = [
        GitignoreTemplate::new("root/a", "a", "root", "a [root]", "root/A.gitignore", "one\n"),
        GitignoreTemplate::new("root/b", "b", "root", "b [root]", "root/B.gitignore", "two\n\n"),
    ];

    let rendered = render_gitignore(&[&templates[0], &templates[1]]);

    assert_eq!(rendered, "# --- a ---\none\n\n# --- b ---\ntwo\n");
}

#[test]
fn duplicate_labels_use_full_display_in_separator() {
    let templates = [
        GitignoreTemplate::new("root/node", "node", "root", "node [root]", "root/Node.gitignore", "one\n"),
        GitignoreTemplate::new(
            "community/javascript/node",
            "node",
            "community/javascript",
            "node [community/javascript]",
            "community/JavaScript/Node.gitignore",
            "two\n",
        ),
    ];

    let rendered = render_gitignore(&[&templates[0], &templates[1]]);

    assert!(rendered.contains("# --- node [root] ---"));
    assert!(rendered.contains("# --- node [community/javascript] ---"));
}

#[test]
fn single_template_render_stays_unwrapped() {
    let templates = [GitignoreTemplate::new("root/a", "a", "root", "a [root]", "root/A.gitignore", "one\n")];

    let rendered = render_gitignore(&[&templates[0]]);

    assert_eq!(rendered, "one\n");
}

#[test]
fn selection_errors_name_the_token() {
    let templates = catalog();
    assert_eq!(
        parse_non_tty_selection(&templates, "99").unwrap_err(),
        SelectionError::InvalidIndex("99".to_owned())
    );
    assert_eq!(
        parse_non_tty_selection(&templates, " , ").unwrap_err().message(),
        "select at least one template"
    );
    assert_eq!(
        resolve_selection_token(&templates, "cobol").unwrap_err().message(),
        "`cobol` did not match any gitignore template"
    );
    let first = parse_non_tty_selection(&templates, "0, 1").unwrap();
    assert_eq!(first.len(), 1);
    assert_eq!(first[0].id, templates[0].id);
}

#[test]
fn sort_refuses_templates_outside_the_catalog() {
    let templates = catalog();
    let stranger = GitignoreTemplate::new("root/x", "x", "root", "x [root]", "X.gitignore", "x\n");
    let mut selected = vec![&templates[1], &stranger];
    let error = sort_templates_by_catalog_order(&templates, &mut selected).unwrap_err();
    assert_eq!(error.message(), "selected template `root/x` was not in the catalog");
    assert_eq!(selected[0].id, templates[1].id);
}

#[test]
fn preview_truncates_and_marks_empty_bodies() {
    assert_eq!(preview_lines("a\nb\nc\n", 2), vec!["a", "b", "..."]);
    assert_eq!(preview_lines("", 10), vec!["(empty template)"]);
    assert_eq!(preview_lines("x\r\ny", 10), vec!["x", "y"]);
    let templates = catalog();
    let lines = gitignore_detail_lines(&templates[0]);
    assert_eq!(lines[0], "Bundled from github/gitignore");
    assert_eq!(lines[2], format!("ID: {}", templates[0].id));
    assert_eq!(lines[5], "Preview:");
}

#[test]
fn metadata_rejects_paths_without_a_file_name() {
    assert_eq!(
        metadata_from_relative_path("").unwrap_err(),
        "invalid gitignore file name: "
    );
    assert!(metadata_from_relative_path("a/..").is_err());
    let top = metadata_from_relative_path("Rust.gitignore").unwrap();
    assert_eq!(top.id, "root/rust");
    assert_eq!(top.display, "rust [root]");
}

#[test]
fn slugs_spell_symbols_and_keep_single_inner_dashes() {
    assert_eq!(nanite::naming::slugify_name("C#"), "c-sharp");
    assert_eq!(nanite::naming::slugify_name("C++"), "c-plus-plus");
    let slug = nanite::naming::slugify_name("--Visual Studio__Code!!");
    assert_eq!(slug, "visual-studio-code");
    assert!(slug.chars().all(|c| c.is_ascii_lowercase() || c.is_ascii_digit() || c == '-'));
    assert!(!slug.starts_with('-') && !slug.ends_with('-') && !slug.contains("--"));
}
