use nanite::registry::{
    jumpto_fzf_args, jumpto_selected_path, render_jumpto_candidates, ProjectRecord, Registry, SourceKind,
};

#[test]
fn jumpto_uses_styled_fzf_arguments() {
    let args = jumpto_fzf_args();

    assert!(args.contains(&"--layout=reverse"));
    assert!(args.contains(&"--border"));
    assert!(args.contains(&"--with-nth=1"));
    assert!(args.contains(&"--prompt=jumpto > "));
    assert!(args.contains(&"--header=Open a repository"));
    assert!(args.contains(
        &"--color=border:8,header:12,prompt:10,pointer:14,marker:11,info:8,spinner:10,hl:14,hl+:14"
    ));
}

fn record(name: &str, repo_path: &str) -> ProjectRecord {
    ProjectRecord {
        name: name.to_owned(),
        host: "github.com".to_owned(),
        repo_path: repo_path.to_owned(),
        path: format!("/tmp/github.com/{repo_path}"),
        origin: format!("https://github.com/{repo_path}.git"),
        source_kind: SourceKind::Clone,
        last_seen: time::OffsetDateTime::now_utc(),
    }
}

#[test]
fn jumpto_candidates_align_name_and_repo_columns() {
    let records = [record("nanite", "icepuma/nanite"), record("rawkode-academy", "rawkode-academy/rawkode-academy")];

    let rendered = render_jumpto_candidates(records.iter().collect());

    assert_eq!(rendered[0], "nanite           github.com/icepuma/nanite\t/tmp/github.com/icepuma/nanite");
    assert_eq!(
        rendered[1],
        "rawkode-academy  github.com/rawkode-academy/rawkode-academy\t/tmp/github.com/rawkode-academy/rawkode-academy"
    );
}

#[test]
fn registry_keeps_one_record_per_path_in_order() {
    let mut registry = Registry::new();
    registry.upsert(record("b", "x/b"));
    registry.upsert(record("a", "x/a"));
    let mut again = record("a2", "x/a");
    again.source_kind = SourceKind::Scan;
    registry.upsert(again);
    let entries = registry.entries();
    assert_eq!(entries.len(), 2);
    assert_eq!(entries[0].path, "/tmp/github.com/x/a");
    assert_eq!(entries[0].name, "a2");
    assert_eq!(entries[1].name, "b");

    let removed = registry.remove_path("/tmp/github.com/x/b").unwrap();
    assert_eq!(removed.name, "b");
    assert!(registry.remove_path("/tmp/github.com/x/b").is_none());
    assert_eq!(registry.entries().len(), 1);
}

#[test]
fn empty_registry_renders_no_candidates() {
    let registry = Registry::new();
    assert!(render_jumpto_candidates(registry.entries()).is_empty());
}

#[test]
fn fzf_selection_gives_the_second_field() {
    assert_eq!(
        jumpto_selected_path("nanite  github.com/icepuma/nanite\t/ws/github.com/icepuma/nanite\n").ok().unwrap(),
        Some("/ws/github.com/icepuma/nanite".to_owned())
    );
    assert_eq!(jumpto_selected_path("  \n").ok().unwrap(), None);
    assert_eq!(jumpto_selected_path("no tab here").err().unwrap(), "fzf returned an invalid selection");
}
