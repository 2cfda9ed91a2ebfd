use nanite::skills::{
    classify_sync, diff_trees, render_skill_md, target_reasons, ExistingTargetKind, InstallEntry, ClaudeOverrides, FileDiff, ProviderOverrides, SkillMetadata, SyncAction,
    SyncReason, SyncTarget,
};

fn diff() -> FileDiff {
    FileDiff { added: vec!["SKILL.md".to_owned()], changed: vec![], removed: vec![] }
}

fn target(reasons: Vec<SyncReason>) -> SyncTarget {
    SyncTarget { path: "/tmp/skills/example".to_owned(), reasons }
}

#[test]
fn sync_actions_follow_the_reasons() {
    assert_eq!(classify_sync(&vec![target(vec![])]), SyncAction::Unchanged);
    assert_eq!(classify_sync(&vec![target(vec![SyncReason::Missing { diff: diff() }])]), SyncAction::Create);
    assert_eq!(classify_sync(&vec![target(vec![SyncReason::NotSymlink])]), SyncAction::Override);
    assert_eq!(
        classify_sync(&vec![target(vec![SyncReason::Missing { diff: diff() }, SyncReason::NotDirectory])]),
        SyncAction::Override
    );
    assert_eq!(classify_sync(&vec![]), SyncAction::Unchanged);
    assert_eq!(SyncAction::Create.as_str(), "create");
    assert_eq!(SyncAction::Override.as_str(), "override");
    assert_eq!(SyncAction::Unchanged.as_str(), "unchanged");
}

#[test]
fn skill_md_has_frontmatter_then_body() {
    let metadata = SkillMetadata {
        name: "example-skill".to_owned(),
        description: "Summarize a repository".to_owned(),
        triggers: vec![],
        tags: vec![],
        providers: ProviderOverrides { claude: ClaudeOverrides { description: None } },
    };
    assert_eq!(
        render_skill_md(&metadata, "Read the repository and summarize it.\n"),
        "---\nname: example-skill\ndescription: Summarize a repository\n---\nRead the repository and summarize it.\n"
    );
}

#[test]
fn file_diff_emptiness() {
    assert!(!diff().is_empty());
    assert!(FileDiff { added: vec![], changed: vec![], removed: vec![] }.is_empty());
}

fn tree(files: &[(&str, &str)]) -> Vec<(String, Vec<u8>)> {
    files.iter().map(|(p, c)| (p.to_string(), c.as_bytes().to_vec())).collect()
}

#[test]
fn tree_diff_lists_added_changed_and_removed_paths() {
    let existing = tree(&[("SKILL.md", "old"), ("notes.md", "same"), ("stale.md", "x")]);
    let rendered = tree(&[("SKILL.md", "new"), ("notes.md", "same"), ("scripts/run.sh", "echo")]);

    let d = diff_trees(&existing, &rendered);

    assert_eq!(d.added, vec!["scripts/run.sh".to_owned()]);
    assert_eq!(d.changed, vec!["SKILL.md".to_owned()]);
    assert_eq!(d.removed, vec!["stale.md".to_owned()]);
    assert!(diff_trees(&rendered, &rendered).is_empty());
}

#[test]
fn a_diff_against_nothing_adds_every_file() {
    let rendered = tree(&[("SKILL.md", "a"), ("refs/x.md", "b")]);
    let d = FileDiff::from_rendered(&rendered);
    assert_eq!(d.added, vec!["SKILL.md".to_owned(), "refs/x.md".to_owned()]);
    assert!(d.changed.is_empty() && d.removed.is_empty());
}

#[test]
fn install_targets_give_their_reasons() {
    let rendered = tree(&[("SKILL.md", "a")]);
    let none: Vec<(String, Vec<u8>)> = Vec::new();

    let absent = target_reasons("/r/s", &InstallEntry::Absent, ExistingTargetKind::Missing, &none, &rendered);
    assert_eq!(absent.len(), 1);
    assert!(matches!(&absent[0], SyncReason::Missing { diff } if diff.added == vec!["SKILL.md".to_owned()]));

    let linked = target_reasons(
        "/r/s", &InstallEntry::Link("/r/s".to_owned()), ExistingTargetKind::Directory, &rendered, &rendered,
    );
    assert!(linked.is_empty());

    let wrong = target_reasons(
        "/r/s", &InstallEntry::Link("/elsewhere".to_owned()), ExistingTargetKind::Directory, &none, &rendered,
    );
    assert_eq!(wrong.len(), 2);
    assert!(matches!(&wrong[0], SyncReason::WrongSymlink { expected, actual } if expected == "/r/s" && actual == "/elsewhere"));
    assert!(matches!(&wrong[1], SyncReason::ContentChanged { diff } if diff.added == vec!["SKILL.md".to_owned()]));

    let plain = target_reasons("/r/s", &InstallEntry::Other, ExistingTargetKind::NotDirectory, &none, &rendered);
    assert!(matches!(plain.as_slice(), [SyncReason::NotSymlink, SyncReason::NotDirectory]));
}
