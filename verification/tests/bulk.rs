use nanite::cli::{bulk_destination, overwrite_prompt, BulkSummary};

#[test]
fn overwrite_prompts_count_the_existing_destinations() {
    assert_eq!(overwrite_prompt(1), "1 destination already exists. Overwrite it?");
    assert_eq!(overwrite_prompt(3), "3 destinations already exist. Overwrite them?");
}

#[test]
fn bulk_summaries_list_skipped_and_failed_repositories() {
    let summary = BulkSummary {
        cloned: 2,
        skipped: vec![("https://github.com/o/a.git".to_owned(), "already exists".to_owned())],
        failed: vec![("https://github.com/o/b.git".to_owned(), "failed to fetch".to_owned())],
    };
    assert_eq!(
        summary.lines(),
        vec![
            "cloned 2, skipped 1, failed 1".to_owned(),
            "  ~ https://github.com/o/a.git (already exists)".to_owned(),
            "  x https://github.com/o/b.git \u{2014} failed to fetch".to_owned(),
        ]
    );
    let empty = BulkSummary { cloned: 0, skipped: vec![], failed: vec![] };
    assert_eq!(empty.lines(), vec!["cloned 0, skipped 0, failed 0".to_owned()]);
}

#[test]
fn bulk_destinations_follow_the_workspace_layout() {
    assert_eq!(bulk_destination("/ws/repos", "https://github.com/o/a.git"), "/ws/repos/github.com/o/a");
    assert_eq!(bulk_destination("/ws/repos", "git@gitlab.com:g/sub/p.git"), "/ws/repos/gitlab.com/g/sub/p");
    assert_eq!(bulk_destination("/ws/repos", "not a remote"), "/ws/repos/__unparseable__");
}

#[test]
fn bulk_steps_skip_existing_destinations_unless_overwriting() {
    let mut summary = BulkSummary::new();
    assert!(!summary.skip_or_clone("https://github.com/o/a.git", true, false));
    assert!(summary.skip_or_clone("https://github.com/o/b.git", true, true));
    assert!(summary.skip_or_clone("https://github.com/o/c.git", false, false));
    summary.record_clone("https://github.com/o/b.git", Ok(()));
    summary.record_clone("https://github.com/o/c.git", Err("failed to fetch".to_owned()));
    assert_eq!(
        summary.lines(),
        vec![
            "cloned 1, skipped 1, failed 1".to_owned(),
            "  ~ https://github.com/o/a.git (already exists)".to_owned(),
            "  x https://github.com/o/c.git \u{2014} failed to fetch".to_owned(),
        ]
    );
}
