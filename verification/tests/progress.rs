use nanite::progress::{truncate_progress_detail, InitProgressModel, InitStepState};

#[test]
fn agent_runs_have_eight_steps() {
    let progress = InitProgressModel::new("default".to_owned(), 2, true);
    let labels: Vec<&str> = progress.steps.iter().map(|step| step.label.as_str()).collect();
    assert_eq!(
        labels,
        vec![
            "Select bundle",
            "Collect text inputs",
            "Inspect repository context",
            "Generate AI fragments",
            "Verify outputs",
            "Repair failing sections",
            "Re-verify outputs",
            "Write files",
        ]
    );
    assert_eq!(progress.generate_step_index(), 3);
    assert_eq!(progress.write_index, 7);
}

#[test]
fn static_runs_fall_back_to_the_write_step() {
    let progress = InitProgressModel::new("default".to_owned(), 1, false);
    assert_eq!(progress.steps.len(), 3);
    assert_eq!(progress.inspect_step_index(), 2);
    assert_eq!(progress.verify_step_index(), 2);
    assert_eq!(progress.repair_step_index(), 2);
    assert_eq!(progress.reverify_step_index(), 2);
}

#[test]
fn the_view_dwells_on_failures_then_active_then_last_done() {
    let mut progress = InitProgressModel::new("default".to_owned(), 1, true);
    assert_eq!(progress.current_step_index(), None);
    assert_eq!(progress.last_milestone(), "pending Select bundle");
    progress.mark_done(0, Some("default".to_owned()));
    progress.mark_done(1, None);
    assert_eq!(progress.current_step_index(), Some(1));
    assert_eq!(progress.last_milestone(), "done Collect text inputs");
    progress.start(3, Some("5 fragments".to_owned()));
    assert_eq!(progress.current_step_index(), Some(3));
    assert_eq!(progress.last_milestone(), "active Generate AI fragments: 5 fragments");
    progress.fail(2, "no agent".to_owned());
    assert_eq!(progress.current_step_index(), Some(2));
    assert_eq!(progress.steps[2].status, InitStepState::Failed);
    let lines = progress.step_lines();
    assert!(lines[2].highlighted);
    assert_eq!(lines[2].icon, "×");
    assert_eq!(lines[3].icon, "▶");
    assert_eq!(lines[0].detail.as_deref(), Some("default"));
    assert_eq!(
        progress.detail_lines(),
        vec![
            "Failed  Inspect repository context".to_owned(),
            String::new(),
            "no agent".to_owned(),
            String::new(),
            "Nanite will restore the terminal when this run completes.".to_owned(),
        ]
    );
}

#[test]
fn details_are_compacted_and_cut() {
    assert_eq!(truncate_progress_detail("  a \n b\t c  "), "a b c");
    let long = "x".repeat(80);
    let cut = truncate_progress_detail(&long);
    assert_eq!(cut.chars().count(), 73);
    assert!(cut.ends_with('…'));
    assert_eq!(truncate_progress_detail("   "), "");
}

#[test]
fn header_names_bundle_and_file_count() {
    let progress = InitProgressModel::new("web".to_owned(), 4, false);
    assert_eq!(
        progress.header_lines(),
        vec![
            "bundle: web".to_owned(),
            "Preparing 4 file(s) in the current repository".to_owned(),
            "Track bundle selection, AI generation, verification, and file writes.".to_owned(),
        ]
    );
    assert_eq!(
        progress.detail_lines(),
        vec!["Waiting for work".to_owned(), String::new(), "The selected bundle is ready to render.".to_owned()]
    );
}

fn gauge(position: usize, total: Option<usize>) -> Result<(u16, String), String> {
    match nanite::progress::clone_gauge(position, total) {
        nanite::progress::CloneGauge::Bar { percent, label } => Ok((percent, label)),
        nanite::progress::CloneGauge::Steps(s) => Err(s),
    }
}

#[test]
fn clone_gauge_shows_percent_and_capped_position() {
    assert_eq!(gauge(5, Some(10)), Ok((50, "5/10".to_owned())));
    assert_eq!(gauge(15, Some(10)), Ok((100, "10/10".to_owned())));
    assert_eq!(gauge(1, Some(3)), Ok((33, "1/3".to_owned())));
    assert_eq!(gauge(usize::MAX, Some(usize::MAX)), Ok((1, format!("{}/{}", usize::MAX, usize::MAX))));
}

#[test]
fn clone_gauge_counts_steps_without_a_total() {
    assert_eq!(gauge(3, None), Err("3 steps reported".to_owned()));
    assert_eq!(gauge(0, Some(0)), Err("0 steps reported".to_owned()));
}

#[test]
fn rendered_reports_failures_then_work_then_the_last_done_step() {
    let mut progress = InitProgressModel::new("default".to_owned(), 1, false);
    assert_eq!(progress.rendered(), "waiting");
    assert_eq!(InitProgressModel::select_step_index(), 0);
    assert_eq!(InitProgressModel::collect_inputs_step_index(), 1);
    progress.mark_done(InitProgressModel::select_step_index(), None);
    assert!(progress.rendered().starts_with("done "));
    let write = progress.write_step_index();
    progress.start(write, Some("README.md".to_owned()));
    assert!(progress.rendered().starts_with("working "));
    assert!(progress.rendered().ends_with(": README.md"));
    progress.fail(write, "disk full".to_owned());
    assert!(progress.rendered().starts_with("failed "));
    assert!(progress.rendered().ends_with(": disk full"));
}
