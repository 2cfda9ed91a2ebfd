use nanite::agent_command::{
    agent_failure, agent_launch_failure, claude_print_args, codex_exec_args, last_agent_output_line,
};
use nanite::context::truncate_for_context;

#[test]
fn agents_that_cannot_start_are_named() {
    assert_eq!(agent_launch_failure("codex"), "failed to launch codex");
}

#[test]
fn codex_runs_read_only_and_writes_its_last_message_to_a_file() {
    let args = codex_exec_args("/tmp/work", "/tmp/work/out.txt", "write it");
    assert_eq!(
        args,
        vec![
            "exec", "--model", "gpt-5.4-mini", "--cd", "/tmp/work", "--skip-git-repo-check", "--sandbox",
            "read-only", "--ephemeral", "-o", "/tmp/work/out.txt", "write it",
        ]
    );
}

#[test]
fn claude_prints_text_without_tools() {
    let args = claude_print_args("write it");
    assert_eq!(args, vec!["-p", "--no-session-persistence", "--output-format", "text", "--tools", "", "write it"]);
}

#[test]
fn the_last_non_blank_line_comes_from_stdout_before_stderr() {
    assert_eq!(last_agent_output_line("warn: a\n", "done  \n\n  "), Some("done".to_owned()));
    assert_eq!(last_agent_output_line("  error: boom \n", "\n"), Some("error: boom".to_owned()));
    assert_eq!(last_agent_output_line("", "   \n"), None);
}

#[test]
fn agent_failures_name_the_status_and_the_last_line() {
    assert_eq!(
        agent_failure("codex", "exit status: 1", "fatal: no model\n", ""),
        "codex exited with status exit status: 1: fatal: no model"
    );
    assert_eq!(agent_failure("codex", "exit status: 2", "", ""), "codex exited with status exit status: 2");
}

#[test]
fn short_snippets_are_kept_whole() {
    assert_eq!(truncate_for_context("fn main() {}"), "fn main() {}");
    let exact = "a".repeat(4096);
    assert_eq!(truncate_for_context(&exact), exact);
}

#[test]
fn long_snippets_are_cut_on_a_character_boundary() {
    let long = "b".repeat(5000);
    assert_eq!(truncate_for_context(&long), format!("{}...", "b".repeat(4096)));

    let wide = format!("{}é", "a".repeat(4095));
    assert_eq!(truncate_for_context(&wide), format!("{}...", "a".repeat(4095)));
}
