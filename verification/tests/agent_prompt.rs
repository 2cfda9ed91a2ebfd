use nanite::agent_prompt::{
    build_ai_fragment_prompt, build_repair_jobs, format_readme_verifier_messages, fragment_count_detail,
    render_context_snippets, render_fragment_contract, render_fragment_examples, render_values,
    validate_ai_fragment_output, AiFragmentRequest,
};
use nanite::context::{ContextBundle, ContextSnippet, RepoContextFacts};
use nanite::readme::{ReadmeVerificationFinding, ReadmeVerificationReport};
use nanite::templates::{AiFragment, AiPlaceholder, ReadmeFragmentRole};
use nanite::value_map::ValueMap;

fn context(snippets: Vec<ContextSnippet>) -> ContextBundle {
    ContextBundle {
        facts: RepoContextFacts {
            repo_name: "nanite".to_owned(),
            repo_shape: "single_project".to_owned(),
            ci_workflows: vec![],
            license_source: None,
            bootstrap_command: None,
            run_command: None,
            test_command: None,
            docs_present: vec![],
            workspace_inventory: vec![],
        },
        summary_lines: vec!["- Repo name: nanite".to_owned()],
        snippets,
    }
}

#[test]
fn prompt_holds_each_section_in_order() {
    let mut values = ValueMap::new();
    values.insert("project_name".to_owned(), "nanite".to_owned());
    let request = AiFragmentRequest {
        target_path: "/tmp/project/README.md".to_owned(),
        target_file: "README.md".to_owned(),
        template_source_path: "/tmp/README.md".to_owned(),
        values,
        fragment_index: 4,
        display_label: "Tests".to_owned(),
        fragment_prompt: "tests".to_owned(),
        active_sentinel: "[[NANITE_FRAGMENT_5]]".to_owned(),
        document: "# nanite\n[[NANITE_FRAGMENT_5]]".to_owned(),
        context: context(vec![ContextSnippet { path: "Cargo.toml".to_owned(), content: "[package]".to_owned() }]),
        readme_role: Some(ReadmeFragmentRole::Tests),
        repair_notes: vec!["tests must use the explicit fallback".to_owned()],
    };
    let prompt = build_ai_fragment_prompt(&request);
    assert!(prompt.starts_with("<task>\nReplace one AI template fragment in `README.md`."));
    assert!(prompt.contains("- Index: 5\n- Label: Tests\n- Active sentinel: `[[NANITE_FRAGMENT_5]]`\n- Prompt: tests\n"));
    assert!(prompt.contains("<repair>\n- tests must use the explicit fallback\n</repair>"));
    assert!(prompt.contains("<values>\n- project_name: nanite\n</values>"));
    assert!(prompt.contains("<snippet path=\"Cargo.toml\">\n[package]\n</snippet>"));
    assert!(prompt.contains("```md\n# nanite\n[[NANITE_FRAGMENT_5]]\n```"));
    assert!(prompt.ends_with("<example>\n- No verified test command was found.\n</example>\n</examples>\n"));
    let order = ["<task>", "<fragment>", "<contract>", "<repair>", "<values>", "<repo_brief>", "<context_files>", "<document>", "<examples>"];
    let positions: Vec<usize> = order.iter().map(|tag| prompt.find(tag).unwrap()).collect();
    assert!(positions.windows(2).all(|pair| pair[0] < pair[1]));
}

#[test]
fn contracts_and_examples_follow_the_role() {
    assert!(render_fragment_contract(Some(ReadmeFragmentRole::Overview)).contains("- Write 2 or 3 sentences only."));
    assert_eq!(render_fragment_contract(None).lines().count(), 4);
    assert!(render_fragment_examples(Some(ReadmeFragmentRole::Badges)).is_none());
    assert!(render_fragment_examples(None).is_none());
    assert_eq!(render_fragment_examples(Some(ReadmeFragmentRole::Tests)).unwrap().matches("<example>").count(), 2);
    assert_eq!(render_values(&ValueMap::new()), "(none)");
    assert_eq!(render_context_snippets(&context(vec![])), "(none)");
}

#[test]
fn agent_output_is_trimmed_and_checked() {
    assert_eq!(validate_ai_fragment_output("  - a bullet\n"), Ok("- a bullet".to_owned()));
    assert_eq!(
        validate_ai_fragment_output("```md\nx\n```"),
        Err("agent output must not contain code fences".to_owned())
    );
    assert_eq!(validate_ai_fragment_output("---"), Err("agent output must not contain frontmatter".to_owned()));
    assert_eq!(
        validate_ai_fragment_output(" ---\nname: x"),
        Err("agent output must not contain frontmatter".to_owned())
    );
}

fn finding(index: Option<usize>, repairable: bool, message: &str) -> ReadmeVerificationFinding {
    ReadmeVerificationFinding {
        fragment_index: index,
        fragment_label: index.map(|_| "Overview".to_owned()),
        repairable,
        message: message.to_owned(),
    }
}

fn fragment(index: usize, label: &str) -> AiFragment {
    AiFragment {
        placeholder: AiPlaceholder { index, prompt: "p".to_owned() },
        label: label.to_owned(),
        readme_role: None,
    }
}

#[test]
fn repair_jobs_collect_notes_per_fragment() {
    let report = ReadmeVerificationReport {
        findings: vec![
            finding(Some(3), true, "first"),
            finding(Some(1), true, "second"),
            finding(None, false, "structure"),
            finding(Some(3), true, "third"),
        ],
    };
    let jobs = build_repair_jobs(&vec![fragment(1, "one"), fragment(3, "three")], &report).ok().unwrap();
    assert_eq!(jobs.len(), 2);
    assert_eq!(jobs[0].fragment.label, "one");
    assert_eq!(jobs[0].notes, vec!["second"]);
    assert_eq!(jobs[1].fragment.label, "three");
    assert_eq!(jobs[1].notes, vec!["first", "third"]);
    let error = build_repair_jobs(&vec![fragment(1, "one")], &report).err().unwrap();
    assert_eq!(error, "missing README fragment metadata for repair index 3");
    assert_eq!(format_readme_verifier_messages(&report), "Overview: first; Overview: second; structure; Overview: third");
}

#[test]
fn fragment_counts_use_plurals() {
    assert_eq!(fragment_count_detail(1, 1), "1 fragment across 1 file");
    assert_eq!(fragment_count_detail(5, 2), "5 fragments across 2 files");
    assert_eq!(fragment_count_detail(0, 0), "0 fragments across 0 files");
}
