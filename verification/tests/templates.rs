use nanite::bundle::{
    template_builtin_values, PreparedTemplate, Prompter, PromptError, StaticPrompter, TemplateBundle,
    TemplateRepository, TemplateVariant,
};
use nanite::context::{ContextBundle, RepoContextFacts};
use nanite::frontmatter::FrontmatterSplitError;
use nanite::template_sources::{template_from_source, BundleSource, TemplateLoadError};
use nanite::render::{ai_values_for, render_expression, GeneratedFragment, RenderFailure};
use nanite::templates::{
    ai_sentinel, parse_template_fragments, AiPlaceholder, ReadmeFragmentRole, TemplateFragment,
    TextPlaceholder,
};
use nanite::value_map::ValueMap;
use std::collections::BTreeMap;

fn template(filename: &str, body: &str) -> TemplateVariant {
    TemplateVariant {
        output_name: filename.to_owned(),
        source_path: format!("/tmp/{filename}"),
        fragments: parse_template_fragments(body, "/tmp/template.md").unwrap(),
    }
}

fn answers(pairs: &[(&str, &str)]) -> ValueMap {
    let mut map = ValueMap::new();
    for (name, value) in pairs {
        map.insert((*name).to_owned(), (*value).to_owned());
    }
    map
}

fn value(map: &ValueMap, name: &str) -> String {
    map.get(name).unwrap().clone()
}

fn empty_context() -> ContextBundle {
    ContextBundle {
        facts: RepoContextFacts {
            repo_name: "project".to_owned(),
            repo_shape: "single_project".to_owned(),
            ci_workflows: Vec::new(),
            license_source: None,
            bootstrap_command: None,
            run_command: None,
            test_command: None,
            docs_present: Vec::new(),
            workspace_inventory: Vec::new(),
        },
        summary_lines: Vec::new(),
        snippets: Vec::new(),
    }
}

const README_TEMPLATE: &str = "# {{project_name}}\n\n{{ai:badges}}\n\n{{ai:overview}}\n\n## Quick Start\n\n{{ai:quick start}}\n\n## Usage\n\n{{ai:usage}}\n\n## Tests\n\n{{ai:tests}}\n\n## Contributing\n\n- Follow `CONTRIBUTING.md` when the repository provides it.\n- Keep changes focused and run the relevant checks before handing work off.\n\n## License\n\n- Refer to the repository license files and metadata for the current license terms.\n";

#[test]
fn parses_literal_text_and_ai_fragments_in_order() {
    let fragments =
        parse_template_fragments("# {{project_name}}\n\n{{ai:write summary}}\n", "/tmp/template.md").unwrap();

    assert_eq!(
        fragments,
        vec![
            TemplateFragment::Literal("# ".to_owned()),
            TemplateFragment::Text(TextPlaceholder {
                name: "project_name".to_owned(),
                prompt: "Project Name".to_owned(),
            }),
            TemplateFragment::Literal("\n\n".to_owned()),
            TemplateFragment::Ai(AiPlaceholder { index: 0, prompt: "write summary".to_owned() }),
            TemplateFragment::Literal("\n".to_owned()),
        ]
    );
}

#[test]
fn parses_supported_tera_function_expressions() {
    let fragments = parse_template_fragments(
        "Copyright (c) {{ current_year() }} {{ repo_name() }}\n",
        "/tmp/template.md",
    )
    .unwrap();

    assert_eq!(
        fragments,
        vec![
            TemplateFragment::Literal("Copyright (c) ".to_owned()),
            TemplateFragment::Expression("current_year()".to_owned()),
            TemplateFragment::Literal(" ".to_owned()),
            TemplateFragment::Expression("repo_name()".to_owned()),
            TemplateFragment::Literal("\n".to_owned()),
        ]
    );
}

#[test]
fn rejects_invalid_identifier_placeholders() {
    let error = parse_template_fragments("{{project-name}}", "/tmp/template.md").unwrap_err().message();

    assert!(error.contains("invalid placeholder"));
}

#[test]
fn rejects_malformed_ai_placeholders() {
    let error = parse_template_fragments("{{ai:}}", "/tmp/template.md").unwrap_err().message();
    assert!(error.contains("empty AI placeholder prompt"));

    let error = parse_template_fragments("{{ai:hello\nworld}}", "/tmp/template.md").unwrap_err().message();
    assert!(error.contains("multiline template placeholders"));
}

#[test]
fn repeated_text_placeholders_prompt_once_and_reuse() {
    let mut prompter = StaticPrompter::new(answers(&[("project_name", "nanite")]));
    let prepared = template("README.md", "# {{project_name}}\n\n{{project_name}} keeps things tidy.\n")
        .prepare(&mut prompter)
        .ok()
        .unwrap();

    assert_eq!(value(&prepared.values, "project_name"), "nanite");
    assert_eq!(
        prepared.render_final(&BTreeMap::new()).ok().unwrap(),
        "# nanite\n\nnanite keeps things tidy.\n"
    );
}

#[test]
fn renders_current_year_without_prompting() {
    let mut prompter = StaticPrompter::new(answers(&[("author", "Jane Doe")]));
    let prepared = template("LICENSE", "Copyright (c) {{ current_year() }} {{ author }}\n")
        .prepare(&mut prompter)
        .ok()
        .unwrap();

    let rendered = prepared.render_final(&BTreeMap::new()).ok().unwrap();
    let current_year = time::OffsetDateTime::now_utc().year();

    assert_eq!(rendered, format!("Copyright (c) {current_year} Jane Doe\n"));
}

#[test]
fn renders_repo_name_from_current_path_without_prompting() {
    let mut prompter = StaticPrompter::new(ValueMap::new());
    let prepared = template("README.md", "# {{ repo_name() }}\n")
        .prepare_for_path("/tmp/nanite", &mut prompter)
        .ok()
        .unwrap();

    let rendered = prepared.render_final(&BTreeMap::new()).ok().unwrap();

    assert_eq!(rendered, "# nanite\n");
    assert_eq!(value(&prepared.values, "repo_name"), "nanite");
}

#[test]
fn builds_ai_document_with_active_sentinel_and_prior_replacements() {
    let mut prompter = StaticPrompter::new(answers(&[("project_name", "nanite")]));
    let prepared = template(
        "README.md",
        "# {{project_name}}\n\n{{ai:first block}}\n\n## Usage\n\n{{ai:second block}}\n",
    )
    .prepare(&mut prompter)
    .ok()
    .unwrap();
    let second = prepared.ai_fragments()[1].clone();
    let mut resolved = BTreeMap::new();
    resolved.insert(0, "Resolved summary.".to_owned());

    let request = prepared
        .build_ai_fragment_request_in_year("/tmp/project", empty_context(), &second, &resolved, &Vec::new(), 2026)
        .ok()
        .unwrap();

    assert!(request.document.contains("Resolved summary."));
    assert!(request.document.contains(&ai_sentinel(1)));
    assert!(!request.document.contains("{{ai:first block}}"));
}

#[test]
fn final_render_requires_all_ai_replacements() {
    let prepared = PreparedTemplate {
        output_name: "README.md".to_owned(),
        source_path: "/tmp/README.md".to_owned(),
        fragments: vec![TemplateFragment::Ai(AiPlaceholder { index: 0, prompt: "write summary".to_owned() })],
        values: ValueMap::new(),
    };

    let error = prepared.render_final(&BTreeMap::new()).err().unwrap().message();
    assert!(error.contains("missing AI replacement"));
}

#[test]
fn selection_labels_show_bundle_files_and_output_mapping() {
    let repository = TemplateRepository {
        bundles: vec![TemplateBundle {
            name: "default".to_owned(),
            source_path: "/tmp/templates/default".to_owned(),
            templates: vec![
                TemplateVariant {
                    output_name: "README.md".to_owned(),
                    source_path: "/tmp/templates/default/README.md".to_owned(),
                    fragments: vec![],
                },
                TemplateVariant {
                    output_name: "AGENTS.md".to_owned(),
                    source_path: "/tmp/templates/default/agent-guide.md".to_owned(),
                    fragments: vec![],
                },
            ],
        }],
    };

    assert_eq!(
        repository.selection_labels(),
        vec!["default -> README.md, agent-guide.md -> AGENTS.md".to_owned()]
    );
}

#[test]
fn bundle_prepare_prompts_once_across_multiple_files() {
    let mut prompter = StaticPrompter::new(answers(&[("project_name", "nanite")]));
    let bundle = TemplateBundle {
        name: "default".to_owned(),
        source_path: "/tmp/default".to_owned(),
        templates: vec![template("AGENTS.md", "# {{project_name}}\n"), template("README.md", "# {{project_name}}\n")],
    };

    let prepared = bundle.prepare(&mut prompter).ok().unwrap();

    assert_eq!(value(&prepared.values, "project_name"), "nanite");
    assert_eq!(prepared.templates.len(), 2);
    assert_eq!(value(&prepared.templates[0].values, "project_name"), "nanite");
    assert_eq!(value(&prepared.templates[1].values, "project_name"), "nanite");
}

fn readme_ai_values(overview: &str) -> BTreeMap<usize, String> {
    BTreeMap::from([
        (0, String::new()),
        (1, overview.to_owned()),
        (
            2,
            "- Install dependencies with the verified setup command.\n- Start from the repository root and use the verified run path.\n"
                .to_owned(),
        ),
        (
            3,
            "- Use the documented repository workflow from the repo brief.\n- Keep commands and local structure consistent with the generated docs.\n"
                .to_owned(),
        ),
        (4, "- No verified test command was found.\n".to_owned()),
    ])
}

#[test]
fn readme_verifier_accepts_canonical_structure() {
    let mut prompter = StaticPrompter::new(answers(&[("project_name", "nanite")]));
    let prepared = template("README.md", README_TEMPLATE).prepare(&mut prompter).ok().unwrap();
    let ai_values = readme_ai_values(
        "nanite keeps project files, docs, and workspace routines aligned around one local workflow.\n\nIt reduces repeated setup work and keeps repository bootstrapping predictable.",
    );

    let rendered = prepared.render_final(&ai_values).ok().unwrap();
    let report = prepared.verify_readme(&rendered, &empty_context(), &ai_values);

    assert!(report.is_valid(), "{:?}", report.render_messages());
}

#[test]
fn readme_verifier_flags_invalid_overview_for_repair() {
    let mut prompter = StaticPrompter::new(answers(&[("project_name", "nanite")]));
    let prepared = template("README.md", README_TEMPLATE).prepare(&mut prompter).ok().unwrap();
    let ai_values = readme_ai_values(
        "nanite is a tool. It keeps work moving. It helps with setup. It also standardizes workflows.",
    );

    let rendered = prepared.render_final(&ai_values).ok().unwrap();
    let report = prepared.verify_readme(&rendered, &empty_context(), &ai_values);

    assert!(!report.is_valid());
    assert!(report.repairable_fragment_indexes().contains(&1));
    assert!(report
        .render_messages()
        .iter()
        .any(|message| message.contains("overview must be 2 or 3 sentences")));
}

struct CountingPrompter {
    asked: Vec<String>,
}

impl Prompter for CountingPrompter {
    fn prompt(&mut self, placeholder: &TextPlaceholder) -> Result<String, PromptError> {
        self.asked.push(placeholder.name.clone());
        Ok(format!("value of {}", placeholder.name))
    }
}

#[test]
fn prepare_asks_once_per_unseeded_name() {
    let bundle = TemplateBundle {
        name: "default".to_owned(),
        source_path: "/tmp/default".to_owned(),
        templates: vec![
            template("A.md", "{{author}} {{project_name}} {{author}}\n"),
            template("B.md", "{{project_name}} {{license}}\n"),
        ],
    };
    let mut prompter = CountingPrompter { asked: Vec::new() };
    let prepared = bundle.prepare_with_seed_values(answers(&[("license", "MIT")]), &mut prompter).ok().unwrap();

    assert_eq!(prompter.asked, vec!["author".to_owned(), "project_name".to_owned()]);
    assert_eq!(value(&prepared.values, "license"), "MIT");
    assert_eq!(value(&prepared.values, "author"), "value of author");
    assert_eq!(prepared.values.len(), 3);
}

struct FailingPrompter;

impl Prompter for FailingPrompter {
    fn prompt(&mut self, _placeholder: &TextPlaceholder) -> Result<String, PromptError> {
        Err(PromptError { message: "no input".to_owned() })
    }
}

#[test]
fn prepare_without_pending_names_never_fails() {
    let bundle = TemplateBundle {
        name: "default".to_owned(),
        source_path: "/tmp/default".to_owned(),
        templates: vec![template("A.md", "{{author}}\n")],
    };
    let mut failing = FailingPrompter;
    assert!(bundle.prepare(&mut failing).is_err());
    assert!(bundle.prepare_with_seed_values(answers(&[("author", "Ada")]), &mut failing).is_ok());
}

#[test]
fn static_prompter_answers_empty_for_unknown_names() {
    let prompter = StaticPrompter::new(answers(&[("a", "1")]));
    assert_eq!(prompter.answer("a"), "1");
    assert_eq!(prompter.answer("b"), "");
}

#[test]
fn output_names_are_sorted_and_unique() {
    let repository = TemplateRepository {
        bundles: vec![
            TemplateBundle {
                name: "b".to_owned(),
                source_path: "/t/b".to_owned(),
                templates: vec![template("README.md", "x"), template("LICENSE", "y")],
            },
            TemplateBundle {
                name: "a".to_owned(),
                source_path: "/t/a".to_owned(),
                templates: vec![template("AGENTS.md", "x"), template("README.md", "z")],
            },
        ],
    };
    assert_eq!(repository.output_names(), vec!["AGENTS.md", "LICENSE", "README.md"]);
}

#[test]
fn bundle_lookup_by_label_reports_missing_selection() {
    let repository = TemplateRepository {
        bundles: vec![TemplateBundle {
            name: "default".to_owned(),
            source_path: "/t/default".to_owned(),
            templates: vec![template("README.md", "x")],
        }],
    };
    assert_eq!(repository.bundle_by_selection_label("default -> README.md").ok().unwrap().name, "default");
    assert_eq!(
        repository.bundle_by_selection_label("other").err().unwrap(),
        "no template bundle found for selection `other`"
    );
}

#[test]
fn builtin_values_use_the_directory_name() {
    let values = template_builtin_values("/work/space/widget");
    assert_eq!(value(&values, "repo_name"), "widget");
    let values = template_builtin_values("/");
    assert_eq!(value(&values, "repo_name"), "project");
}

#[test]
fn invalid_expressions_are_reported() {
    let prepared = PreparedTemplate {
        output_name: "X".to_owned(),
        source_path: "/tmp/X".to_owned(),
        fragments: vec![TemplateFragment::Expression("unknown_fn()".to_owned())],
        values: ValueMap::new(),
    };
    let error = prepared.render_final_in_year(&BTreeMap::new(), 2024).err().unwrap();
    assert!(matches!(error.failure, RenderFailure::RenderFailed(_, _)));
    assert_eq!(error.message(), "failed to render `unknown_fn()`");
}

#[test]
fn any_expression_goes_to_the_engine() {
    let values = ValueMap::new();
    let now = render_expression("now()", &values, 2024).ok().unwrap();
    assert!(!now.is_empty());
    assert!(matches!(
        render_expression("unknown_fn()", &values, 2024),
        Err(RenderFailure::RenderFailed(e, _)) if e == "unknown_fn()"
    ));
    assert!(matches!(render_expression("{{", &values, 2024), Err(RenderFailure::InvalidExpression(_, _))));
    assert_eq!(render_expression("current_year()", &values, 2024).ok().unwrap(), "2024");
}

#[test]
fn prepare_with_answers_gives_each_pending_name_its_answer() {
    let bundle = TemplateBundle {
        name: "default".to_owned(),
        source_path: "/tmp/default".to_owned(),
        templates: vec![
            template("A.md", "{{author}} {{project_name}} {{author}}\n"),
            template("B.md", "{{project_name}} {{license}}\n"),
        ],
    };
    let seeds = answers(&[("license", "MIT")]);
    let pending = bundle.pending_prompts(&seeds);
    assert_eq!(pending.iter().map(|p| p.name.clone()).collect::<Vec<_>>(), vec!["author", "project_name"]);
    let prepared = bundle.prepare_with_answers(seeds, vec!["Ada".to_owned(), "widget".to_owned()]);
    assert_eq!(value(&prepared.values, "author"), "Ada");
    assert_eq!(value(&prepared.values, "project_name"), "widget");
    assert_eq!(value(&prepared.values, "license"), "MIT");
    assert_eq!(prepared.values.len(), 3);
    assert_eq!(prepared.templates.len(), 2);
    assert_eq!(value(&prepared.templates[1].values, "author"), "Ada");
    assert_eq!(prepared.templates[1].output_name, "B.md");
}

#[test]
fn render_in_a_given_year_uses_that_year() {
    let mut prompter = StaticPrompter::new(answers(&[("author", "Ada")]));
    let prepared = template("LICENSE", "(c) {{ current_year() }} {{ author }}\n").prepare(&mut prompter).ok().unwrap();
    assert_eq!(prepared.render_final_in_year(&BTreeMap::new(), 1999).ok().unwrap(), "(c) 1999 Ada\n");
}

#[test]
fn document_shows_pending_fragments_as_written() {
    let prepared = PreparedTemplate {
        output_name: "README.md".to_owned(),
        source_path: "/tmp/README.md".to_owned(),
        fragments: vec![
            TemplateFragment::Ai(AiPlaceholder { index: 0, prompt: "one".to_owned() }),
            TemplateFragment::Literal("|".to_owned()),
            TemplateFragment::Ai(AiPlaceholder { index: 1, prompt: "two".to_owned() }),
        ],
        values: ValueMap::new(),
    };
    let document = prepared.render_document_in_year(0, &BTreeMap::new(), 2024).ok().unwrap();
    assert_eq!(document, "[[NANITE_FRAGMENT_1]]|{{ai:two}}");
}

#[test]
fn readme_fragments_take_roles_in_order() {
    let prepared = template("README.md", README_TEMPLATE)
        .prepare(&mut StaticPrompter::new(ValueMap::new()))
        .ok()
        .unwrap();
    let roles: Vec<Option<ReadmeFragmentRole>> =
        prepared.ai_fragments().iter().map(|fragment| fragment.readme_role).collect();
    assert_eq!(
        roles,
        vec![
            Some(ReadmeFragmentRole::Badges),
            Some(ReadmeFragmentRole::Overview),
            Some(ReadmeFragmentRole::QuickStart),
            Some(ReadmeFragmentRole::Usage),
            Some(ReadmeFragmentRole::Tests),
        ]
    );
    assert!(prepared.requires_agent());
    assert!(prepared.is_readme());
}

#[test]
fn target_path_joins_the_output_name() {
    let prepared = PreparedTemplate {
        output_name: "README.md".to_owned(),
        source_path: "/tmp/README.md".to_owned(),
        fragments: vec![],
        values: ValueMap::new(),
    };
    assert_eq!(prepared.target_path("/work/repo"), "/work/repo/README.md");
    assert!(!prepared.requires_agent());
}

#[test]
fn template_metadata_is_minimal() {
    let fields: serde_yaml::Value = serde_yaml::from_str("filename: README.md\n").unwrap();
    let metadata = nanite::templates::TemplateMetadata {
        filename: fields.get("filename").and_then(|v| v.as_str()).unwrap().to_owned(),
    };
    assert_eq!(metadata.filename, "README.md");
}

#[test]
fn template_files_are_read_from_their_text() {
    let t = template_from_source("/t/default/readme.md", "---\nfilename: README.md\n---\n# {{project_name}}\n")
        .ok()
        .unwrap();
    assert_eq!(t.output_name, "README.md");
    assert_eq!(t.source_path, "/t/default/readme.md");
    assert_eq!(t.fragments.len(), 3);
    assert!(matches!(
        template_from_source("/t/x.md", "no frontmatter"),
        Err(TemplateLoadError::Split(_, FrontmatterSplitError::MissingStart))
    ));
    let missing = template_from_source("/t/x.md", "---\ntitle: x\n---\nbody").err().unwrap();
    assert!(matches!(missing, TemplateLoadError::MissingFilename(_)));
    assert_eq!(missing.message(), "failed to parse /t/x.md");
    let bad_body = template_from_source("/t/x.md", "---\nfilename: X\n---\n{{ }}").err().unwrap();
    assert!(matches!(bad_body, TemplateLoadError::Template(_)));
    assert_eq!(bad_body.message(), "empty template placeholder in /t/x.md");
}

#[test]
fn repositories_from_sources_are_ordered_and_skip_empty_bundles() {
    let file = |path: &str, name: &str| (path.to_owned(), format!("---\nfilename: {name}\n---\nbody\n"));
    let repo = TemplateRepository::from_sources(vec![
        BundleSource {
            name: "zeta".to_owned(),
            source_path: "/t/zeta".to_owned(),
            files: vec![file("/t/zeta/b.md", "B.md"), file("/t/zeta/a.md", "A.md")],
        },
        BundleSource { name: "empty".to_owned(), source_path: "/t/empty".to_owned(), files: vec![] },
        BundleSource {
            name: "alpha".to_owned(),
            source_path: "/t/alpha".to_owned(),
            files: vec![file("/t/alpha/x.md", "X.md")],
        },
    ])
    .ok()
    .unwrap();
    let names: Vec<&str> = repo.bundles.iter().map(|b| b.name.as_str()).collect();
    assert_eq!(names, vec!["alpha", "zeta"]);
    let outputs: Vec<&str> = repo.bundles[1].templates.iter().map(|t| t.output_name.as_str()).collect();
    assert_eq!(outputs, vec!["A.md", "B.md"]);
    let refused = TemplateRepository::from_sources(vec![BundleSource {
        name: "bad".to_owned(),
        source_path: "/t/bad".to_owned(),
        files: vec![("/t/bad/x.md".to_owned(), "no frontmatter".to_owned())],
    }]);
    assert!(refused.is_err());
}

fn generated(path: &str, index: usize, text: &str) -> Result<GeneratedFragment, String> {
    Ok(GeneratedFragment { template_source_path: path.to_owned(), index, replacement: text.to_owned() })
}

#[test]
fn generated_values_are_grouped_by_template_and_stop_at_a_failure() {
    let results = vec![
        generated("/t/README.md", 0, "badges"),
        generated("/t/AGENTS.md", 0, "guide"),
        generated("/t/README.md", 1, "overview"),
    ];
    let readme = ai_values_for(&results, "/t/README.md").ok().unwrap();
    assert_eq!(readme, BTreeMap::from([(0, "badges".to_owned()), (1, "overview".to_owned())]));
    let agents = ai_values_for(&results, "/t/AGENTS.md").ok().unwrap();
    assert_eq!(agents, BTreeMap::from([(0, "guide".to_owned())]));
    let failing = vec![
        generated("/t/README.md", 0, "badges"),
        Err("agent exited with status 1".to_owned()),
        Err("later".to_owned()),
    ];
    assert_eq!(ai_values_for(&failing, "/t/AGENTS.md").err().unwrap(), "agent exited with status 1");
}

#[test]
fn static_answers_fill_every_pending_name() {
    let mut prompter = StaticPrompter::new(answers(&[("project_name", "nanite")]));
    let prepared = template("README.md", "# {{project_name}}\n\n{{project_name}} by {{author}}.\n")
        .prepare_with_static_answers(ValueMap::new(), &mut prompter);
    assert_eq!(value(&prepared.values, "project_name"), "nanite");
    assert_eq!(value(&prepared.values, "author"), "");
    assert_eq!(prepared.render_final(&BTreeMap::new()).ok().unwrap(), "# nanite\n\nnanite by .\n");
    let bundle = TemplateBundle {
        name: "default".to_owned(),
        source_path: "/tmp/default".to_owned(),
        templates: vec![template("A.md", "{{license}} {{project_name}}\n")],
    };
    let prepared = bundle.prepare_with_static_answers(answers(&[("license", "MIT")]), &mut prompter);
    assert_eq!(value(&prepared.values, "license"), "MIT");
    assert_eq!(value(&prepared.values, "project_name"), "nanite");
    assert_eq!(prepared.values.len(), 2);
}
