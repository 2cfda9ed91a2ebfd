use nanite::readme::{
    bullet_lines, count_sentences, looks_like_badge_line, normalize_section_body, parse_readme_document,
    ReadmeVerificationFinding, ReadmeVerificationReport,
};

#[test]
fn readme_documents_split_at_headings() {
    let parsed = parse_readme_document("\n# Title\n[![ci](x)](y)\n## Usage \nline\n# Second\n## Tests\n");
    assert!(parsed.first_non_empty_is_h1);
    assert_eq!(parsed.h1_count, 2);
    assert_eq!(parsed.preamble, vec!["[![ci](x)](y)"]);
    assert_eq!(parsed.sections.len(), 2);
    assert_eq!(parsed.sections[0].title, "Usage");
    assert_eq!(parsed.sections[0].body, vec!["line", "# Second"]);
    assert_eq!(parsed.sections[1].title, "Tests");
    let parsed = parse_readme_document("text\n# Title\n");
    assert!(!parsed.first_non_empty_is_h1);
    assert!(parsed.preamble.is_empty());
}

#[test]
fn sentences_are_counted_between_terminators() {
    assert_eq!(count_sentences("One. Two! Three?"), 3);
    assert_eq!(count_sentences("One.. Two"), 2);
    assert_eq!(count_sentences("  "), 0);
    assert_eq!(count_sentences("no terminator"), 1);
}

#[test]
fn line_helpers() {
    assert_eq!(bullet_lines("  - a \n\n- b\n"), vec!["- a", "- b"]);
    assert!(looks_like_badge_line("  [![ci](x)](y)"));
    assert!(looks_like_badge_line("![img](x)"));
    assert!(!looks_like_badge_line("text ![img](x)"));
    assert_eq!(normalize_section_body(&vec!["".to_owned(), " a".to_owned(), "b ".to_owned()]), "a\nb");
}

#[test]
fn report_queries() {
    let report = ReadmeVerificationReport {
        findings: vec![
            ReadmeVerificationFinding { fragment_index: Some(4), fragment_label: Some("Tests".to_owned()), repairable: true, message: "m1".to_owned() },
            ReadmeVerificationFinding { fragment_index: Some(1), fragment_label: None, repairable: true, message: "m2".to_owned() },
            ReadmeVerificationFinding { fragment_index: Some(4), fragment_label: None, repairable: true, message: "m3".to_owned() },
            ReadmeVerificationFinding { fragment_index: Some(2), fragment_label: None, repairable: false, message: "m4".to_owned() },
        ],
    };
    assert!(!report.is_valid());
    assert_eq!(report.repairable_fragment_indexes(), vec![1, 4]);
    assert!(report.has_non_repairable_findings());
    assert_eq!(report.render_messages(), vec!["Tests: m1", "m2", "m3", "m4"]);
    let empty = ReadmeVerificationReport { findings: vec![] };
    assert!(empty.is_valid());
    assert!(!empty.has_non_repairable_findings());
    assert!(empty.repairable_fragment_indexes().is_empty());
}
