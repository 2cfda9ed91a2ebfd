use nanite::frontmatter::{parse_frontmatter, split_frontmatter, FrontmatterError, FrontmatterSplitError};

#[test]
fn parses_yaml_frontmatter_and_body() {
    let document = parse_frontmatter("---\nname: test\n---\nhello\n").ok().unwrap();

    assert_eq!(document.metadata["name"].as_str(), Some("test"));
    assert_eq!(document.body, "hello\n");
}

#[test]
fn frontmatter_split_finds_the_first_closing_line() {
    assert_eq!(
        split_frontmatter("---\na: 1\n---\nbody\n---\nmore"),
        Ok(("a: 1".to_owned(), "body\n---\nmore".to_owned()))
    );
    assert_eq!(split_frontmatter("a: 1\n---\n"), Err(FrontmatterSplitError::MissingStart));
    assert_eq!(split_frontmatter("---\na: 1\n"), Err(FrontmatterSplitError::MissingEnd));
}

#[test]
fn frontmatter_errors_have_messages() {
    let error = parse_frontmatter("hello").err().unwrap();
    assert_eq!(error.message(), "missing frontmatter start");
    let error = parse_frontmatter("---\nhello").err().unwrap();
    assert_eq!(error.message(), "missing frontmatter end");
    assert!(matches!(parse_frontmatter("---\n[unclosed\n---\nbody").err().unwrap(), FrontmatterError::Yaml(_)));
}
