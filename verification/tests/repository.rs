use nanite::bundle::{TemplateBundle, TemplateRepository, TemplateVariant};
use nanite::repository::{sort_bundles, sort_variants};
use nanite::templates::TemplateFragment;

fn variant(output: &str, source: &str) -> TemplateVariant {
    TemplateVariant {
        output_name: output.to_owned(),
        source_path: source.to_owned(),
        fragments: vec![TemplateFragment::Literal(output.to_owned())],
    }
}

fn bundle(name: &str, templates: Vec<TemplateVariant>) -> TemplateBundle {
    TemplateBundle { name: name.to_owned(), source_path: format!("/t/{name}"), templates }
}

fn names(v: &[TemplateVariant]) -> Vec<(String, String)> {
    v.iter().map(|t| (t.output_name.clone(), t.source_path.clone())).collect()
}

#[test]
fn templates_sort_by_output_name_then_source() {
    let sorted = sort_variants(vec![
        variant("README.md", "/t/b/readme.md"),
        variant("LICENSE", "/t/b/license.md"),
        variant("README.md", "/t/b/a-readme.md"),
    ]);
    assert_eq!(
        names(&sorted),
        vec![
            ("LICENSE".to_owned(), "/t/b/license.md".to_owned()),
            ("README.md".to_owned(), "/t/b/a-readme.md".to_owned()),
            ("README.md".to_owned(), "/t/b/readme.md".to_owned()),
        ]
    );
}

#[test]
fn the_repository_keeps_bundles_with_templates_in_name_order() {
    let repo = TemplateRepository::from_bundles(vec![
        bundle("zeta", vec![variant("README.md", "/t/zeta/readme.md")]),
        bundle("empty", vec![]),
        bundle("alpha", vec![variant("b.md", "/t/alpha/b.md"), variant("a.md", "/t/alpha/a.md")]),
    ]);
    let got: Vec<&str> = repo.bundles.iter().map(|b| b.name.as_str()).collect();
    assert_eq!(got, vec!["alpha", "zeta"]);
    assert_eq!(repo.bundles[0].templates[0].output_name, "a.md");
    assert_eq!(repo.bundles[0].templates[1].output_name, "b.md");
}

#[test]
fn bundles_sort_by_name() {
    let sorted = sort_bundles(vec![bundle("b", vec![]), bundle("a", vec![]), bundle("c", vec![])]);
    let got: Vec<&str> = sorted.iter().map(|b| b.name.as_str()).collect();
    assert_eq!(got, vec!["a", "b", "c"]);
}
