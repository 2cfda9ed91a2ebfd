use nanite::license::{
    license_source_path, metadata_from_parts, normalize_choosealicense_placeholders, replace_str, resolve_rules,
    split_license_source, ChooseALicenseFrontmatter, LicenseRule, LicenseSourceError,
};

#[test]
fn normalizes_choosealicense_placeholders() {
    let normalized = normalize_choosealicense_placeholders("Copyright (c) [year] [fullname]\nEmail: [email]\n");

    assert_eq!(normalized, "Copyright (c) {{ year }} {{ fullname }}\nEmail: {{ email }}\n");
}

#[test]
fn replace_matches_str_replace() {
    for (text, from, to) in [("aaa", "aa", "b"), ("abcabc", "bc", "X"), ("", "a", "b"), ("xyz", "q", "r")] {
        assert_eq!(replace_str(text, from, to), text.replace(from, to));
    }
}

fn rule(tag: &str, label: &str) -> LicenseRule {
    LicenseRule { tag: tag.to_owned(), label: label.to_owned(), description: format!("{label}.") }
}

#[test]
fn rules_resolve_to_the_last_definition() {
    let lookup = vec![rule("commercial-use", "Commercial use"), rule("commercial-use", "Commercial use v2")];
    let resolved = resolve_rules(&vec!["commercial-use".to_owned()], &lookup).ok().unwrap();
    assert_eq!(resolved[0].label, "Commercial use v2");
    let error = resolve_rules(&vec!["commercial-use".to_owned(), "patent-use".to_owned()], &lookup).err().unwrap();
    assert_eq!(error, "missing rule definition for `patent-use`");
}

#[test]
fn license_metadata_from_frontmatter_and_body() {
    let source = "---\ntitle: MIT License\nspdx-id: MIT\n---\nMIT [year]\n";
    let (front, body) = split_license_source("_licenses/mit.txt", source).ok().unwrap();
    assert_eq!(front, "title: MIT License\nspdx-id: MIT");
    assert_eq!(body, "MIT [year]\n");
    let lookup = vec![rule("commercial-use", "Commercial use")];
    let fields = ChooseALicenseFrontmatter {
        title: "MIT License".to_owned(),
        spdx_id: "MIT".to_owned(),
        description: "Sample".to_owned(),
        how: "Copy it.".to_owned(),
        permissions: vec!["commercial-use".to_owned()],
        conditions: vec![],
        limitations: vec![],
        featured: false,
        hidden: false,
        nickname: None,
    };
    let entry = metadata_from_parts("_licenses/mit.txt", fields, &body, &lookup).ok().unwrap();
    assert_eq!(entry.permissions.len(), 1);
    assert_eq!(entry.permissions[0].label, "Commercial use");
    assert_eq!(entry.id, "mit");
    assert_eq!(entry.source_path, "_licenses/mit.txt");
    assert_eq!(entry.template_body, "MIT {{ year }}\n");
}

#[test]
fn license_sources_without_frontmatter_are_refused() {
    let error = split_license_source("a.txt", "MIT").err().unwrap();
    assert!(matches!(error, LicenseSourceError::MissingStart(_)));
    assert_eq!(error.message(), "missing frontmatter start in a.txt");
    let error = split_license_source("a.txt", "---\ntitle: x\n").err().unwrap();
    assert_eq!(error.message(), "missing frontmatter end in a.txt");
    assert_eq!(license_source_path("./_licenses//mit.txt"), "./_licenses/mit.txt");
}

fn yaml_strings(value: &serde_yaml::Value, key: &str) -> Vec<String> {
    value
        .get(key)
        .and_then(|v| v.as_sequence())
        .map(|items| items.iter().filter_map(|i| i.as_str()).map(|s| s.to_owned()).collect())
        .unwrap_or_default()
}

fn yaml_text(value: &serde_yaml::Value, key: &str) -> String {
    value.get(key).and_then(|v| v.as_str()).unwrap_or_default().to_owned()
}

#[test]
fn resolves_rule_labels_from_rules_yaml() {
    let rules_yaml: serde_yaml::Value = serde_yaml::from_str(
        "permissions:\n  - tag: commercial-use\n    label: Commercial use\n    description: May be used commercially.\n",
    )
    .unwrap();
    let mut lookup = Vec::new();
    for group in ["permissions", "conditions", "limitations"] {
        if let Some(items) = rules_yaml.get(group).and_then(|v| v.as_sequence()) {
            for item in items {
                lookup.push(nanite::license::LicenseRule {
                    tag: yaml_text(item, "tag"),
                    label: yaml_text(item, "label"),
                    description: yaml_text(item, "description"),
                });
            }
        }
    }
    let source = "---\ntitle: MIT License\nspdx-id: MIT\ndescription: Sample\nhow: Copy it.\npermissions:\n  - commercial-use\nhidden: false\n---\nMIT\n";
    let (front, body) = nanite::license::split_license_source("_licenses/mit.txt", source).ok().unwrap();
    let fields: serde_yaml::Value = serde_yaml::from_str(&front).unwrap();
    let frontmatter = nanite::license::ChooseALicenseFrontmatter {
        title: yaml_text(&fields, "title"),
        spdx_id: yaml_text(&fields, "spdx-id"),
        description: yaml_text(&fields, "description"),
        how: yaml_text(&fields, "how"),
        permissions: yaml_strings(&fields, "permissions"),
        conditions: yaml_strings(&fields, "conditions"),
        limitations: yaml_strings(&fields, "limitations"),
        featured: fields.get("featured").and_then(|v| v.as_bool()).unwrap_or(false),
        hidden: fields.get("hidden").and_then(|v| v.as_bool()).unwrap_or(false),
        nickname: None,
    };
    let entry = nanite::license::metadata_from_parts("_licenses/mit.txt", frontmatter, &body, &lookup).ok().unwrap();

    assert_eq!(entry.permissions.len(), 1);
    assert_eq!(entry.permissions[0].label, "Commercial use");
    assert_eq!(entry.id, "mit");
    assert_eq!(entry.source_path, "_licenses/mit.txt");
}
