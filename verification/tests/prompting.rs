use nanite::prompting::{choice_menu, choice_retry_message, no_options_message, parse_choice};

fn options() -> Vec<String> {
    vec!["default".to_owned(), "minimal".to_owned(), "3".to_owned()]
}

#[test]
fn the_menu_numbers_every_option() {
    assert_eq!(
        choice_menu("Template", &options()),
        "Template:\n  1. default\n  2. minimal\n  3. 3\nChoice [1]: "
    );
}

#[test]
fn answers_pick_by_default_number_or_name() {
    assert_eq!(parse_choice("", &options()), Some(0));
    assert_eq!(parse_choice("  \r", &options()), Some(0));
    assert_eq!(parse_choice("2", &options()), Some(1));
    assert_eq!(parse_choice(" +3 ", &options()), Some(2));
    assert_eq!(parse_choice("minimal", &options()), Some(1));
    assert_eq!(parse_choice("4", &options()), None);
    assert_eq!(parse_choice("0", &options()), None);
    assert_eq!(parse_choice("other", &options()), None);
}

#[test]
fn prompts_explain_retries_and_empty_lists() {
    assert_eq!(choice_retry_message(3), "Enter a number between 1 and 3.\n");
    assert_eq!(no_options_message("Template"), "Template has no options");
}

#[test]
fn each_menu_number_picks_its_option() {
    let options: Vec<String> = (0..12).map(|i| format!("option {i}")).collect();
    for k in 1..=options.len() {
        assert_eq!(parse_choice(&k.to_string(), &options), Some(k - 1));
    }
}
