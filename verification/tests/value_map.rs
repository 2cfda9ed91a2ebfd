use nanite::cli::fish_init_script;
use nanite::value_map::{str_lt, ValueMap};

#[test]
fn value_map_reads_back_what_was_written() {
    let mut map = ValueMap::new();
    map.insert("b".to_owned(), "1".to_owned());
    map.insert("a".to_owned(), "2".to_owned());
    map.insert("b".to_owned(), "3".to_owned());
    assert_eq!(map.get("b").unwrap(), "3");
    assert_eq!(map.get("a").unwrap(), "2");
    assert!(map.get("c").is_none());
    assert!(map.contains_key("a"));
    assert_eq!(map.len(), 2);
    assert_eq!(map.names_in_order(), vec!["a", "b"]);
    let copy = map.copy();
    assert_eq!(copy.names_in_order(), vec!["a", "b"]);
    let (name, value) = copy.entry(1);
    assert_eq!((name.as_str(), value.as_str()), ("b", "3"));
}

#[test]
fn string_order_matches_str_order() {
    for (a, b) in [("a", "b"), ("ab", "a"), ("", "x"), ("same", "same"), ("Z", "a"), ("é", "z")] {
        assert_eq!(str_lt(a, b), a < b);
    }
}

#[test]
fn fish_init_includes_wrapper_and_completions() {
    let script = fish_init_script("complete -c nanite -n '__fish_use_subcommand' -a repo");

    assert!(script.contains("function jumpto"));
    assert!(script.contains("complete -c jumpto"));
    assert!(!script.contains("CODEX_HOME"));
}
