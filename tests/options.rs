use danmaku::comment::Source;
use danmaku::options::{parse_option_line, parse_sources, rule_accepted, split_commas};

#[test]
fn option_lines_split_at_first_equals() {
    assert_eq!(
        parse_option_line("proxy=http://a=b"),
        Some(("proxy".to_string(), "http://a=b".to_string()))
    );
    assert_eq!(parse_option_line("#font_size=3"), None);
    assert_eq!(parse_option_line("no value"), None);
    assert_eq!(parse_option_line("k="), Some(("k".to_string(), String::new())));
}

#[test]
fn lists_split_at_every_comma() {
    assert_eq!(split_commas("a,,b"), vec!["a", "", "b"]);
    assert_eq!(split_commas("solo"), vec!["solo"]);
}

#[test]
fn source_lists_drop_unknown_names() {
    assert_eq!(
        parse_sources("bilibili,QQ,nope,Dandan"),
        vec![Source::Bilibili, Source::QQ, Source::Dandan]
    );
}

#[test]
fn only_enabled_plain_rules_are_taken() {
    assert!(rule_accepted(0, true));
    assert!(!rule_accepted(0, false));
    assert!(!rule_accepted(1, true));
}
