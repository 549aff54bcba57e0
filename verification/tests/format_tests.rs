use colored::Colorize;
use minigrep::numfmt::u32_to_string;
use minigrep::output::format_result;
use minigrep::output::search;
use minigrep::Config;

#[test]
fn test_u32_to_string_exact() {
    assert_eq!(u32_to_string(0), "0");
    assert_eq!(u32_to_string(7), "7");
    assert_eq!(u32_to_string(10), "10");
    assert_eq!(u32_to_string(305), "305");
    assert_eq!(u32_to_string(4294967295), "4294967295");
}

#[test]
fn test_format_with_line_number() {
    let results = search("two", "one\ntwo", false);
    assert_eq!(results.len(), 1);
    let shown = format_result(&results[0], true);
    let expected = format!("{}: {}", "2".blue(), results[0].line_text);
    assert_eq!(shown, expected);
}

#[test]
fn test_format_without_line_number() {
    let results = search("two", "one\ntwo", false);
    assert_eq!(results.len(), 1);
    let shown = format_result(&results[0], false);
    assert_eq!(shown, results[0].line_text);
}

#[test]
fn test_config_holds_invocation() {
    let config = Config {
        pattern: String::from("needle"),
        filename: String::from("haystack.txt"),
        ignore_case: true,
        line_number: false,
    };
    assert_eq!(config.pattern, "needle");
    assert_eq!(config.filename, "haystack.txt");
    assert!(config.ignore_case);
    assert!(!config.line_number);
}
