use colored::Colorize;
use minigrep::output::search;

fn strip_color_codes(s: &str) -> String {
    s.replace("\x1b[31m", "").replace("\x1b[0m", "")
}

#[test]
fn test_case_sensitive_colorization() {
    let query = "Warning";
    let contents = "Warning: This is a test.\nAnother line with Warning.\nFinal line.";
    let ignore_case = false;

    let results = search(query, contents, ignore_case);

    assert_eq!(results.len(), 2);

    let expected_line1 = format!("{}: This is a test.", "Warning".red());
    let expected_line2 = format!("Another line with {}.", "Warning".red());

    assert_eq!(results[0].line_text, expected_line1);
    assert_eq!(results[1].line_text, expected_line2);
}

#[test]
fn test_case_insensitive_colorization() {
    let query = "warning";
    let contents = "Warning: This is a test.\nAnother line with warning.\nFinal line.";
    let ignore_case = true;

    let results = search(query, contents, ignore_case);

    assert_eq!(results.len(), 2);

    let expected_line1 = format!("{}: This is a test.", "Warning".red());
    let expected_line2 = format!("Another line with {}.", "warning".red());

    assert_eq!(results[0].line_text, expected_line1);
    assert_eq!(results[1].line_text, expected_line2);
}

#[test]
fn test_no_colorization_in_non_matching_line() {
    let query = "Error";
    let contents = "Warning: This is a test.\nAnother line with Warning.\nFinal line.";
    let ignore_case = true;

    let results = search(query, contents, ignore_case);

    assert_eq!(results.len(), 0);
}

#[test]
fn test_colorization_strip() {
    let query = "Warning";
    let contents = "Warning: Check the warning levels.\nIgnore warnings on final line.";
    let ignore_case = false;

    let results = search(query, contents, ignore_case);

    for result in results {
        let stripped_text = strip_color_codes(&result.line_text);
        assert!(stripped_text.contains(query));
        assert!(!stripped_text.contains("\x1b["));
    }
}

#[test]
fn test_search_line_numbers() {
    let results = search("Warning", "Warning: one.\nnothing\nWarning: two.", false);
    assert_eq!(results.len(), 2);
    assert_eq!(results[0].line_number, 1);
    assert_eq!(results[1].line_number, 3);
}

#[test]
fn test_search_results_compare_equal() {
    let a = search("x", "x\ny\nx", false);
    let b = search("x", "x\ny\nx", false);
    assert_eq!(a, b);
}
