use minigrep::engine::find_matches;
use minigrep::engine::Span;

#[test]
fn test_single_match_case_sensitive() {
    let records = find_matches(
        "duct",
        "Rust:\nsafe, fast, productive.\nPick three.\nDuct tape.",
        false,
    );
    assert_eq!(records.len(), 1);
    assert_eq!(records[0].line_number, 2);
    assert_eq!(records[0].original_text, "safe, fast, productive.");
    assert_eq!(records[0].match_spans, vec![Span { start: 15, end: 19 }]);
}

#[test]
fn test_case_insensitive_matches() {
    let records = find_matches(
        "rUsT",
        "Rust:\nsafe, fast, productive.\nPick three.\nTrust me.",
        true,
    );
    assert_eq!(records.len(), 2);
    assert_eq!(records[0].line_number, 1);
    assert_eq!(records[0].original_text, "Rust:");
    assert_eq!(records[0].match_spans, vec![Span { start: 0, end: 4 }]);
    assert_eq!(records[1].line_number, 4);
    assert_eq!(records[1].original_text, "Trust me.");
    assert_eq!(records[1].match_spans, vec![Span { start: 1, end: 5 }]);
}

#[test]
fn test_non_overlapping_spans() {
    let records = find_matches("aa", "aaaa", false);
    assert_eq!(records.len(), 1);
    assert_eq!(records[0].line_number, 1);
    assert_eq!(
        records[0].match_spans,
        vec![Span { start: 0, end: 2 }, Span { start: 2, end: 4 }]
    );
}

#[test]
fn test_empty_pattern_matches_every_line_with_no_spans() {
    let records = find_matches("", "abc\n", false);
    assert_eq!(records.len(), 1);
    assert_eq!(records[0].line_number, 1);
    assert_eq!(records[0].original_text, "abc");
    assert_eq!(records[0].match_spans, Vec::<Span>::new());
}

#[test]
fn test_empty_document_has_no_records() {
    assert_eq!(find_matches("abc", "", false).len(), 0);
    assert_eq!(find_matches("x", "", true).len(), 0);
}

#[test]
fn test_rescan_is_identical() {
    let query = "the";
    let contents = "The cat.\nthen.\nnothing here\nsoothe";
    let first = find_matches(query, contents, true);
    let second = find_matches(query, contents, true);
    assert_eq!(first.len(), second.len());
    for (a, b) in first.iter().zip(second.iter()) {
        assert_eq!(a.line_number, b.line_number);
        assert_eq!(a.original_text, b.original_text);
        assert_eq!(a.match_spans, b.match_spans);
    }
}

#[test]
fn test_crlf_lines_are_stripped() {
    let records = find_matches("b", "ab\r\ncd\r\nbb", false);
    assert_eq!(records.len(), 2);
    assert_eq!(records[0].line_number, 1);
    assert_eq!(records[0].original_text, "ab");
    assert_eq!(records[1].line_number, 3);
    assert_eq!(records[1].original_text, "bb");
}

#[test]
fn test_spans_in_increasing_order() {
    let records = find_matches("ab", "xabyab abz", false);
    assert_eq!(records.len(), 1);
    let spans = &records[0].match_spans;
    assert_eq!(spans.len(), 3);
    for w in spans.windows(2) {
        assert!(w[0].end <= w[1].start);
    }
    assert_eq!(
        *spans,
        vec![
            Span { start: 1, end: 3 },
            Span { start: 4, end: 6 },
            Span { start: 7, end: 9 }
        ]
    );
}

#[test]
fn test_folding_does_not_shift_offsets() {
    let records = find_matches("o", "FOO", true);
    assert_eq!(records.len(), 1);
    assert_eq!(
        records[0].match_spans,
        vec![Span { start: 1, end: 2 }, Span { start: 2, end: 3 }]
    );
}
