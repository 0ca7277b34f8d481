use codem::grep::{file_is_selected, grep_content, grep_with_sink, search_matcher, GrepSink, LineMatcher};
use codem::types::GrepOptions;

fn options(before: usize, after: usize, file_pattern: Option<&str>) -> GrepOptions {
    GrepOptions {
        context_before: before,
        context_after: after,
        context_lines: 0,
        file_pattern: file_pattern.map(|p| p.to_string()),
        case_sensitive: true,
    }
}

fn matcher(pattern: &str) -> LineMatcher {
    search_matcher(pattern, &options(0, 0, None)).unwrap()
}

#[test]
fn grep_reports_matching_lines_with_their_window() {
    let m = matcher("fo+");
    let found = grep_content("foo\nbar\nfoo bar\n", &m, &options(1, 0, None));
    assert_eq!(found.len(), 2);
    assert_eq!(found[0].line_number, 1);
    assert_eq!(found[0].context, "foo");
    assert_eq!(found[1].line_number, 3);
    assert_eq!(found[1].context, "bar\nfoo bar");
}

#[test]
fn grep_window_is_cut_at_the_end_of_the_text() {
    let m = matcher("b");
    let found = grep_content("a\nb\nc", &m, &options(5, 5, None));
    assert_eq!(found.len(), 1);
    assert_eq!(found[0].line_number, 2);
    assert_eq!(found[0].context, "a\nb\nc");
}

#[test]
fn grep_finds_nothing_in_unmatched_text() {
    let m = matcher("zzz");
    assert!(grep_content("a\nb\n", &m, &options(0, 0, None)).is_empty());
    assert!(grep_content("", &m, &options(0, 0, None)).is_empty());
}

#[test]
fn reported_lines_increase_and_only_hits_are_reported() {
    let m = matcher("^x");
    let text = "x1\ny\nx2\nx3\nz";
    let found = grep_content(text, &m, &options(0, 0, None));
    let numbers: Vec<usize> = found.iter().map(|g| g.line_number).collect();
    assert_eq!(numbers, vec![1, 3, 4]);
    for w in numbers.windows(2) {
        assert!(w[0] < w[1]);
    }
}

#[test]
fn case_insensitive_matching_is_asked_for_at_build_time() {
    let mut o = options(0, 0, None);
    o.case_sensitive = false;
    let insensitive = search_matcher("FOO", &o).unwrap();
    assert_eq!(grep_content("a foo b", &insensitive, &o).len(), 1);
    o.case_sensitive = true;
    let sensitive = search_matcher("FOO", &o).unwrap();
    assert!(grep_content("a foo b", &sensitive, &o).is_empty());
}

#[test]
fn invalid_expression_is_an_error() {
    assert!(search_matcher("(", &options(0, 0, None)).is_err());
}

#[test]
fn sink_starts_empty_with_the_text_lines() {
    let sink = GrepSink::new("a\nb\r\nc\n".to_string(), 1);
    assert_eq!(sink.lines, vec!["a".to_string(), "b".to_string(), "c".to_string()]);
    assert!(sink.matches.is_empty());
    assert_eq!(sink.context_lines, 1);
}

#[test]
fn sink_records_matches_with_context() {
    let mut sink = GrepSink::new("a\nb\nc".to_string(), 1);
    assert!(sink.matched(Some(2)));
    assert!(sink.matched(None));
    assert!(sink.matched(Some(1)));
    assert_eq!(sink.matches.len(), 2);
    assert_eq!(sink.matches[0].line_number, 2);
    assert_eq!(sink.matches[0].context, "a\nb\nc");
    assert_eq!(sink.matches[1].line_number, 1);
    assert_eq!(sink.matches[1].context, "a\nb");
}

#[test]
fn files_are_selected_by_name_pattern() {
    assert!(file_is_selected(&options(0, 0, Some("*.rs")), "src/main.rs"));
    assert!(!file_is_selected(&options(0, 0, Some("*.rs")), "src/main.py"));
    assert!(file_is_selected(&options(0, 0, None), "anything"));
    assert!(!file_is_selected(&options(0, 0, Some("[")), "a["));
    assert!(!file_is_selected(&options(0, 0, Some("src*")), "src/main.rs"));
}

#[test]
fn sink_search_keeps_the_same_number_of_lines_on_each_side() {
    let m = matcher("hit");
    let found = grep_with_sink("a\nhit\nb\nc\nd\nhit".to_string(), &m, 1);
    assert_eq!(found.len(), 2);
    assert_eq!(found[0].line_number, 2);
    assert_eq!(found[0].context, "a\nhit\nb");
    assert_eq!(found[1].line_number, 6);
    assert_eq!(found[1].context, "d\nhit");
    assert!(grep_with_sink(String::new(), &m, 3).is_empty());
}
