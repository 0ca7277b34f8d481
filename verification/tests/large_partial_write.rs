use codem::error::WriteError;
use codem::fs_write_large_partial::process::{apply_large_partial_write, get_line_range_for_pattern, pattern_overlaps_range};
use codem::fs_write_large_partial::result::{create_context, create_result, find_line_numbers};
use codem::fs_write_large_partial::validation::{validate_matches, validate_patterns};
use codem::types::{LineRange, PartialWriteLarge, WriteResultDetails};

fn large(start: &str, end: &str, new: &str, context_lines: usize) -> PartialWriteLarge {
    PartialWriteLarge {
        start_str: start.to_string(),
        end_str: end.to_string(),
        new_str: new.to_string(),
        context_lines,
        line_range: None,
    }
}

fn pair_message(r: Result<(), WriteError>) -> String {
    match r {
        Err(WriteError::InvalidPatternPair { content }) => content,
        other => panic!("unexpected {:?}", other),
    }
}

#[test]
fn empty_patterns_are_rejected() {
    assert_eq!(pair_message(validate_patterns("", "x")), "Start and end patterns cannot be empty");
    assert_eq!(pair_message(validate_patterns("x", "")), "Start and end patterns cannot be empty");
}

#[test]
fn patterns_equal_once_trimmed_are_rejected() {
    assert_eq!(
        pair_message(validate_patterns("a ", " a")),
        "Start and end patterns cannot be identical when trimmed"
    );
}

#[test]
fn nested_patterns_are_rejected_with_both_texts() {
    assert_eq!(
        pair_message(validate_patterns("fn main", "main")),
        "End pattern 'main' is contained within start pattern 'fn main', making it ambiguous where the section ends"
    );
    assert_eq!(
        pair_message(validate_patterns("end", "the end")),
        "Start pattern 'end' is contained within end pattern 'the end', making it ambiguous where the section starts"
    );
}

#[test]
fn distinct_patterns_are_accepted() {
    assert!(validate_patterns("start", "finish").is_ok());
}

#[test]
fn pattern_pair_acceptance_is_symmetric() {
    let pairs = [("start", "finish"), ("fn main", "main"), ("a ", " a"), ("", "x"), ("// begin", "// end")];
    for (a, b) in pairs {
        assert_eq!(validate_patterns(a, b).is_ok(), validate_patterns(b, a).is_ok());
    }
}

#[test]
fn match_checks_report_each_problem() {
    let text = "file text";
    let one_start = [(1usize, "s")];
    let one_end = [(5usize, "e")];
    assert!(validate_matches(&one_start, &one_end, text).is_ok());
    assert!(matches!(validate_matches(&[], &one_end, text),
        Err(WriteError::StartPatternNotFound { content }) if content == text));
    assert!(matches!(validate_matches(&[(1, "s"), (3, "s")], &one_end, text),
        Err(WriteError::MultipleStartPatternsFound { content }) if content == text));
    assert!(matches!(validate_matches(&one_start, &[], text),
        Err(WriteError::EndPatternNotFound { content }) if content == text));
    assert!(matches!(validate_matches(&one_start, &[(5, "e"), (7, "e")], text),
        Err(WriteError::MultipleEndPatternsFound { content }) if content == text));
    assert!(matches!(validate_matches(&[(5, "s")], &[(2, "e")], text),
        Err(WriteError::EndPatternBeforeStart { content }) if content == text));
}

#[test]
fn line_numbers_of_offsets() {
    assert_eq!(find_line_numbers("ab\ncd\nef", 1, 4), (0, 1));
    assert_eq!(find_line_numbers("ab\ncd", 2, 3), (2, 1));
    assert_eq!(get_line_range_for_pattern("a\nb\nc", 2, "b\nc"), (2, 3));
    assert_eq!(get_line_range_for_pattern("a\nb\nc", 0, "a"), (1, 1));
}

#[test]
fn overlap_with_line_ranges() {
    assert!(pattern_overlaps_range(3, 5, &LineRange { start: Some(5), end: None }));
    assert!(!pattern_overlaps_range(1, 2, &LineRange { start: Some(3), end: None }));
    assert!(!pattern_overlaps_range(4, 4, &LineRange { start: None, end: Some(3) }));
    assert!(pattern_overlaps_range(4, 4, &LineRange { start: None, end: None }));
}

#[test]
fn context_of_a_replaced_section() {
    let lines = vec!["l0", "l1", "l2", "l3", "l4"];
    let pw = large("s", "e", "n1\nn2\nn3", 1);
    let c = create_context(&lines, 1, 3, &pw);
    assert_eq!(c.before_start, vec!["l0".to_string()]);
    assert_eq!(c.start_content, vec!["n1".to_string(), "n2".to_string()]);
    assert_eq!(c.end_content, vec!["n3".to_string(), "n2".to_string()]);
    assert_eq!(c.after_end, vec!["l4".to_string()]);
}

#[test]
fn result_of_a_replaced_section() {
    let lines = vec!["l0", "l1", "l2", "l3", "l4"];
    let pw = large("s", "e", "n1", 0);
    let r = create_result(1, 3, "out\ntext", &lines, &pw);
    assert_eq!(r.line_count, 2);
    assert_eq!(r.size, 8);
    assert_eq!(r.modified, None);
    match r.details {
        WriteResultDetails::PartialLarge(d) => {
            assert_eq!(d.line_number_start, 2);
            assert_eq!(d.line_number_end, 4);
            assert!(d.context.before_start.is_empty());
            assert!(d.context.after_end.is_empty());
        }
        other => panic!("unexpected {:?}", other),
    }
}

#[test]
fn section_is_replaced_through_the_end_pattern() {
    let pw = large("START", "END", "X", 1);
    let (out, res) = apply_large_partial_write("a\nSTART\nb\nEND\nc\n", &pw).unwrap().unwrap();
    assert_eq!(out, "a\nX\nc\n");
    assert_eq!(res.line_count, 3);
    assert_eq!(res.size, 6);
    match res.details {
        WriteResultDetails::PartialLarge(d) => {
            assert_eq!(d.line_number_start, 2);
            assert_eq!(d.line_number_end, 4);
            assert_eq!(d.context.before_start, vec!["a".to_string()]);
            assert_eq!(d.context.start_content, vec!["X".to_string()]);
            assert_eq!(d.context.end_content, vec!["X".to_string()]);
            assert_eq!(d.context.after_end, vec!["c".to_string()]);
        }
        other => panic!("unexpected {:?}", other),
    }
}

#[test]
fn missing_or_repeated_section_patterns_are_errors() {
    let contents = "a\nb\n";
    assert!(matches!(apply_large_partial_write(contents, &large("START", "END", "X", 0)),
        Err(WriteError::StartPatternNotFound { .. })));
    assert!(matches!(apply_large_partial_write("S\nS\nE\n", &large("S", "E", "X", 0)),
        Err(WriteError::MultipleStartPatternsFound { .. })));
    assert!(matches!(apply_large_partial_write("S\nx\n", &large("S", "E", "X", 0)),
        Err(WriteError::EndPatternNotFound { .. })));
    assert!(matches!(apply_large_partial_write("x\nS\nx\n", &large("S", "S ", "X", 0)),
        Err(WriteError::InvalidPatternPair { .. })));
}

#[test]
fn line_lookup_and_newline_count_agree_without_carriage_returns() {
    let text = "ab\ncd\n\nef";
    for pos in [0usize, 1, 3, 4, 7, 8] {
        let (line, _) = find_line_numbers(text, pos, pos);
        assert_eq!(line + 1, get_line_range_for_pattern(text, pos, "").0);
    }
}

#[test]
fn end_before_start_and_repeated_end_are_errors() {
    assert!(matches!(apply_large_partial_write("E\nS\n", &large("S", "E", "X", 0)),
        Err(WriteError::EndPatternBeforeStart { content }) if content == "E\nS\n"));
    assert!(matches!(apply_large_partial_write("S\nE\nE\n", &large("S", "E", "X", 0)),
        Err(WriteError::MultipleEndPatternsFound { content }) if content == "S\nE\nE\n"));
}

#[test]
fn line_range_picks_the_start_pattern() {
    let mut pw = large("S", "E", "X", 0);
    pw.line_range = Some(LineRange { start: Some(3), end: None });
    let (out, _) = apply_large_partial_write("S\nx\nS\nE\n", &pw).unwrap().unwrap();
    assert_eq!(out, "S\nx\nX\n");
}
