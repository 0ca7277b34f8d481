use codem::error::WriteError;
use codem::fs_write_partial::context::build_context_lines;
use codem::fs_write_partial::find::{find_matches, format_match_context, get_line_number, is_within_line_range};
use codem::fs_write_partial::line_map::{build_line_map, find_line_number};
use codem::fs_write_partial::process::apply_partial_write;
use codem::fs_write_partial::process_matches::{process_matches, sort_by_start};
use codem::text::split_lines;
use codem::types::{LineRange, MatchInfo, PartialWrite, PartialWriteInner};

fn change(old: &str, new: &str) -> PartialWriteInner {
    PartialWriteInner {
        old_str: old.to_string(),
        new_str: new.to_string(),
        allow_multiple_matches: false,
        line_range: None,
    }
}

fn write_of(changes: Vec<PartialWriteInner>, context_lines: usize) -> PartialWrite {
    PartialWrite { changes, context_lines, return_full_content: false }
}

#[test]
fn line_numbers_count_newlines_before_the_offset() {
    assert_eq!(get_line_number("a\nb\nc", 0), 1);
    assert_eq!(get_line_number("a\nb\nc", 2), 2);
    assert_eq!(get_line_number("a\nb\nc", 4), 3);
    assert_eq!(get_line_number("a\nb\nc", 1), 1);
}

#[test]
fn line_ranges_are_inclusive_and_open_where_unbounded() {
    assert!(is_within_line_range(5, &None));
    let r = Some(LineRange { start: Some(3), end: Some(5) });
    assert!(is_within_line_range(3, &r));
    assert!(is_within_line_range(5, &r));
    assert!(!is_within_line_range(6, &r));
    assert!(!is_within_line_range(2, &r));
    let open_start = Some(LineRange { start: None, end: Some(4) });
    assert!(is_within_line_range(1, &open_start));
    assert!(!is_within_line_range(5, &open_start));
}

#[test]
fn line_map_spans_each_line() {
    assert_eq!(build_line_map("ab\ncd\n"), vec![(0, 2), (3, 5)]);
    assert_eq!(build_line_map(""), Vec::<(usize, usize)>::new());
    assert_eq!(build_line_map("x\n\ny"), vec![(0, 1), (2, 2), (3, 4)]);
}

#[test]
fn find_line_number_uses_half_open_spans() {
    let map = vec![(0, 2), (3, 5)];
    assert_eq!(find_line_number(&map, 0), Some(0));
    assert_eq!(find_line_number(&map, 3), Some(1));
    assert_eq!(find_line_number(&map, 2), None);
    assert_eq!(find_line_number(&map, 5), None);
}

#[test]
fn match_context_reports_the_line_and_its_window() {
    let m = format_match_context("l1\nl2\nl3\nl4\nl5\nl6\nl7", 9, "l4", 2);
    assert_eq!(m.line_number, 4);
    assert_eq!(m.context, "l2\nl3\nl4\nl5\nl6");
    let first = format_match_context("a\nb\nc", 0, "a", 2);
    assert_eq!(first.line_number, 1);
    assert_eq!(first.context, "a\nb\nc");
    let alone = format_match_context("a\nb\nc", 2, "b", 0);
    assert_eq!(alone.line_number, 2);
    assert_eq!(alone.context, "b");
    let past_end = format_match_context("a\n", 2, "", 0);
    assert_eq!(past_end.line_number, 2);
    assert_eq!(past_end.context, "");
}

#[test]
fn context_lines_show_the_replacement_in_place() {
    let lines = vec!["one", "two", "three"];
    let map = vec![(0, 3), (4, 7), (8, 13)];
    assert_eq!(build_context_lines(&lines, &map, 1, 4, "two", "2", 1), "one\n2\nthree");
    assert_eq!(build_context_lines(&lines, &map, 2, 10, "re", "RE", 0), "thREe");
    let single = vec!["abc"];
    assert_eq!(build_context_lines(&single, &[(0, 3)], 0, 1, "b", "X", 0), "aXc");
}

#[test]
fn sort_by_start_is_stable() {
    let ms = vec![
        MatchInfo { pattern_index: 0, relative_match_start: 5 },
        MatchInfo { pattern_index: 1, relative_match_start: 1 },
        MatchInfo { pattern_index: 2, relative_match_start: 5 },
    ];
    let sorted = sort_by_start(&ms);
    let order: Vec<usize> = sorted.iter().map(|m| m.pattern_index).collect();
    assert_eq!(order, vec![1, 0, 2]);
    let again = sort_by_start(&sorted);
    let order_again: Vec<usize> = again.iter().map(|m| m.pattern_index).collect();
    assert_eq!(order_again, order);
}

#[test]
fn process_matches_replaces_in_order_and_reports_lines() {
    let contents = "let a = 1;\nlet b = 2;\n";
    let lines = split_lines(contents);
    let map = build_line_map(contents);
    let pw = write_of(vec![change("b = 2", "b = 3"), change("a = 1", "a = 10")], 0);
    let matches = vec![
        MatchInfo { pattern_index: 0, relative_match_start: 15 },
        MatchInfo { pattern_index: 1, relative_match_start: 4 },
    ];
    let (out, changes) = process_matches(contents, &lines, &map, &matches, &pw);
    assert_eq!(out, "let a = 10;\nlet b = 3;\n");
    assert_eq!(changes.len(), 2);
    assert_eq!(changes[0].partial_write_index, 1);
    assert_eq!(changes[0].line_number_start, 1);
    assert_eq!(changes[0].context, "let a = 10;");
    assert_eq!(changes[1].partial_write_index, 0);
    assert_eq!(changes[1].line_number_start, 2);
    assert_eq!(changes[1].line_number_end, 2);
    assert_eq!(changes[1].context, "let b = 3;");
}

#[test]
fn partial_write_replaces_a_unique_match() {
    let pw = write_of(vec![change("a()", "alpha()")], 0);
    let (out, changes) = apply_partial_write("fn a() {}\nfn b() {}\n", &pw).unwrap().unwrap();
    assert_eq!(out, "fn alpha() {}\nfn b() {}\n");
    assert_eq!(changes.len(), 1);
    assert_eq!(changes[0].partial_write_index, 0);
    assert_eq!(changes[0].line_number_start, 1);
    assert_eq!(changes[0].line_number_end, 1);
    assert_eq!(changes[0].context, "fn alpha() {}");
}

#[test]
fn partial_write_counts_new_lines_of_the_replacement() {
    let pw = write_of(vec![change("b", "b1\nb2\nb3")], 1);
    let (out, changes) = apply_partial_write("a\nb\nc", &pw).unwrap().unwrap();
    assert_eq!(out, "a\nb1\nb2\nb3\nc");
    assert_eq!(changes[0].line_number_start, 2);
    assert_eq!(changes[0].line_number_end, 4);
    assert_eq!(changes[0].context, "a\nb1\nb2\nb3\nc");
}

#[test]
fn partial_write_without_changes_keeps_the_text() {
    let pw = write_of(vec![], 0);
    let (out, changes) = apply_partial_write("same\ntext\n", &pw).unwrap().unwrap();
    assert_eq!(out, "same\ntext\n");
    assert!(changes.is_empty());
}

#[test]
fn missing_pattern_is_reported_with_its_index() {
    let pw = write_of(vec![change("a", "b"), change("zzz", "y")], 0);
    match apply_partial_write("abc", &pw) {
        Err(WriteError::PatternNotFound { index, old_str, content }) => {
            assert_eq!(index, 1);
            assert_eq!(old_str, "zzz");
            assert_eq!(content, "abc");
        }
        other => panic!("unexpected {:?}", other),
    }
}

#[test]
fn repeated_pattern_is_reported_with_each_match() {
    let pw = write_of(vec![change("x", "y")], 0);
    match apply_partial_write("x\nx\n", &pw) {
        Err(WriteError::MultiplePatternMatches { index, old_str, content, match_count, context }) => {
            assert_eq!(index, 0);
            assert_eq!(old_str, "x");
            assert_eq!(content, "x\nx\n");
            assert_eq!(match_count, 2);
            assert_eq!(context, "Match on line 1:\nx\nx\n\nMatch on line 2:\nx\nx");
        }
        other => panic!("unexpected {:?}", other),
    }
}

#[test]
fn repeated_pattern_is_replaced_everywhere_when_allowed() {
    let mut c = change("x", "y");
    c.allow_multiple_matches = true;
    let pw = write_of(vec![c], 0);
    let (out, changes) = apply_partial_write("x\nx\n", &pw).unwrap().unwrap();
    assert_eq!(out, "y\ny\n");
    assert_eq!(changes.len(), 2);
    assert_eq!(changes[0].line_number_start, 1);
    assert_eq!(changes[1].line_number_start, 2);
}

#[test]
fn line_range_limits_the_matches() {
    let mut c = change("x", "y");
    c.line_range = Some(LineRange { start: Some(2), end: None });
    let pw = write_of(vec![c], 0);
    let (out, changes) = apply_partial_write("x\nx\n", &pw).unwrap().unwrap();
    assert_eq!(out, "x\ny\n");
    assert_eq!(changes[0].line_number_start, 2);
}

#[test]
fn find_matches_orders_matches_by_offset() {
    let pw = write_of(vec![change("two", "2"), change("one", "1")], 0);
    let ms = find_matches("one two", &pw).unwrap();
    assert_eq!(ms.len(), 2);
    assert_eq!((ms[0].pattern_index, ms[0].relative_match_start), (1, 0));
    assert_eq!((ms[1].pattern_index, ms[1].relative_match_start), (0, 4));
}

#[test]
fn context_trims_trailing_white_space_of_the_texts() {
    let single = vec!["abc"];
    assert_eq!(build_context_lines(&single, &[(0, 3)], 0, 1, "b ", "X \n", 0), "aXc");
}

#[test]
fn replacing_a_text_by_itself_changes_nothing() {
    let pw = write_of(vec![change("b", "b"), change("d\ne", "d\ne")], 0);
    let (out, changes) = apply_partial_write("a b c\nd\ne", &pw).unwrap().unwrap();
    assert_eq!(out, "a b c\nd\ne");
    assert_eq!(changes.len(), 2);
}

#[test]
fn repeated_pattern_report_shows_lines_on_both_sides() {
    let pw = write_of(vec![change("x", "y")], 0);
    match apply_partial_write("x\n1\n2\n3\nx", &pw) {
        Err(WriteError::MultiplePatternMatches { match_count, context, .. }) => {
            assert_eq!(match_count, 2);
            assert_eq!(context, "Match on line 1:\nx\n1\n2\n\nMatch on line 5:\n2\n3\nx");
        }
        other => panic!("unexpected {:?}", other),
    }
}

#[test]
fn process_matches_does_not_depend_on_the_order_of_matches() {
    let contents = "let a = 1;\nlet b = 2;\n";
    let lines = split_lines(contents);
    let map = build_line_map(contents);
    let pw = write_of(vec![change("b = 2", "b = 3"), change("a = 1", "a = 10")], 0);
    let m0 = MatchInfo { pattern_index: 0, relative_match_start: 15 };
    let m1 = MatchInfo { pattern_index: 1, relative_match_start: 4 };
    let (out1, ch1) = process_matches(contents, &lines, &map, &[m0, m1], &pw);
    let (out2, ch2) = process_matches(contents, &lines, &map, &[m1, m0], &pw);
    assert_eq!(out1, out2);
    assert_eq!(ch1.len(), ch2.len());
    for (a, b) in ch1.iter().zip(ch2.iter()) {
        assert_eq!(a.partial_write_index, b.partial_write_index);
        assert_eq!(a.line_number_start, b.line_number_start);
        assert_eq!(a.context, b.context);
    }
}

#[test]
fn partial_write_is_process_matches_of_the_found_matches() {
    let contents = "alpha beta\ngamma beta delta\n";
    let mut c = change("beta", "BETA");
    c.allow_multiple_matches = true;
    let pw = write_of(vec![c, change("gamma", "G")], 1);
    let found = find_matches(contents, &pw).unwrap();
    let lines = split_lines(contents);
    let map = build_line_map(contents);
    let (w, cr) = process_matches(contents, &lines, &map, &found, &pw);
    let (out, changes) = apply_partial_write(contents, &pw).unwrap().unwrap();
    assert_eq!(out, w);
    assert_eq!(out, "alpha BETA\nG BETA delta\n");
    assert_eq!(changes.len(), cr.len());
    for (a, b) in changes.iter().zip(cr.iter()) {
        assert_eq!(a.partial_write_index, b.partial_write_index);
        assert_eq!(a.line_number_start, b.line_number_start);
        assert_eq!(a.line_number_end, b.line_number_end);
        assert_eq!(a.context, b.context);
    }
}
