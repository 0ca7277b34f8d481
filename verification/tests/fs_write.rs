use codem::error::WriteError;
use codem::fs_read::{line_counted_metadata, read_metadata, ReadOptions};
use codem::fs_write::{check_absent, check_unchanged, full_write_result, partial_write_result};
use codem::text::count_lines;
use codem::types::{ChangeResult, WriteResultDetails};
use std::time::SystemTime;

#[test]
fn full_write_reports_lines_and_bytes() {
    let t = SystemTime::UNIX_EPOCH;
    let r = full_write_result("a\nb\n", t);
    assert_eq!(r.line_count, 2);
    assert_eq!(r.size, 4);
    assert_eq!(r.modified, Some(t));
    assert!(matches!(r.details, WriteResultDetails::NoDetails));
    assert_eq!(full_write_result("", t).line_count, 0);
    assert_eq!(full_write_result("é", t).size, 2);
}

#[test]
fn partial_write_result_returns_the_text_when_asked() {
    let change = ChangeResult {
        partial_write_index: 0,
        line_number_start: 1,
        line_number_end: 1,
        context: "x".to_string(),
    };
    let t = SystemTime::UNIX_EPOCH;
    let r = partial_write_result("x\ny", vec![change], true, t);
    assert_eq!(r.modified, Some(t));
    assert_eq!(r.line_count, 2);
    assert_eq!(r.size, 3);
    match r.details {
        WriteResultDetails::Partial(p) => {
            assert_eq!(p.change_results.len(), 1);
            assert_eq!(p.full_content, Some("x\ny".to_string()));
        }
        other => panic!("unexpected {:?}", other),
    }
    match partial_write_result("x", vec![], false, t).details {
        WriteResultDetails::Partial(p) => assert_eq!(p.full_content, None),
        other => panic!("unexpected {:?}", other),
    }
}

#[test]
fn changed_file_is_not_overwritten() {
    assert!(check_unchanged(true, "c".to_string()).is_ok());
    assert!(matches!(check_unchanged(false, "c".to_string()),
        Err(WriteError::TimestampMismatch { content }) if content == "c"));
    assert!(check_absent(false, String::new()).is_ok());
    assert!(matches!(check_absent(true, "old".to_string()),
        Err(WriteError::FileExists { content }) if content == "old"));
}

#[test]
fn lines_are_counted_as_str_lines_counts_them() {
    assert_eq!(count_lines(""), 0);
    assert_eq!(count_lines("a"), 1);
    assert_eq!(count_lines("a\n"), 1);
    assert_eq!(count_lines("a\n\n"), 2);
    assert_eq!(count_lines("a\r\nb"), 2);
}

#[test]
fn read_metadata_counts_lines_when_asked() {
    let t = SystemTime::UNIX_EPOCH;
    let counted = read_metadata("a\nb", t, 3, &ReadOptions { content_only: false, count_lines: true });
    assert_eq!(counted.line_count, Some(2));
    assert_eq!(counted.size, Some(3));
    assert_eq!(counted.modified, Some(t));
    let plain = read_metadata("a\nb", t, 3, &ReadOptions::default());
    assert_eq!(plain.line_count, None);
    let always = line_counted_metadata("x\ny\nz\n", None, 6);
    assert_eq!(always.line_count, Some(3));
    assert_eq!(always.modified, None);
}

#[test]
fn section_result_takes_the_time_after_the_write() {
    let t = SystemTime::UNIX_EPOCH;
    let r = full_write_result("abc", t);
    let later = t + std::time::Duration::from_secs(5);
    let stamped = r.with_modified(later);
    assert_eq!(stamped.modified, Some(later));
    assert_eq!(stamped.size, 3);
    assert_eq!(stamped.line_count, 1);
}
