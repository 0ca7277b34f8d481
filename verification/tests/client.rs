use codem::client::file_ops::{WriteOperation, WriteResultWithChecks};
use codem::client::list::ListOptions;
use codem::types::{WriteResult, WriteResultDetails};

#[test]
fn write_result_converts_without_checks() {
    let r = WriteResult { line_count: 3, size: 12, modified: None, details: WriteResultDetails::NoDetails };
    let c = WriteResultWithChecks::from(r);
    assert_eq!(c.line_count, 3);
    assert_eq!(c.size, 12);
    assert!(c.check_results.is_empty());
    assert!(matches!(c.details, WriteResultDetails::NoDetails));
}

#[test]
fn list_options_default_to_a_flat_listing() {
    let o = ListOptions::default();
    assert!(!o.recursive);
    assert!(!o.include_stats);
    assert!(o.pattern.is_none());
}

#[test]
fn full_write_operation_holds_its_text() {
    match WriteOperation::Full("x".to_string()) {
        WriteOperation::Full(s) => assert_eq!(s, "x"),
        _ => panic!("wrong variant"),
    }
}
