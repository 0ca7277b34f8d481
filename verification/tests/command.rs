use codem::command::{finished_output, timeout_error};
use codem::error::CommandError;

#[test]
fn finished_command_reports_its_output_and_code() {
    let o = finished_output(b"out\n", b"err", Some(3));
    assert_eq!(o.stdout, "out\n");
    assert_eq!(o.stderr, "err");
    assert_eq!(o.exit_code, 3);
}

#[test]
fn command_ended_by_a_signal_has_code_minus_one() {
    assert_eq!(finished_output(b"", b"", None).exit_code, -1);
}

#[test]
fn invalid_utf8_output_is_replaced() {
    let o = finished_output(b"a\xffb", b"", Some(0));
    assert_eq!(o.stdout, "a\u{FFFD}b");
}

#[test]
fn timed_out_command_reports_what_it_wrote() {
    match timeout_error(100, b"partial", b"warn") {
        CommandError::Timeout { timeout_ms, stdout, stderr, output } => {
            assert_eq!(timeout_ms, 100);
            assert_eq!(stdout, "partial");
            assert_eq!(stderr, "warn");
            assert_eq!(output.stdout, "partial");
            assert_eq!(output.exit_code, -1);
        }
        other => panic!("unexpected {:?}", other),
    }
}
