//! What a shell command's run reports, from the bytes it wrote and the way
//! it ended.

use vstd::prelude::*;
use vstd::utf8::*;
use crate::types::CommandOutput;
use crate::error::CommandError;
use crate::strbuf::string_bytes;

verus! {

/// The text that `String::from_utf8_lossy` makes of `bytes`: each invalid
/// sequence replaced by U+FFFD.
pub uninterp spec fn utf8_lossy(bytes: Seq<u8>) -> Seq<char>;

/// `String::from_utf8_lossy(..).into_owned()`: the contract claims that the
/// text is `utf8_lossy` of the bytes, and, as the std documentation says,
/// that valid UTF-8 comes back unchanged.
#[verifier::external_body]
fn lossy_string(bytes: &[u8]) -> (r: String)
    ensures
        r@ == utf8_lossy(bytes@),
        valid_utf8(bytes@) ==> string_bytes(r) == bytes@,
{
    String::from_utf8_lossy(bytes).into_owned()
}

/// What a command that ended reports: its output as text, and its exit
/// code, -1 where it was ended by a signal.
pub fn finished_output(stdout: &[u8], stderr: &[u8], code: Option<i32>) -> (r: CommandOutput)
    ensures
        r.stdout@ == utf8_lossy(stdout@),
        r.stderr@ == utf8_lossy(stderr@),
        valid_utf8(stdout@) ==> string_bytes(r.stdout) == stdout@,
        valid_utf8(stderr@) ==> string_bytes(r.stderr) == stderr@,
        r.exit_code == match code {
            Some(c) => c,
            None => -1i32,
        },
{
    let exit_code = match code {
        Some(c) => c,
        None => -1,
    };
    CommandOutput { stdout: lossy_string(stdout), stderr: lossy_string(stderr), exit_code }
}

/// The error of a command that was stopped after `timeout_ms`: what it had
/// written, and an output with exit code -1.
pub fn timeout_error(timeout_ms: u64, stdout: &[u8], stderr: &[u8]) -> (r: CommandError)
    ensures
        match r {
            CommandError::Timeout { timeout_ms: t, stdout: out, stderr: err, output } => {
                &&& t == timeout_ms
                &&& out@ == utf8_lossy(stdout@)
                &&& err@ == utf8_lossy(stderr@)
                &&& output.stdout@ == out@
                &&& output.stderr@ == err@
                &&& output.exit_code == -1
            },
            _ => false,
        },
{
    let output = finished_output(stdout, stderr, None);
    let out = output.stdout.clone();
    let err = output.stderr.clone();
    CommandError::Timeout { timeout_ms, stdout: out, stderr: err, output }
}

} // verus!
