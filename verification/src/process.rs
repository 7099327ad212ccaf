//! What a finished winget process amounts to: its standard output as text, or
//! the error that explains why there is none.
use vstd::prelude::*;
use vstd::utf8::*;

use crate::error::WingetError;
use crate::text::trim;
use crate::text::trim_str;

verus! {

/// What a finished process left behind.
pub struct CommandOutput {
    /// The process reported success.
    pub success: bool,
    /// Its exit code, where it has one.
    pub code: Option<i32>,
    /// Everything it wrote to standard output.
    pub stdout: Vec<u8>,
    /// Everything it wrote to standard error.
    pub stderr: Vec<u8>,
}

/// The text that `String::from_utf8_lossy` gives for `bytes`.
pub uninterp spec fn lossy_utf8(bytes: Seq<u8>) -> Seq<char>;

/// Calls `String::from_utf8_lossy`. Its result is named `lossy_utf8` of the
/// argument; of valid UTF-8 it is the decoded text, as std documents. How
/// invalid sequences are replaced is not stated.
#[verifier::external_body]
fn from_utf8_lossy(bytes: &[u8]) -> (r: String)
    ensures
        r@ == lossy_utf8(bytes@),
        valid_utf8(bytes@) ==> r@ == decode_utf8(bytes@),
{
    String::from_utf8_lossy(bytes).into_owned()
}

/// Calls `String::from_utf8`: it succeeds exactly on valid UTF-8, with the
/// decoded text. Of the error nothing is stated.
#[verifier::external_body]
fn string_from_utf8(bytes: Vec<u8>) -> (r: Result<String, std::string::FromUtf8Error>)
    ensures
        r is Ok <==> valid_utf8(bytes@),
        r matches Ok(s) ==> s@ == decode_utf8(bytes@),
{
    String::from_utf8(bytes)
}

/// The standard output of a finished process as text: a failed process gives
/// `CommandFailed` with its exit code and its trimmed standard error, and
/// output that is not UTF-8 gives `Utf8`.
pub fn command_output_text(output: CommandOutput) -> (r: Result<String, WingetError>)
    ensures
        !output.success ==> (r matches Err(WingetError::CommandFailed { code, stderr }) && code
            == output.code && stderr@ == trim(lossy_utf8(output.stderr@))),
        !output.success && valid_utf8(output.stderr@) ==> (r matches Err(
            WingetError::CommandFailed { stderr, .. },
        ) && stderr@ == trim(decode_utf8(output.stderr@))),
        output.success ==> (r is Ok <==> valid_utf8(output.stdout@)),
        output.success ==> (r matches Ok(text) ==> text@ == decode_utf8(output.stdout@)),
        output.success && !valid_utf8(output.stdout@) ==> r matches Err(WingetError::Utf8(_)),
{
    if !output.success {
        let stderr = from_utf8_lossy(output.stderr.as_slice());
        let trimmed = trim_str(stderr.as_str()).to_owned();
        return Err(WingetError::CommandFailed { code: output.code, stderr: trimmed });
    }
    match string_from_utf8(output.stdout) {
        Ok(text) => Ok(text),
        Err(e) => Err(WingetError::Utf8(e)),
    }
}

} // verus!
