//! What Git prints, and what it is asked to do.

use vstd::prelude::*;

use crate::text::{chars_of, text_of, trim, Pattern};

verus! {

/// The error of `std::str::from_utf8`.
#[verifier::external_type_specification]
#[verifier::external_body]
pub struct ExUtf8Error(std::str::Utf8Error);

/// `std::str::from_utf8` succeeds on valid UTF-8 and nothing else, and gives the string with
/// those bytes.
pub assume_specification[ std::str::from_utf8 ](v: &[u8]) -> (r: Result<
    &str,
    std::str::Utf8Error,
>)
    ensures
        r is Ok <==> vstd::utf8::valid_utf8(v@),
        r matches Ok(s) ==> vstd::utf8::encode_utf8(s@) == v@,
;

/// Why a Git command is of no use.
#[derive(Debug)]
pub enum GitError {
    /// It failed, with this on its standard error.
    Failed { operation: String, stderr: String },
    /// Its output is not UTF-8.
    NotUtf8,
}

impl GitError {
    /// The message for the user.
    pub fn describe(&self) -> (text: String)
        ensures
            text@ == match *self {
                GitError::Failed { operation, stderr } => operation@ + " failed: "@ + stderr@,
                GitError::NotUtf8 => "Git returned non-UTF-8 output"@,
            },
    {
        match self {
            GitError::Failed { operation, stderr } => {
                let mut text: String = operation.clone();
                text.append(" failed: ");
                text.append(stderr.as_str());
                text
            },
            GitError::NotUtf8 => "Git returned non-UTF-8 output".to_owned(),
        }
    }
}

/// A text without the white space at its ends.
pub fn trimmed_text(text: &str) -> (r: String)
    ensures
        r@ == crate::text::bare(text@),
{
    let chars: Vec<char> = chars_of(text);
    text_of(trim(chars.as_slice(), Pattern::WhiteSpace))
}

/// The output of a command as trimmed text.
pub fn trim_stdout(stdout: &[u8]) -> (r: Result<String, GitError>)
    ensures
        match r {
            Ok(text) => vstd::utf8::valid_utf8(stdout@) && text@ == crate::text::bare(
                vstd::utf8::decode_utf8(stdout@),
            ),
            Err(error) => !vstd::utf8::valid_utf8(stdout@) && error is NotUtf8,
        },
{
    match std::str::from_utf8(stdout) {
        Ok(text) => {
            proof {
                vstd::utf8::encode_utf8_decode_utf8(text@);
            }
            Ok(trimmed_text(text))
        },
        Err(_) => Err(GitError::NotUtf8),
    }
}

/// The trimmed output of a command that succeeded, or else what it said on standard error.
pub fn ensure_success(success: bool, stdout: &[u8], stderr: &str, operation: &str) -> (r: Result<
    String,
    GitError,
>)
    ensures
        match r {
            Ok(text) => success && vstd::utf8::valid_utf8(stdout@) && text@ == crate::text::bare(
                vstd::utf8::decode_utf8(stdout@),
            ),
            Err(GitError::Failed { operation: name, stderr: said }) => !success && name@
                == operation@ && said@ == crate::text::bare(stderr@),
            Err(GitError::NotUtf8) => success && !vstd::utf8::valid_utf8(stdout@),
        },
{
    if !success {
        return Err(
            GitError::Failed { operation: operation.to_owned(), stderr: trimmed_text(stderr) },
        );
    }
    trim_stdout(stdout)
}

} // verus!
