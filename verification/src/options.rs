//! What to commit, and what came of it.

use std::time::Duration;

use vstd::prelude::*;
use vstd::slice::slice_to_vec;

use crate::path::{validate_version_file, VersionFileError};
use crate::text::{chars_of, trim, Pattern};

verus! {

/// What to commit and how. The version file is a path relative to the repository root.
#[derive(Debug)]
pub struct CommitOptions {
    pub message: String,
    pub version_file: Vec<u8>,
    pub prefix_len: u8,
    pub threads: usize,
}

impl Clone for CommitOptions {
    fn clone(&self) -> (copy: CommitOptions)
        ensures
            copy.message@ == self.message@,
            copy.version_file@ == self.version_file@,
            copy.prefix_len == self.prefix_len,
            copy.threads == self.threads,
    {
        CommitOptions {
            message: self.message.clone(),
            version_file: slice_to_vec(self.version_file.as_slice()),
            prefix_len: self.prefix_len,
            threads: self.threads,
        }
    }
}

/// A commit that was made.
#[derive(Debug)]
pub struct CommitOutcome {
    pub oid: String,
    pub prefix: String,
    pub nonce: u64,
    pub attempts: u64,
    pub elapsed: Duration,
    pub reference: String,
    pub version_file: Vec<u8>,
}

impl Clone for CommitOutcome {
    fn clone(&self) -> (copy: CommitOutcome)
        ensures
            copy.oid@ == self.oid@,
            copy.prefix@ == self.prefix@,
            copy.nonce == self.nonce,
            copy.attempts == self.attempts,
            copy.elapsed == self.elapsed,
            copy.reference@ == self.reference@,
            copy.version_file@ == self.version_file@,
    {
        CommitOutcome {
            oid: self.oid.clone(),
            prefix: self.prefix.clone(),
            nonce: self.nonce,
            attempts: self.attempts,
            elapsed: self.elapsed,
            reference: self.reference.clone(),
            version_file: slice_to_vec(self.version_file.as_slice()),
        }
    }
}

/// Why options are refused.
#[derive(Debug, Clone, Copy, PartialEq, Eq, Structural)]
pub enum OptionsError {
    EmptyMessage,
    NulInMessage,
    PrefixLength,
    ThreadCount,
    VersionFile(VersionFileError),
}

impl OptionsError {
    /// The message for the user.
    pub fn describe(&self) -> (text: &'static str)
        ensures
            match *self {
                OptionsError::EmptyMessage => text@ == "the commit message cannot be empty"@,
                OptionsError::NulInMessage => text@
                    == "the commit message cannot contain a NUL byte"@,
                OptionsError::PrefixLength => text@
                    == "the prefix length must be between 1 and 8 hexadecimal characters"@,
                OptionsError::ThreadCount => text@ == "the thread count must be at least 1"@,
                OptionsError::VersionFile(VersionFileError::NotRelative) => text@
                    == "the version file must be a non-empty repository-relative path"@,
                OptionsError::VersionFile(VersionFileError::NotNormal) => text@
                    == "the version file must not contain '.', '..', or a path root"@,
                OptionsError::VersionFile(VersionFileError::InsideGit) => text@
                    == "the version file cannot be inside .git"@,
            },
    {
        match *self {
            OptionsError::EmptyMessage => "the commit message cannot be empty",
            OptionsError::NulInMessage => "the commit message cannot contain a NUL byte",
            OptionsError::PrefixLength =>
                "the prefix length must be between 1 and 8 hexadecimal characters",
            OptionsError::ThreadCount => "the thread count must be at least 1",
            OptionsError::VersionFile(error) => error.describe(),
        }
    }
}

impl CommitOptions {
    /// What is wrong with the options: the first of the faults that applies.
    pub open spec fn fault(&self) -> Option<OptionsError> {
        if crate::text::bare(self.message@).len() == 0 {
            Some(OptionsError::EmptyMessage)
        } else if self.message@.contains('\0') {
            Some(OptionsError::NulInMessage)
        } else if !(1 <= self.prefix_len <= 8) {
            Some(OptionsError::PrefixLength)
        } else if self.threads == 0 {
            Some(OptionsError::ThreadCount)
        } else {
            match crate::path::version_file_fault(self.version_file@) {
                Some(error) => Some(OptionsError::VersionFile(error)),
                None => None,
            }
        }
    }

    /// The defaults on a machine that can run the given number of threads at once, if that is
    /// known: no message yet, `.shasha` as the version file and five digits.
    pub fn with_parallelism(parallelism: Option<usize>) -> (options: CommitOptions)
        ensures
            options.message@ == Seq::<char>::empty(),
            options.version_file@ == vstd::utf8::encode_utf8(".shasha"@),
            options.prefix_len == 5,
            options.threads == match parallelism {
                Some(threads) => threads,
                None => 1,
            },
    {
        let threads: usize = match parallelism {
            Some(threads) => threads,
            None => 1,
        };
        CommitOptions {
            message: String::new(),
            version_file: slice_to_vec(".shasha".as_bytes()),
            prefix_len: 5,
            threads,
        }
    }
}

/// Whether a text has a NUL character.
fn has_nul(chars: &[char]) -> (r: bool)
    ensures
        r == chars@.contains('\0'),
{
    let mut i: usize = 0;
    while i < chars.len()
        invariant
            i <= chars@.len(),
            forall|j: int| 0 <= j < i ==> chars@[j] != '\0',
        decreases chars@.len() - i,
    {
        if chars[i] == '\0' {
            assert(chars@[i as int] == '\0');
            return true;
        }
        i = i + 1;
    }
    false
}

/// Accepts options that a commit can be made with.
pub fn validate_options(options: &CommitOptions) -> (r: Result<(), OptionsError>)
    ensures
        match r {
            Ok(()) => options.fault() is None,
            Err(error) => options.fault() == Some(error),
        },
{
    let message: Vec<char> = chars_of(options.message.as_str());
    if trim(message.as_slice(), Pattern::WhiteSpace).len() == 0 {
        return Err(OptionsError::EmptyMessage);
    }
    if has_nul(message.as_slice()) {
        return Err(OptionsError::NulInMessage);
    }
    if options.prefix_len < 1 || options.prefix_len > 8 {
        return Err(OptionsError::PrefixLength);
    }
    if options.threads == 0 {
        return Err(OptionsError::ThreadCount);
    }
    match validate_version_file(options.version_file.as_slice()) {
        Ok(()) => Ok(()),
        Err(error) => Err(OptionsError::VersionFile(error)),
    }
}

/// Options are accepted if and only if the message has a character that is not white space and no
/// NUL, one to eight digits are asked for of one or more workers, and the version file is
/// accepted. Where several of these fail, the first in this order is reported.
pub proof fn options_are_accepted_if_all_is_well(options: CommitOptions)
    ensures
        ({
            let message = options.message@;
            let empty = forall|i: int|
                0 <= i < message.len() ==> crate::text::white_space(#[trigger] message[i]);
            let nul = exists|i: int| 0 <= i < message.len() && #[trigger] message[i] == '\0';
            let digits = options.prefix_len == 0 || options.prefix_len > 8;
            let file = crate::path::version_file_fault(options.version_file@);
            match options.fault() {
                None => !empty && !nul && !digits && options.threads != 0 && file is None,
                Some(OptionsError::EmptyMessage) => empty,
                Some(OptionsError::NulInMessage) => !empty && nul,
                Some(OptionsError::PrefixLength) => !empty && !nul && digits,
                Some(OptionsError::ThreadCount) => !empty && !nul && !digits && options.threads
                    == 0,
                Some(OptionsError::VersionFile(error)) => !empty && !nul && !digits
                    && options.threads != 0 && file == Some(error),
            }
        }),
{
    let message = options.message@;
    let (from, to) = crate::laws::ends_are_cut_off(message, Pattern::WhiteSpace);
    if from < to {
        assert(!crate::text::white_space(message[from]));
    } else {
        assert forall|i: int| 0 <= i < message.len() implies crate::text::white_space(
            #[trigger] message[i],
        ) by {
            assert(Pattern::WhiteSpace.has(message[i]));
        }
    }
    if message.contains('\0') {
        let i = choose|i: int| 0 <= i < message.len() && message[i] == '\0';
        assert(message[i] == '\0');
    }
}

} // verus!
