//! HEAD, references and what they point to.

use vstd::prelude::*;
use vstd::slice::slice_to_vec;

use crate::format::ObjectFormat;
use crate::git::{trim_stdout, GitError};
use crate::path::join_text;
use crate::repository::Repository;
use crate::text::{
    chars_of, is_all_hex, lines, lower, split_once, strip_prefix, text_of, trim, Pattern,
};

verus! {

/// Where HEAD is: the reference to move, and the commit it stands at, if there is one yet.
#[derive(Debug)]
pub struct Head {
    pub reference: String,
    pub oid: Option<String>,
}

/// Why a reference cannot be followed.
#[derive(Debug)]
pub enum RefError {
    /// HEAD holds neither a reference nor an object ID.
    InvalidHead,
    /// References point to each other too many times over.
    TooDeep,
    /// This file holds something else than an object ID.
    InvalidOid { source: Vec<u8> },
}

impl RefError {
    /// The message for the user, with the file's path as it is shown.
    pub fn describe(&self, shown_source: &str) -> (text: String)
        ensures
            match *self {
                RefError::InvalidHead => text@ == "Git HEAD contains an invalid target"@,
                RefError::TooDeep => text@ == "Git reference chain is too deep"@,
                RefError::InvalidOid { .. } => text@ == "invalid object ID in "@ + shown_source@,
            },
    {
        match self {
            RefError::InvalidHead => "Git HEAD contains an invalid target".to_owned(),
            RefError::TooDeep => "Git reference chain is too deep".to_owned(),
            RefError::InvalidOid { .. } => {
                let mut text: String = "invalid object ID in ".to_owned();
                text.append(shown_source);
                text
            },
        }
    }
}

/// A full object ID in digits of either case.
pub open spec fn full_oid(format: ObjectFormat, text: Seq<char>) -> bool {
    text.len() == format.hex_len() && crate::text::all_hex(text)
}

/// The reference that a text names behind `ref: `.
pub open spec fn symbolic(text: Seq<char>) -> Option<Seq<char>> {
    if "ref: "@.is_prefix_of(text) {
        Some(text.skip("ref: "@.len() as int))
    } else {
        None
    }
}

/// The object ID and the name on a line of the packed references. Comments and peeled tags have
/// none.
pub open spec fn packed_pair(line: Seq<char>) -> Option<(Seq<char>, Seq<char>)> {
    if line.len() > 0 && (line[0] == '#' || line[0] == '^') {
        None
    } else {
        crate::text::parted(line, Pattern::Char(' '))
    }
}

/// The object ID on the first line for a reference.
pub open spec fn packed_oid(lines: Seq<Seq<char>>, reference: Seq<char>) -> Option<Seq<char>>
    decreases lines.len(),
{
    if lines.len() == 0 {
        None
    } else {
        match packed_pair(lines[0]) {
            Some((oid, name)) if name == reference => Some(oid),
            _ => packed_oid(lines.skip(1), reference),
        }
    }
}

/// A full object ID in lower case.
pub fn checked_oid(format: ObjectFormat, text: &[char]) -> (r: Option<String>)
    ensures
        match r {
            Some(oid) => full_oid(format, text@) && oid@ == crate::text::lowered(text@),
            None => !full_oid(format, text@),
        },
{
    if text.len() == format.oid_hex_len() && is_all_hex(text) {
        Some(text_of(lower(text).as_slice()))
    } else {
        None
    }
}

/// The object ID of a reference in the file of packed references.
pub fn find_packed(contents: &str, reference: &str) -> (r: Option<Vec<char>>)
    ensures
        match r {
            Some(oid) => packed_oid(crate::text::text_lines(contents@), reference@) == Some(oid@),
            None => packed_oid(crate::text::text_lines(contents@), reference@) is None,
        },
{
    let chars: Vec<char> = chars_of(contents);
    let raw_lines: Vec<&[char]> = lines(chars.as_slice());
    let ghost all = crate::text::text_lines(contents@);
    let wanted: Vec<char> = chars_of(reference);
    let mut i: usize = 0;
    assert(all.skip(0) =~= all);
    while i < raw_lines.len()
        invariant
            i <= raw_lines@.len() == all.len(),
            forall|j: int| 0 <= j < all.len() ==> (#[trigger] raw_lines@[j])@ == all[j],
            wanted@ == reference@,
            all == crate::text::text_lines(contents@),
            packed_oid(all, reference@) == packed_oid(all.skip(i as int), reference@),
        decreases raw_lines@.len() - i,
    {
        let line: &[char] = raw_lines[i];
        proof {
            assert(line@ == all[i as int]);
            assert(all.skip(i as int)[0] == all[i as int]);
            assert(all.skip(i as int).skip(1) =~= all.skip(i + 1));
        }
        i = i + 1;
        if line.len() > 0 && (line[0] == '#' || line[0] == '^') {
            continue ;
        }
        if let Some((oid, name)) = split_once(line, Pattern::Char(' ')) {
            if crate::text::same(name, wanted.as_slice()) {
                return Some(slice_to_vec(oid));
            }
        }
    }
    None
}

/// What has to be done to learn where HEAD is.
#[derive(Debug)]
pub enum HeadQuery {
    /// Follow this reference through the files of the repository.
    FollowFiles { reference: String },
    /// Ask Git for the commit behind this reference.
    AskGit { reference: String },
    /// Nothing: HEAD is here.
    Resolved { head: Head },
}

/// The reference that HEAD names, or `HEAD` itself where it names none.
pub fn head_reference(contents: &str) -> (reference: String)
    ensures
        reference@ == match symbolic(crate::text::bare(contents@)) {
            Some(name) => name,
            None => "HEAD"@,
        },
{
    let chars: Vec<char> = chars_of(contents);
    match strip_prefix(trim(chars.as_slice(), Pattern::WhiteSpace), "ref: ") {
        Some(name) => text_of(name),
        None => "HEAD".to_owned(),
    }
}

/// An update of a reference that fails unless it still stands where it is expected to.
#[derive(Debug)]
pub struct ReferenceUpdate {
    pub reference: String,
    pub new_oid: String,
    pub expected_oid: String,
    pub reflog: String,
}

impl ReferenceUpdate {
    /// The arguments that make Git do the update.
    pub fn arguments(&self) -> (arguments: Vec<&str>)
        ensures
            arguments@.len() == 6,
            arguments@[0]@ == "update-ref"@,
            arguments@[1]@ == "-m"@,
            arguments@[2]@ == self.reflog@,
            arguments@[3]@ == self.reference@,
            arguments@[4]@ == self.new_oid@,
            arguments@[5]@ == self.expected_oid@,
    {
        vec![
            "update-ref",
            "-m",
            self.reflog.as_str(),
            self.reference.as_str(),
            self.new_oid.as_str(),
            self.expected_oid.as_str(),
        ]
    }
}

/// The object ID that stands for none: zeros.
pub open spec fn zero_oid(format: ObjectFormat) -> Seq<char> {
    Seq::new(format.hex_len(), |i: int| '0')
}

/// The first line of a message, or a text in its place where it has no line.
pub open spec fn first_line_or(message: Seq<char>, fallback: Seq<char>) -> Seq<char> {
    let all = crate::text::text_lines(message);
    if all.len() > 0 {
        all[0]
    } else {
        fallback
    }
}

/// The first line of a message, or a text in its place.
pub fn subject_or(message: &str, fallback: &str) -> (subject: String)
    ensures
        subject@ == first_line_or(message@, fallback@),
{
    let chars: Vec<char> = chars_of(message);
    let all: Vec<&[char]> = lines(chars.as_slice());
    if all.len() > 0 {
        assert(all@[0]@ == crate::text::text_lines(message@)[0]);
        text_of(all[0])
    } else {
        fallback.to_owned()
    }
}

impl Repository {
    /// Takes in an object ID that a file holds.
    pub fn validate_oid(&self, oid: &str, source: &[u8]) -> (r: Result<String, RefError>)
        ensures
            match r {
                Ok(text) => full_oid(self.object_format, oid@) && text@ == crate::text::lowered(
                    oid@,
                ),
                Err(RefError::InvalidOid { source: file }) => !full_oid(self.object_format, oid@)
                    && file@ == source@,
                Err(_) => false,
            },
    {
        let chars: Vec<char> = chars_of(oid);
        match checked_oid(self.object_format, chars.as_slice()) {
            Some(text) => Ok(text),
            None => Err(RefError::InvalidOid { source: slice_to_vec(source) }),
        }
    }

    /// Takes in the contents of HEAD. A reference is followed through files, unless namespaces or
    /// the reftable format are in use; an object ID means that HEAD is detached.
    pub fn head(&self, contents: &str, namespaced: bool, reftable: bool) -> (r: Result<
        HeadQuery,
        RefError,
    >)
        ensures
            ({
                let value = crate::text::bare(contents@);
                match r {
                    Ok(HeadQuery::FollowFiles { reference }) => symbolic(value) == Some(
                        reference@,
                    ) && !namespaced && !reftable,
                    Ok(HeadQuery::AskGit { reference }) => symbolic(value) == Some(reference@) && (
                    namespaced || reftable),
                    Ok(HeadQuery::Resolved { head }) => {
                        &&& symbolic(value) is None
                        &&& full_oid(self.object_format, value)
                        &&& head.reference@ == "HEAD"@
                        &&& head.oid matches Some(oid) && oid@ == crate::text::lowered(value)
                    },
                    Err(error) => {
                        &&& error is InvalidHead
                        &&& symbolic(value) is None
                        &&& !full_oid(self.object_format, value)
                    },
                }
            }),
            forall|files: spec_fn(Seq<u8>) -> Option<Seq<char>>|
                !(r is Ok && r->Ok_0 is AskGit) ==> #[trigger] head_commit(
                    files,
                    self.git_dir@,
                    self.common_dir@,
                    self.object_format,
                    contents@,
                ) == match r {
                    Ok(HeadQuery::FollowFiles { reference }) => reference_oid(
                        files,
                        self.git_dir@,
                        self.common_dir@,
                        self.object_format,
                        reference@,
                        0,
                    ),
                    Ok(HeadQuery::Resolved { head }) => Ok(oid_view(head.oid)),
                    Ok(HeadQuery::AskGit { .. }) => Ok(None),
                    Err(error) => Err(error.fault()),
                },
    {
        let chars: Vec<char> = chars_of(contents);
        let value: &[char] = trim(chars.as_slice(), Pattern::WhiteSpace);
        if let Some(name) = strip_prefix(value, "ref: ") {
            let reference: String = text_of(name);
            if !namespaced && !reftable {
                Ok(HeadQuery::FollowFiles { reference })
            } else {
                Ok(HeadQuery::AskGit { reference })
            }
        } else {
            match checked_oid(self.object_format, value) {
                Some(oid) => Ok(
                    HeadQuery::Resolved {
                        head: Head { reference: "HEAD".to_owned(), oid: Some(oid) },
                    },
                ),
                None => Err(RefError::InvalidHead),
            }
        }
    }

    /// The commit that Git prints for HEAD. Where Git fails there is none.
    pub fn git_head_oid(&self, success: bool, stdout: &[u8]) -> (r: Result<
        Option<String>,
        GitError,
    >)
        ensures
            match r {
                Ok(Some(oid)) => success && vstd::utf8::valid_utf8(stdout@) && oid@
                    == crate::text::bare(vstd::utf8::decode_utf8(stdout@)),
                Ok(None) => !success,
                Err(error) => success && !vstd::utf8::valid_utf8(stdout@) && error is NotUtf8,
            },
    {
        if success {
            match trim_stdout(stdout) {
                Ok(oid) => Ok(Some(oid)),
                Err(error) => Err(error),
            }
        } else {
            Ok(None)
        }
    }

    /// The update that moves a reference from the old commit, or from none, to the new one.
    pub fn update_reference(
        &self,
        reference: &str,
        new_oid: &str,
        old_oid: Option<&str>,
        message: &str,
    ) -> (update: ReferenceUpdate)
        ensures
            update.reference@ == reference@,
            update.new_oid@ == new_oid@,
            update.expected_oid@ == match old_oid {
                Some(oid) => oid@,
                None => zero_oid(self.object_format),
            },
            update.reflog@ == "commit: "@ + first_line_or(message@, "shasha commit"@),
    {
        let expected_oid: String = match old_oid {
            Some(oid) => oid.to_owned(),
            None => zeros(self.object_format),
        };
        let mut reflog: String = "commit: ".to_owned();
        reflog.append(subject_or(message, "shasha commit").as_str());
        ReferenceUpdate {
            reference: reference.to_owned(),
            new_oid: new_oid.to_owned(),
            expected_oid,
            reflog,
        }
    }
}

/// The object ID that stands for none.
fn zeros(format: ObjectFormat) -> (text: String)
    ensures
        text@ == zero_oid(format),
{
    let mut text: String = String::new();
    let len: usize = format.oid_hex_len();
    let mut i: usize = 0;
    while i < len
        invariant
            i <= len == format.hex_len(),
            text@ == zero_oid(format).take(i as int),
        decreases len - i,
    {
        text.push('0');
        assert(zero_oid(format).take(i + 1) =~= zero_oid(format).take(i as int).push('0'));
        i = i + 1;
    }
    assert(zero_oid(format).take(len as int) =~= zero_oid(format));
    text
}

/// Where a reference is looked for next.
#[derive(Debug, Clone, Copy, PartialEq, Eq, Structural)]
pub enum RefStage {
    /// In a file of its own below the administrative directory.
    InGitDir,
    /// In a file of its own below the common directory.
    InCommonDir,
    /// Among the packed references.
    Packed,
}

/// The text of an object ID, if there is one.
pub open spec fn oid_view(oid: Option<String>) -> Option<Seq<char>> {
    match oid {
        Some(oid) => Some(oid@),
        None => None,
    }
}

/// What a step of the search for a reference leads to.
#[derive(Debug)]
pub enum RefStep {
    /// There is another file to read.
    Read,
    /// The search is over, with the commit behind the reference, if there is one.
    Done { oid: Option<String> },
}

/// References that may follow each other before the chain counts as too deep.
pub const MAX_DEPTH: u8 = 8;

/// What is wrong with HEAD or a chain of references.
pub enum RefFault {
    /// HEAD holds neither a reference nor an object ID.
    InvalidHead,
    /// It is too long.
    TooDeep,
    /// This file holds something else than an object ID.
    InvalidOid { source: Seq<u8> },
}

impl RefError {
    /// The fault that the error reports.
    pub open spec fn fault(&self) -> RefFault {
        match *self {
            RefError::InvalidHead => RefFault::InvalidHead,
            RefError::TooDeep => RefFault::TooDeep,
            RefError::InvalidOid { source } => RefFault::InvalidOid { source: source@ },
        }
    }
}

/// The commit that a text out of a file stands for.
pub open spec fn held_oid(format: ObjectFormat, text: Seq<char>, source: Seq<u8>) -> Result<
    Option<Seq<char>>,
    RefFault,
> {
    if full_oid(format, text) {
        Ok(Some(crate::text::lowered(text)))
    } else {
        Err(RefFault::InvalidOid { source })
    }
}

/// The commit behind a reference in a repository whose files have the given contents. A file of
/// its own below the administrative directory counts before one below the common directory, and
/// both before the packed references. A file may name another reference, which is looked for in
/// the same way, one level deeper.
pub open spec fn reference_oid(
    files: spec_fn(Seq<u8>) -> Option<Seq<char>>,
    git_dir: Seq<u8>,
    common_dir: Seq<u8>,
    format: ObjectFormat,
    reference: Seq<char>,
    depth: nat,
) -> Result<Option<Seq<char>>, RefFault>
    decreases MAX_DEPTH - depth,
{
    let own = crate::path::joined(git_dir, vstd::utf8::encode_utf8(reference));
    let common = crate::path::joined(common_dir, vstd::utf8::encode_utf8(reference));
    let source = if files(own) is Some {
        own
    } else {
        common
    };
    if depth >= MAX_DEPTH {
        Err(RefFault::TooDeep)
    } else {
        match files(source) {
            Some(text) => match symbolic(crate::text::bare(text)) {
                Some(next) => reference_oid(files, git_dir, common_dir, format, next, depth + 1),
                None => held_oid(format, crate::text::bare(text), source),
            },
            None => packed_reference_oid(files, common_dir, format, reference),
        }
    }
}

/// The commit that HEAD stands at in a repository whose files have the given contents.
pub open spec fn head_commit(
    files: spec_fn(Seq<u8>) -> Option<Seq<char>>,
    git_dir: Seq<u8>,
    common_dir: Seq<u8>,
    format: ObjectFormat,
    contents: Seq<char>,
) -> Result<Option<Seq<char>>, RefFault> {
    let value = crate::text::bare(contents);
    match symbolic(value) {
        Some(reference) => reference_oid(files, git_dir, common_dir, format, reference, 0),
        None => if full_oid(format, value) {
            Ok(Some(crate::text::lowered(value)))
        } else {
            Err(RefFault::InvalidHead)
        },
    }
}

/// An object ID is where HEAD leads to: in HEAD itself, in the file of the reference that it
/// names, or among the packed references.
pub open spec fn leads_to(
    files: spec_fn(Seq<u8>) -> Option<Seq<char>>,
    git_dir: Seq<u8>,
    common_dir: Seq<u8>,
    contents: Seq<char>,
    oid: Seq<char>,
) -> bool {
    let value = crate::text::bare(contents);
    match symbolic(value) {
        None => value == oid,
        Some(reference) => {
            let own = files(crate::path::joined(git_dir, vstd::utf8::encode_utf8(reference)));
            let common = files(
                crate::path::joined(common_dir, vstd::utf8::encode_utf8(reference)),
            );
            let packed = files(
                crate::path::joined(common_dir, vstd::utf8::encode_utf8("packed-refs"@)),
            );
            match (own, common, packed) {
                (Some(text), _, _) => crate::text::bare(text) == oid,
                (None, Some(text), _) => crate::text::bare(text) == oid,
                (None, None, Some(text)) => packed_oid(crate::text::text_lines(text), reference)
                    == Some(oid),
                (None, None, None) => false,
            }
        },
    }
}

/// The commit behind a reference among the packed references.
pub open spec fn packed_reference_oid(
    files: spec_fn(Seq<u8>) -> Option<Seq<char>>,
    common_dir: Seq<u8>,
    format: ObjectFormat,
    reference: Seq<char>,
) -> Result<Option<Seq<char>>, RefFault> {
    let source = crate::path::joined(common_dir, vstd::utf8::encode_utf8("packed-refs"@));
    match files(source) {
        None => Ok(None),
        Some(text) => match packed_oid(crate::text::text_lines(text), reference) {
            None => Ok(None),
            Some(held) => held_oid(format, held, source),
        },
    }
}

/// The search for the commit behind a reference. Whoever searches reads the file that `path`
/// names and reports its contents, or that it is missing.
#[derive(Debug)]
pub struct RefResolver {
    git_dir: Vec<u8>,
    common_dir: Vec<u8>,
    format: ObjectFormat,
    reference: String,
    depth: u8,
    stage: RefStage,
}

impl RefResolver {
    /// The administrative directory.
    pub closed spec fn git_dir(&self) -> Seq<u8> {
        self.git_dir@
    }

    /// The common directory.
    pub closed spec fn common_dir(&self) -> Seq<u8> {
        self.common_dir@
    }

    /// The format of the object IDs.
    pub closed spec fn format(&self) -> ObjectFormat {
        self.format
    }

    /// The reference that is looked for.
    pub closed spec fn reference(&self) -> Seq<char> {
        self.reference@
    }

    /// The references that were followed.
    pub closed spec fn depth(&self) -> u8 {
        self.depth
    }

    /// Where the reference is looked for.
    pub closed spec fn looks_in(&self) -> RefStage {
        self.stage
    }

    pub open spec fn inv(&self) -> bool {
        self.depth() < MAX_DEPTH
    }

    /// The same repository.
    pub open spec fn in_place_of(&self, before: &Self) -> bool {
        &&& self.git_dir() == before.git_dir()
        &&& self.common_dir() == before.common_dir()
        &&& self.format() == before.format()
    }

    /// The file to read.
    pub open spec fn file(&self) -> Seq<u8> {
        match self.looks_in() {
            RefStage::InGitDir => crate::path::joined(
                self.git_dir(),
                vstd::utf8::encode_utf8(self.reference()),
            ),
            RefStage::InCommonDir => crate::path::joined(
                self.common_dir(),
                vstd::utf8::encode_utf8(self.reference()),
            ),
            RefStage::Packed => crate::path::joined(
                self.common_dir(),
                vstd::utf8::encode_utf8("packed-refs"@),
            ),
        }
    }

    /// What the search comes to from here on, in a repository whose files have these contents.
    pub open spec fn answer(&self, files: spec_fn(Seq<u8>) -> Option<Seq<char>>) -> Result<
        Option<Seq<char>>,
        RefFault,
    > {
        match self.looks_in() {
            RefStage::InGitDir => reference_oid(
                files,
                self.git_dir(),
                self.common_dir(),
                self.format(),
                self.reference(),
                self.depth() as nat,
            ),
            RefStage::InCommonDir => match files(self.file()) {
                Some(text) => match symbolic(crate::text::bare(text)) {
                    Some(next) => reference_oid(
                        files,
                        self.git_dir(),
                        self.common_dir(),
                        self.format(),
                        next,
                        self.depth() as nat + 1,
                    ),
                    None => held_oid(self.format(), crate::text::bare(text), self.file()),
                },
                None => packed_reference_oid(
                    files,
                    self.common_dir(),
                    self.format(),
                    self.reference(),
                ),
            },
            RefStage::Packed => packed_reference_oid(
                files,
                self.common_dir(),
                self.format(),
                self.reference(),
            ),
        }
    }

    /// Files that may still have to be read, at most.
    pub open spec fn files_left(&self) -> nat {
        (3 * (MAX_DEPTH - self.depth()) - match self.looks_in() {
            RefStage::InGitDir => 0int,
            RefStage::InCommonDir => 1,
            RefStage::Packed => 2,
        }) as nat
    }

    /// Starts with a reference.
    pub fn new(repository: &Repository, reference: &str) -> (search: RefResolver)
        ensures
            search.inv(),
            search.git_dir() == repository.git_dir@,
            search.common_dir() == repository.common_dir@,
            search.format() == repository.object_format,
            search.reference() == reference@,
            search.depth() == 0,
            search.looks_in() == RefStage::InGitDir,
            search.files_left() == 24,
            forall|files: spec_fn(Seq<u8>) -> Option<Seq<char>>| #[trigger]
                search.answer(files) == reference_oid(
                    files,
                    repository.git_dir@,
                    repository.common_dir@,
                    repository.object_format,
                    reference@,
                    0,
                ),
    {
        RefResolver {
            git_dir: slice_to_vec(repository.git_dir.as_slice()),
            common_dir: slice_to_vec(repository.common_dir.as_slice()),
            format: repository.object_format,
            reference: reference.to_owned(),
            depth: 0,
            stage: RefStage::InGitDir,
        }
    }

    /// The file to read.
    pub fn path(&self) -> (path: Vec<u8>)
        ensures
            path@ == self.file(),
    {
        match self.stage {
            RefStage::InGitDir => join_text(self.git_dir.as_slice(), self.reference.as_str()),
            RefStage::InCommonDir => join_text(
                self.common_dir.as_slice(),
                self.reference.as_str(),
            ),
            RefStage::Packed => join_text(self.common_dir.as_slice(), "packed-refs"),
        }
    }

    /// Where the reference is looked for.
    pub fn stage(&self) -> (stage: RefStage)
        ensures
            stage == self.looks_in(),
    {
        self.stage
    }

    /// The file is missing: the next place is looked at, and behind the last there is no commit.
    pub fn missing(&mut self) -> (step: RefStep)
        requires
            old(self).inv(),
        ensures
            final(self).inv(),
            final(self).in_place_of(old(self)),
            final(self).reference() == old(self).reference(),
            final(self).depth() == old(self).depth(),
            match old(self).looks_in() {
                RefStage::InGitDir => step is Read && final(self).looks_in()
                    == RefStage::InCommonDir,
                RefStage::InCommonDir => step is Read && final(self).looks_in() == RefStage::Packed,
                RefStage::Packed => step matches RefStep::Done { oid } && oid is None,
            },
            step is Read ==> final(self).files_left() < old(self).files_left(),
            forall|files: spec_fn(Seq<u8>) -> Option<Seq<char>>|
                files(old(self).file()) is None ==> #[trigger] old(self).answer(files)
                    == match step {
                    RefStep::Read => final(self).answer(files),
                    RefStep::Done { oid } => Ok(oid_view(oid)),
                },
    {
        match self.stage {
            RefStage::InGitDir => {
                self.stage = RefStage::InCommonDir;
                RefStep::Read
            },
            RefStage::InCommonDir => {
                self.stage = RefStage::Packed;
                RefStep::Read
            },
            RefStage::Packed => RefStep::Done { oid: None },
        }
    }

    /// The file has these contents. One that names another reference is followed, up to a limit;
    /// any other has to hold an object ID. Among packed references the name has to match.
    pub fn contents(&mut self, text: &str) -> (r: Result<RefStep, RefError>)
        requires
            old(self).inv(),
        ensures
            final(self).inv(),
            final(self).in_place_of(old(self)),
            r matches Ok(RefStep::Read) ==> final(self).files_left() < old(self).files_left(),
            ({
                let value = crate::text::bare(text@);
                let packed = packed_oid(crate::text::text_lines(text@), old(self).reference());
                let found = if old(self).looks_in() == RefStage::Packed {
                    packed
                } else {
                    Some(value)
                };
                let followed = if old(self).looks_in() == RefStage::Packed {
                    None
                } else {
                    symbolic(value)
                };
                match r {
                    Ok(RefStep::Read) => {
                        &&& followed == Some(final(self).reference())
                        &&& old(self).depth() + 1 < MAX_DEPTH
                        &&& final(self).depth() == old(self).depth() + 1
                        &&& final(self).looks_in() == RefStage::InGitDir
                    },
                    Ok(RefStep::Done { oid }) => {
                        &&& followed is None
                        &&& match (found, oid) {
                            (Some(held), Some(oid)) => full_oid(old(self).format(), held) && oid@
                                == crate::text::lowered(held),
                            (None, None) => true,
                            _ => false,
                        }
                    },
                    Err(RefError::TooDeep) => followed is Some && old(self).depth() + 1
                        >= MAX_DEPTH,
                    Err(RefError::InvalidOid { source }) => {
                        &&& followed is None
                        &&& found matches Some(held) && !full_oid(old(self).format(), held)
                        &&& source@ == old(self).file()
                    },
                    Err(RefError::InvalidHead) => false,
                }
            }),
            forall|files: spec_fn(Seq<u8>) -> Option<Seq<char>>|
                files(old(self).file()) == Some(text@) ==> #[trigger] old(self).answer(files)
                    == match r {
                    Ok(RefStep::Read) => final(self).answer(files),
                    Ok(RefStep::Done { oid }) => Ok(oid_view(oid)),
                    Err(error) => Err(error.fault()),
                },
    {
        match self.stage {
            RefStage::Packed => match find_packed(text, self.reference.as_str()) {
                None => Ok(RefStep::Done { oid: None }),
                Some(held) => match checked_oid(self.format, held.as_slice()) {
                    Some(oid) => Ok(RefStep::Done { oid: Some(oid) }),
                    None => Err(RefError::InvalidOid { source: self.path() }),
                },
            },
            _ => {
                let chars: Vec<char> = chars_of(text);
                let value: &[char] = trim(chars.as_slice(), Pattern::WhiteSpace);
                if let Some(next) = strip_prefix(value, "ref: ") {
                    if self.depth + 1 >= MAX_DEPTH {
                        return Err(RefError::TooDeep);
                    }
                    self.reference = text_of(next);
                    self.depth = self.depth + 1;
                    self.stage = RefStage::InGitDir;
                    return Ok(RefStep::Read);
                }
                match checked_oid(self.format, value) {
                    Some(oid) => Ok(RefStep::Done { oid: Some(oid) }),
                    None => Err(RefError::InvalidOid { source: self.path() }),
                }
            },
        }
    }
}

/// A text that names a reference behind `ref: `, with or without white space around it, names
/// exactly that reference, character for character.
pub proof fn named_reference_is_kept(before: Seq<char>, name: Seq<char>, behind: Seq<char>)
    requires
        forall|i: int| 0 <= i < before.len() ==> Pattern::WhiteSpace.has(#[trigger] before[i]),
        forall|i: int| 0 <= i < behind.len() ==> Pattern::WhiteSpace.has(#[trigger] behind[i]),
        name.len() > 0,
        !Pattern::WhiteSpace.has(name.last()),
    ensures
        symbolic(crate::text::bare(before + ("ref: "@ + name) + behind)) == Some(name),
{
    reveal_strlit("ref: ");
    let text = "ref: "@ + name;
    assert(text.last() == name.last());
    crate::laws::trimming_finds_the_text(before, text, behind, Pattern::WhiteSpace);
    assert("ref: "@ =~= text.take(5));
    assert(text.skip(5) =~= name);
}

/// Nothing else names a reference: a text that names one is `ref: ` and the name.
pub proof fn nothing_else_names_a_reference(text: Seq<char>)
    ensures
        match symbolic(text) {
            Some(name) => text == "ref: "@ + name,
            None => forall|name: Seq<char>| text != #[trigger] ("ref: "@ + name),
        },
{
    match symbolic(text) {
        Some(name) => {
            assert(text =~= "ref: "@ + name);
        },
        None => {
            assert forall|name: Seq<char>| text != #[trigger] ("ref: "@ + name) by {
                if text == "ref: "@ + name {
                    assert("ref: "@ =~= text.take("ref: "@.len() as int));
                }
            }
        },
    }
}

/// An object ID of 40 or 64 hexadecimal digits, as the format has it, is an object ID, and nothing
/// else is.
pub proof fn object_ids_are_digits(format: ObjectFormat, text: Seq<char>)
    ensures
        full_oid(format, text) <==> {
            &&& text.len() == match format {
                ObjectFormat::Sha1 => 40int,
                ObjectFormat::Sha256 => 64,
            }
            &&& forall|i: int|
                #![trigger text[i]]
                0 <= i < text.len() ==> {
                    ||| '0' <= text[i] <= '9'
                    ||| 'A' <= text[i] <= 'F'
                    ||| 'a' <= text[i] <= 'f'
                }
        },
{
    assert forall|i: int| 0 <= i < text.len() implies crate::text::hex_char(#[trigger] text[i]) == {
        ||| '0' <= text[i] <= '9'
        ||| 'A' <= text[i] <= 'F'
        ||| 'a' <= text[i] <= 'f'
    } by {}
}

/// A line of the packed references that gives an object ID for a reference.
pub open spec fn packs(line: Seq<char>, oid: Seq<char>, reference: Seq<char>) -> bool {
    &&& line == oid + " "@ + reference
    &&& forall|i: int| 0 <= i < oid.len() ==> #[trigger] oid[i] != ' '
    &&& line[0] != '#'
    &&& line[0] != '^'
}

/// A line of the packed references that gives some object ID for a reference.
pub open spec fn packs_some(line: Seq<char>, reference: Seq<char>) -> bool {
    exists|oid: Seq<char>| packs(line, oid, reference)
}

proof fn lemma_packs(line: Seq<char>, oid: Seq<char>, reference: Seq<char>)
    ensures
        packs(line, oid, reference) <==> packed_pair(line) == Some((oid, reference)),
{
    reveal_strlit(" ");
    if packs(line, oid, reference) {
        crate::laws::parts_are_found(oid, ' ', reference, Pattern::Char(' '));
        assert(line =~= oid + seq![' '] + reference);
    }
    if packed_pair(line) == Some((oid, reference)) {
        crate::laws::parts_make_up_the_text(line, Pattern::Char(' '));
        assert(line =~= oid + " "@ + reference);
    }
}

/// The first line of the packed references that gives an object ID for a reference counts,
/// whatever stands on the other lines.
pub proof fn first_packed_line_counts(
    lines: Seq<Seq<char>>,
    i: int,
    oid: Seq<char>,
    reference: Seq<char>,
)
    requires
        0 <= i < lines.len(),
        packs(lines[i], oid, reference),
        forall|j: int| 0 <= j < i ==> !packs_some(#[trigger] lines[j], reference),
    ensures
        packed_oid(lines, reference) == Some(oid),
    decreases lines.len(),
{
    if i == 0 {
        lemma_packs(lines[0], oid, reference);
    } else {
        match packed_pair(lines[0]) {
            Some((other, name)) if name == reference => {
                lemma_packs(lines[0], other, reference);
                assert(packs_some(lines[0], reference));
            },
            _ => {},
        }
        let rest = lines.skip(1);
        assert forall|j: int| 0 <= j < i - 1 implies !packs_some(#[trigger] rest[j], reference) by {
            assert(rest[j] == lines[j + 1]);
        }
        first_packed_line_counts(rest, i - 1, oid, reference);
    }
}

/// Where no line of the packed references gives an object ID for a reference, there is none.
pub proof fn packed_references_without_a_line(lines: Seq<Seq<char>>, reference: Seq<char>)
    requires
        forall|j: int| 0 <= j < lines.len() ==> !packs_some(#[trigger] lines[j], reference),
    ensures
        packed_oid(lines, reference) is None,
    decreases lines.len(),
{
    if lines.len() > 0 {
        match packed_pair(lines[0]) {
            Some((other, name)) if name == reference => {
                lemma_packs(lines[0], other, reference);
                assert(packs_some(lines[0], reference));
            },
            _ => {},
        }
        let rest = lines.skip(1);
        assert forall|j: int| 0 <= j < rest.len() implies !packs_some(
            #[trigger] rest[j],
            reference,
        ) by {
            assert(rest[j] == lines[j + 1]);
        }
        packed_references_without_a_line(rest, reference);
    }
}

/// How a reference is followed, said of the files: the file below the administrative directory
/// counts before the one below the common directory, and both before the packed references. A file
/// that names another reference is followed, up to eight levels; one that holds an object ID gives
/// that ID in lower case; without a file or a packed line there is no commit.
pub proof fn references_are_followed(
    files: spec_fn(Seq<u8>) -> Option<Seq<char>>,
    git_dir: Seq<u8>,
    common_dir: Seq<u8>,
    format: ObjectFormat,
    reference: Seq<char>,
    depth: nat,
    before: Seq<char>,
    value: Seq<char>,
    behind: Seq<char>,
)
    requires
        forall|i: int| 0 <= i < before.len() ==> Pattern::WhiteSpace.has(#[trigger] before[i]),
        forall|i: int| 0 <= i < behind.len() ==> Pattern::WhiteSpace.has(#[trigger] behind[i]),
        value.len() > 0,
        !Pattern::WhiteSpace.has(value[0]),
        !Pattern::WhiteSpace.has(value.last()),
    ensures
        ({
            let name = vstd::utf8::encode_utf8(reference);
            let own = files(crate::path::joined(git_dir, name));
            let common = files(crate::path::joined(common_dir, name));
            let packed_path = crate::path::joined(
                common_dir,
                vstd::utf8::encode_utf8("packed-refs"@),
            );
            let answer = reference_oid(files, git_dir, common_dir, format, reference, depth);
            let link = Some(before + ("ref: "@ + value) + behind);
            let oid = Some(before + value + behind);
            &&& depth >= 8 ==> answer == Err::<Option<Seq<char>>, RefFault>(RefFault::TooDeep)
            &&& depth < 8 && (own == link || (own is None && common == link)) ==> answer
                == reference_oid(files, git_dir, common_dir, format, value, depth + 1)
            &&& depth < 8 && full_oid(format, value) && (own == oid || (own is None && common
                == oid)) ==> answer == Ok::<Option<Seq<char>>, RefFault>(
                Some(crate::text::lowered(value)),
            )
            &&& depth < 8 && own is None && common is None && files(packed_path) is None ==> answer
                == Ok::<Option<Seq<char>>, RefFault>(None)
            &&& depth < 8 && own is None && common is None && files(packed_path) is Some
                && packed_oid(crate::text::text_lines(files(packed_path)->0), reference) == Some(
                value,
            ) && full_oid(format, value) ==> answer == Ok::<Option<Seq<char>>, RefFault>(
                Some(crate::text::lowered(value)),
            )
        }),
{
    named_reference_is_kept(before, value, behind);
    crate::laws::trimming_finds_the_text(before, value, behind, Pattern::WhiteSpace);
    reveal_strlit("ref: ");
    if full_oid(format, value) && "ref: "@.is_prefix_of(value) {
        assert("ref: "@[0] == value[0]);
    }
}

/// A file of a reference that holds neither an object ID nor the name of another reference is
/// reported, and so is a packed line with something else than an object ID.
pub proof fn other_contents_are_reported(
    files: spec_fn(Seq<u8>) -> Option<Seq<char>>,
    git_dir: Seq<u8>,
    common_dir: Seq<u8>,
    format: ObjectFormat,
    reference: Seq<char>,
    depth: nat,
    text: Seq<char>,
)
    requires
        depth < 8,
        !full_oid(format, crate::text::bare(text)),
        forall|name: Seq<char>| crate::text::bare(text) != #[trigger] ("ref: "@ + name),
    ensures
        ({
            let name = vstd::utf8::encode_utf8(reference);
            let own = crate::path::joined(git_dir, name);
            let common = crate::path::joined(common_dir, name);
            let packed = crate::path::joined(common_dir, vstd::utf8::encode_utf8("packed-refs"@));
            let answer = reference_oid(files, git_dir, common_dir, format, reference, depth);
            &&& files(own) == Some(text) ==> answer == Err::<Option<Seq<char>>, RefFault>(
                RefFault::InvalidOid { source: own },
            )
            &&& files(own) is None && files(common) == Some(text) ==> answer == Err::<
                Option<Seq<char>>,
                RefFault,
            >(RefFault::InvalidOid { source: common })
            &&& files(own) is None && files(common) is None && files(packed) is Some && packed_oid(
                crate::text::text_lines(files(packed)->0),
                reference,
            ) == Some(crate::text::bare(text)) ==> answer == Err::<Option<Seq<char>>, RefFault>(
                RefFault::InvalidOid { source: packed },
            )
            &&& head_commit(files, git_dir, common_dir, format, text) == Err::<
                Option<Seq<char>>,
                RefFault,
            >(RefFault::InvalidHead)
        }),
{
    nothing_else_names_a_reference(crate::text::bare(text));
}

/// HEAD with the name of a reference stands where that reference does, and HEAD with an object ID
/// at that commit.
pub proof fn head_stands_where_it_says(
    files: spec_fn(Seq<u8>) -> Option<Seq<char>>,
    git_dir: Seq<u8>,
    common_dir: Seq<u8>,
    format: ObjectFormat,
    before: Seq<char>,
    value: Seq<char>,
    behind: Seq<char>,
)
    requires
        forall|i: int| 0 <= i < before.len() ==> Pattern::WhiteSpace.has(#[trigger] before[i]),
        forall|i: int| 0 <= i < behind.len() ==> Pattern::WhiteSpace.has(#[trigger] behind[i]),
        value.len() > 0,
        !Pattern::WhiteSpace.has(value[0]),
        !Pattern::WhiteSpace.has(value.last()),
    ensures
        head_commit(files, git_dir, common_dir, format, before + ("ref: "@ + value) + behind)
            == reference_oid(files, git_dir, common_dir, format, value, 0),
        full_oid(format, value) ==> head_commit(
            files,
            git_dir,
            common_dir,
            format,
            before + value + behind,
        ) == Ok::<Option<Seq<char>>, RefFault>(Some(crate::text::lowered(value))),
{
    named_reference_is_kept(before, value, behind);
    crate::laws::trimming_finds_the_text(before, value, behind, Pattern::WhiteSpace);
    reveal_strlit("ref: ");
    if full_oid(format, value) && "ref: "@.is_prefix_of(value) {
        assert("ref: "@[0] == value[0]);
    }
}

/// The subject of a message is its first line, whatever follows it, and the object ID that stands
/// for none has as many zeros as an object ID has digits.
pub proof fn subject_is_the_first_line(
    line: Seq<char>,
    rest: Seq<char>,
    fallback: Seq<char>,
    format: ObjectFormat,
)
    requires
        crate::text::one_line(line),
        line.len() == 0 || line.last() != '\r',
    ensures
        line.len() > 0 ==> first_line_or(line, fallback) == line,
        first_line_or(line + "\n"@ + rest, fallback) == line,
        first_line_or(Seq::empty(), fallback) == fallback,
        zero_oid(format).len() == match format {
            ObjectFormat::Sha1 => 40int,
            ObjectFormat::Sha256 => 64,
        },
        forall|i: int| 0 <= i < zero_oid(format).len() ==> #[trigger] zero_oid(format)[i] == '0',
{
    crate::laws::lines_are_read_as_written(line, rest);
}

} // verus!
