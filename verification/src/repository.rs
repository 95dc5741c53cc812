//! Where a repository keeps things, and how it is found.

use vstd::prelude::*;
use vstd::slice::slice_to_vec;

use crate::format::{format_named, ObjectFormat, UnsupportedFormat};
use crate::path::join_text;
use crate::text::{chars_of, lines, strip_prefix, text_of};

verus! {

/// The places of a repository. Paths are byte strings.
#[derive(Debug)]
pub struct Repository {
    pub root: Vec<u8>,
    pub git_dir: Vec<u8>,
    pub common_dir: Vec<u8>,
    pub index_path: Vec<u8>,
    pub objects_dir: Vec<u8>,
    pub object_format: ObjectFormat,
}

/// Who makes a commit.
#[derive(Debug)]
pub struct Identities {
    pub author: String,
    pub committer: String,
}

/// Why a repository cannot be used.
#[derive(Debug)]
pub enum RepositoryError {
    /// A `.git` file without a target.
    NoGitdirTarget,
    /// Git's description of the repository ends before this part of it.
    Incomplete(MissingPart),
    /// Git's description of the repository goes on behind its last part.
    UnexpectedOutput,
    /// A format that is not supported.
    Format(UnsupportedFormat),
    /// Another operation is under way; this is its marker.
    OperationInProgress { marker: String },
    /// Git did not say who the author is.
    NoAuthor,
    /// Git did not say who the committer is.
    NoCommitter,
}

/// The parts of Git's description of a repository, in their order.
#[derive(Debug, Clone, Copy, PartialEq, Eq, Structural)]
pub enum MissingPart {
    Root,
    GitDir,
    ObjectFormat,
    CommonDir,
    IndexPath,
    ObjectsDir,
}

impl MissingPart {
    /// The message for the user.
    pub fn describe(&self) -> (text: &'static str)
        ensures
            text@ == match *self {
                MissingPart::Root => "Git did not return the working-tree root"@,
                MissingPart::GitDir => "Git did not return its administrative directory"@,
                MissingPart::ObjectFormat => "Git did not return its object format"@,
                MissingPart::CommonDir => "Git did not return its common directory"@,
                MissingPart::IndexPath => "Git did not return its index path"@,
                MissingPart::ObjectsDir => "Git did not return its object directory"@,
            },
    {
        match *self {
            MissingPart::Root => "Git did not return the working-tree root",
            MissingPart::GitDir => "Git did not return its administrative directory",
            MissingPart::ObjectFormat => "Git did not return its object format",
            MissingPart::CommonDir => "Git did not return its common directory",
            MissingPart::IndexPath => "Git did not return its index path",
            MissingPart::ObjectsDir => "Git did not return its object directory",
        }
    }
}

impl RepositoryError {
    /// The message for the user.
    pub fn describe(&self) -> (text: String)
        ensures
            match *self {
                RepositoryError::NoGitdirTarget => text@
                    == "the .git file does not contain a gitdir target"@,
                RepositoryError::Incomplete(MissingPart::Root) => text@
                    == "Git did not return the working-tree root"@,
                RepositoryError::Incomplete(MissingPart::GitDir) => text@
                    == "Git did not return its administrative directory"@,
                RepositoryError::Incomplete(MissingPart::ObjectFormat) => text@
                    == "Git did not return its object format"@,
                RepositoryError::Incomplete(MissingPart::CommonDir) => text@
                    == "Git did not return its common directory"@,
                RepositoryError::Incomplete(MissingPart::IndexPath) => text@
                    == "Git did not return its index path"@,
                RepositoryError::Incomplete(MissingPart::ObjectsDir) => text@
                    == "Git did not return its object directory"@,
                RepositoryError::UnexpectedOutput => text@
                    == "Git returned unexpected repository discovery output"@,
                RepositoryError::Format(error) => text@ == "unsupported Git object format: "@
                    + error.name@,
                RepositoryError::OperationInProgress { marker } => text@
                    == "a Git operation is in progress ("@ + marker@
                    + "); finish or abort it before running shasha"@,
                RepositoryError::NoAuthor => text@ == "Git did not return GIT_AUTHOR_IDENT"@,
                RepositoryError::NoCommitter => text@
                    == "Git did not return GIT_COMMITTER_IDENT"@,
            },
    {
        match self {
            RepositoryError::NoGitdirTarget =>
                "the .git file does not contain a gitdir target".to_owned(),
            RepositoryError::Incomplete(part) => part.describe().to_owned(),
            RepositoryError::UnexpectedOutput =>
                "Git returned unexpected repository discovery output".to_owned(),
            RepositoryError::Format(error) => error.describe(),
            RepositoryError::OperationInProgress { marker } => {
                let mut text: String = "a Git operation is in progress (".to_owned();
                text.append(marker.as_str());
                text.append("); finish or abort it before running shasha");
                text
            },
            RepositoryError::NoAuthor => "Git did not return GIT_AUTHOR_IDENT".to_owned(),
            RepositoryError::NoCommitter => "Git did not return GIT_COMMITTER_IDENT".to_owned(),
        }
    }
}

/// The bytes of the path that a text spells.
pub open spec fn text_path(text: Seq<char>) -> Seq<u8> {
    vstd::utf8::encode_utf8(text)
}

/// The path that a text spells.
fn path_of(chars: &[char]) -> (path: Vec<u8>)
    ensures
        path@ == text_path(chars@),
{
    slice_to_vec(text_of(chars).as_str().as_bytes())
}

/// The part that is missing where a description has only `count` lines.
pub open spec fn missing_part(count: nat) -> MissingPart {
    if count == 0 {
        MissingPart::Root
    } else if count == 1 {
        MissingPart::GitDir
    } else if count == 2 {
        MissingPart::ObjectFormat
    } else if count == 3 {
        MissingPart::CommonDir
    } else if count == 4 {
        MissingPart::IndexPath
    } else {
        MissingPart::ObjectsDir
    }
}

/// The markers that Git leaves while an operation is under way.
pub open spec fn operation_markers() -> Seq<Seq<char>> {
    seq![
        "MERGE_HEAD"@,
        "CHERRY_PICK_HEAD"@,
        "REVERT_HEAD"@,
        "rebase-merge"@,
        "rebase-apply"@,
    ]
}

/// The first marker, from the given one on, that is present.
pub open spec fn marker_from(present: Seq<bool>, from: nat) -> Option<Seq<char>>
    decreases present.len() - from,
{
    if from >= present.len() {
        None
    } else if present[from as int] {
        Some(operation_markers()[from as int])
    } else {
        marker_from(present, from + 1)
    }
}

/// The marker of the operation that is under way, if there is one.
pub open spec fn operation_under_way(present: Seq<bool>) -> Option<Seq<char>> {
    marker_from(present, 0)
}

/// The text behind the given start in the last line that has it.
pub open spec fn last_value(lines: Seq<Seq<char>>, start: Seq<char>) -> Option<Seq<char>>
    decreases lines.len(),
{
    if lines.len() == 0 {
        None
    } else if start.is_prefix_of(lines.last()) {
        Some(lines.last().skip(start.len() as int))
    } else {
        last_value(lines.drop_last(), start)
    }
}

/// The arguments that make Git describe a repository.
pub open spec fn description_arguments() -> Seq<Seq<char>> {
    seq![
        "rev-parse"@,
        "--path-format=absolute"@,
        "--show-toplevel"@,
        "--absolute-git-dir"@,
        "--show-object-format"@,
        "--git-common-dir"@,
        "--git-path"@,
        "index"@,
        "--git-path"@,
        "objects"@,
    ]
}

/// The arguments that make Git describe a repository, its parts in the order in which
/// `Repository::discover_with_git` reads them.
pub fn discovery_arguments() -> (arguments: Vec<&'static str>)
    ensures
        arguments@.len() == description_arguments().len(),
        forall|i: int|
            0 <= i < arguments@.len() ==> (#[trigger] arguments@[i])@
                == description_arguments()[i],
{
    vec![
        "rev-parse",
        "--path-format=absolute",
        "--show-toplevel",
        "--absolute-git-dir",
        "--show-object-format",
        "--git-common-dir",
        "--git-path",
        "index",
        "--git-path",
        "objects",
    ]
}

impl Repository {
    /// The root of the working tree.
    pub fn root(&self) -> (root: &[u8])
        ensures
            root@ == self.root@,
    {
        self.root.as_slice()
    }

    /// The format of the object IDs.
    pub fn object_format(&self) -> (format: ObjectFormat)
        ensures
            format == self.object_format,
    {
        self.object_format
    }

    /// Reads the places of a repository out of Git's description: the root, the administrative
    /// directory, the object format, the common directory, the index and the object directory,
    /// a line each.
    pub fn discover_with_git(discovery: &str) -> (r: Result<Repository, RepositoryError>)
        ensures
            ({
                let parts = crate::text::text_lines(discovery@);
                match r {
                    Ok(repository) => {
                        &&& parts.len() == 6
                        &&& repository.root@ == text_path(parts[0])
                        &&& repository.git_dir@ == text_path(parts[1])
                        &&& crate::format::named_format(parts[2]) == Some(repository.object_format)
                        &&& repository.common_dir@ == text_path(parts[3])
                        &&& repository.index_path@ == text_path(parts[4])
                        &&& repository.objects_dir@ == text_path(parts[5])
                    },
                    Err(RepositoryError::Incomplete(part)) => parts.len() < 6 && part
                        == missing_part(parts.len()),
                    Err(RepositoryError::UnexpectedOutput) => parts.len() > 6,
                    Err(RepositoryError::Format(error)) => {
                        &&& parts.len() == 6
                        &&& crate::format::named_format(parts[2]) is None
                        &&& error.name@ == parts[2]
                    },
                    Err(_) => false,
                }
            }),
    {
        let chars: Vec<char> = chars_of(discovery);
        let parts: Vec<&[char]> = lines(chars.as_slice());
        if parts.len() == 0 {
            return Err(RepositoryError::Incomplete(MissingPart::Root));
        }
        if parts.len() == 1 {
            return Err(RepositoryError::Incomplete(MissingPart::GitDir));
        }
        if parts.len() == 2 {
            return Err(RepositoryError::Incomplete(MissingPart::ObjectFormat));
        }
        if parts.len() == 3 {
            return Err(RepositoryError::Incomplete(MissingPart::CommonDir));
        }
        if parts.len() == 4 {
            return Err(RepositoryError::Incomplete(MissingPart::IndexPath));
        }
        if parts.len() == 5 {
            return Err(RepositoryError::Incomplete(MissingPart::ObjectsDir));
        }
        if parts.len() > 6 {
            return Err(RepositoryError::UnexpectedOutput);
        }
        proof {
            assert(parts@[0]@ == crate::text::text_lines(discovery@)[0]);
            assert(parts@[1]@ == crate::text::text_lines(discovery@)[1]);
            assert(parts@[2]@ == crate::text::text_lines(discovery@)[2]);
            assert(parts@[3]@ == crate::text::text_lines(discovery@)[3]);
            assert(parts@[4]@ == crate::text::text_lines(discovery@)[4]);
            assert(parts@[5]@ == crate::text::text_lines(discovery@)[5]);
        }
        match format_named(parts[2]) {
            Ok(object_format) => Ok(
                Repository {
                    root: path_of(parts[0]),
                    git_dir: path_of(parts[1]),
                    common_dir: path_of(parts[3]),
                    index_path: path_of(parts[4]),
                    objects_dir: path_of(parts[5]),
                    object_format,
                },
            ),
            Err(error) => Err(RepositoryError::Format(error)),
        }
    }

    /// The paths whose existence means that an operation is under way.
    pub fn operation_paths(&self) -> (paths: Vec<Vec<u8>>)
        ensures
            paths@.len() == operation_markers().len(),
            forall|i: int|
                0 <= i < paths@.len() ==> (#[trigger] paths@[i])@ == crate::path::joined(
                    self.git_dir@,
                    text_path(operation_markers()[i]),
                ),
    {
        let git_dir: &[u8] = self.git_dir.as_slice();
        vec![
            join_text(git_dir, "MERGE_HEAD"),
            join_text(git_dir, "CHERRY_PICK_HEAD"),
            join_text(git_dir, "REVERT_HEAD"),
            join_text(git_dir, "rebase-merge"),
            join_text(git_dir, "rebase-apply"),
        ]
    }

    /// Refuses to go on while an operation is under way. `present` says of each marker's path
    /// whether it exists; the first that does is reported.
    pub fn ensure_supported_state(&self, present: &[bool]) -> (r: Result<(), RepositoryError>)
        requires
            present@.len() == operation_markers().len(),
        ensures
            match r {
                Ok(()) => operation_under_way(present@) is None,
                Err(RepositoryError::OperationInProgress { marker }) => operation_under_way(
                    present@,
                ) == Some(marker@),
                Err(_) => false,
            },
            match r {
                Ok(()) => forall|i: int| 0 <= i < present@.len() ==> !#[trigger] present@[i],
                Err(RepositoryError::OperationInProgress { marker }) => exists|i: int|
                    {
                        &&& 0 <= i < present@.len()
                        &&& #[trigger] present@[i]
                        &&& forall|j: int| 0 <= j < i ==> !#[trigger] present@[j]
                        &&& marker@ == operation_markers()[i]
                    },
                Err(_) => false,
            },
    {
        let markers: Vec<&str> = vec![
            "MERGE_HEAD",
            "CHERRY_PICK_HEAD",
            "REVERT_HEAD",
            "rebase-merge",
            "rebase-apply",
        ];
        let mut i: usize = 0;
        while i < 5
            invariant
                i <= 5,
                present@.len() == 5,
                markers@.len() == 5,
                forall|j: int| 0 <= j < 5 ==> (#[trigger] markers@[j])@ == operation_markers()[j],
                operation_under_way(present@) == marker_from(present@, i as nat),
                forall|j: int| 0 <= j < i ==> !#[trigger] present@[j],
            decreases 5 - i,
        {
            if present[i] {
                assert(markers@[i as int]@ == operation_markers()[i as int]);
                return Err(
                    RepositoryError::OperationInProgress { marker: markers[i].to_owned() },
                );
            }
            i = i + 1;
        }
        Ok(())
    }

    /// Reads the identities out of Git's list of variables. Where one is listed twice, the last
    /// counts.
    pub fn identities(&self, variables: &str) -> (r: Result<Identities, RepositoryError>)
        ensures
            ({
                let all = crate::text::text_lines(variables@);
                let author = last_value(all, "GIT_AUTHOR_IDENT="@);
                let committer = last_value(all, "GIT_COMMITTER_IDENT="@);
                match r {
                    Ok(found) => author == Some(found.author@) && committer == Some(
                        found.committer@,
                    ),
                    Err(RepositoryError::NoAuthor) => author is None,
                    Err(RepositoryError::NoCommitter) => author is Some && committer is None,
                    Err(_) => false,
                }
            }),
            r matches Ok(found) ==> crate::text::one_line(found.author@) && crate::text::one_line(
                found.committer@,
            ),
    {
        let chars: Vec<char> = chars_of(variables);
        let raw_lines: Vec<&[char]> = lines(chars.as_slice());
        let ghost all = crate::text::text_lines(variables@);
        let mut author: Option<String> = None;
        let mut committer: Option<String> = None;
        let mut i: usize = 0;
        while i < raw_lines.len()
            invariant
                i <= raw_lines@.len() == all.len(),
                forall|j: int| 0 <= j < all.len() ==> (#[trigger] raw_lines@[j])@ == all[j],
                match author {
                    Some(text) => last_value(all.take(i as int), "GIT_AUTHOR_IDENT="@) == Some(
                        text@,
                    ),
                    None => last_value(all.take(i as int), "GIT_AUTHOR_IDENT="@) is None,
                },
                match committer {
                    Some(text) => last_value(all.take(i as int), "GIT_COMMITTER_IDENT="@) == Some(
                        text@,
                    ),
                    None => last_value(all.take(i as int), "GIT_COMMITTER_IDENT="@) is None,
                },
            decreases raw_lines@.len() - i,
        {
            let line: &[char] = raw_lines[i];
            proof {
                assert(all.take(i + 1).drop_last() =~= all.take(i as int));
                assert(line@ == all[i as int]);
                lemma_identity_lines_differ(line@);
            }
            if let Some(value) = strip_prefix(line, "GIT_AUTHOR_IDENT=") {
                author = Some(text_of(value));
            } else if let Some(value) = strip_prefix(line, "GIT_COMMITTER_IDENT=") {
                committer = Some(text_of(value));
            }
            i = i + 1;
        }
        proof {
            assert(all.take(all.len() as int) =~= all);
            crate::text::lemma_lines_are_lines(variables@);
            lemma_value_is_one_line(all, "GIT_AUTHOR_IDENT="@);
            lemma_value_is_one_line(all, "GIT_COMMITTER_IDENT="@);
        }
        match author {
            None => Err(RepositoryError::NoAuthor),
            Some(author) => match committer {
                None => Err(RepositoryError::NoCommitter),
                Some(committer) => Ok(Identities { author, committer }),
            },
        }
    }

    /// The file that says where HEAD is.
    pub fn head_path(&self) -> (path: Vec<u8>)
        ensures
            path@ == crate::path::joined(self.git_dir@, text_path("HEAD"@)),
    {
        join_text(self.git_dir.as_slice(), "HEAD")
    }

    /// The directory whose existence means that references are kept in the reftable format.
    pub fn reftable_path(&self) -> (path: Vec<u8>)
        ensures
            path@ == crate::path::joined(self.common_dir@, text_path("reftable"@)),
    {
        join_text(self.common_dir.as_slice(), "reftable")
    }

    /// The file whose existence means that objects are borrowed from elsewhere.
    pub fn alternates_path(&self) -> (path: Vec<u8>)
        ensures
            path@ == crate::path::joined(self.objects_dir@, text_path("info/alternates"@)),
    {
        join_text(self.objects_dir.as_slice(), "info/alternates")
    }

    /// The file whose creation locks the index.
    pub fn lock_path(&self) -> (path: Vec<u8>)
        ensures
            path@ == self.index_path@ + text_path(".lock"@),
    {
        let mut path: Vec<u8> = slice_to_vec(self.index_path.as_slice());
        crate::path::append_bytes(&mut path, ".lock".as_bytes());
        path
    }
}

proof fn lemma_value_is_one_line(lines: Seq<Seq<char>>, start: Seq<char>)
    requires
        forall|i: int| 0 <= i < lines.len() ==> crate::text::one_line(#[trigger] lines[i]),
    ensures
        last_value(lines, start) matches Some(value) ==> crate::text::one_line(value),
    decreases lines.len(),
{
    if lines.len() > 0 {
        let line = lines.last();
        assert(crate::text::one_line(lines[lines.len() - 1]));
        if start.is_prefix_of(line) {
            let value = line.skip(start.len() as int);
            assert forall|i: int| 0 <= i < value.len() implies #[trigger] value[i] != '\n' by {
                assert(value[i] == line[i + start.len()]);
            }
        } else {
            lemma_value_is_one_line(lines.drop_last(), start);
        }
    }
}

/// No line gives both identities.
proof fn lemma_identity_lines_differ(line: Seq<char>)
    ensures
        !("GIT_AUTHOR_IDENT="@.is_prefix_of(line) && "GIT_COMMITTER_IDENT="@.is_prefix_of(line)),
{
    reveal_strlit("GIT_AUTHOR_IDENT=");
    reveal_strlit("GIT_COMMITTER_IDENT=");
    if "GIT_AUTHOR_IDENT="@.is_prefix_of(line) && "GIT_COMMITTER_IDENT="@.is_prefix_of(line) {
        assert("GIT_AUTHOR_IDENT="@[4] == line[4]);
        assert("GIT_COMMITTER_IDENT="@[4] == line[4]);
    }
}

/// The markers that Git leaves while a merge, a cherry-pick, a revert or either kind of rebase is
/// under way are all there are.
pub proof fn markers_are_those_of_git(name: Seq<char>)
    ensures
        operation_markers().len() == 5,
        operation_markers().contains(name) <==> name == "MERGE_HEAD"@ || name
            == "CHERRY_PICK_HEAD"@ || name == "REVERT_HEAD"@ || name == "rebase-merge"@ || name
            == "rebase-apply"@,
{
    let markers = operation_markers();
    assert(markers[0] == "MERGE_HEAD"@);
    assert(markers[1] == "CHERRY_PICK_HEAD"@);
    assert(markers[2] == "REVERT_HEAD"@);
    assert(markers[3] == "rebase-merge"@);
    assert(markers[4] == "rebase-apply"@);
    if markers.contains(name) {
        let i = choose|i: int| 0 <= i < markers.len() && markers[i] == name;
        assert(i == 0 || i == 1 || i == 2 || i == 3 || i == 4);
    }
}

/// An operation is under way if and only if one of its markers is present, and the first that is
/// present is the one that is reported.
pub proof fn any_marker_means_an_operation(present: Seq<bool>)
    ensures
        operation_under_way(present) is None <==> forall|i: int|
            0 <= i < present.len() ==> !#[trigger] present[i],
        forall|i: int|
            0 <= i < present.len() && #[trigger] present[i] && (forall|j: int|
                0 <= j < i ==> !#[trigger] present[j]) ==> operation_under_way(present) == Some(
                operation_markers()[i],
            ),
{
    lemma_marker_from(present, 0);
}

proof fn lemma_marker_from(present: Seq<bool>, from: nat)
    requires
        from <= present.len(),
    ensures
        marker_from(present, from) is None <==> forall|i: int|
            from <= i < present.len() ==> !#[trigger] present[i],
        forall|i: int|
            from <= i < present.len() && #[trigger] present[i] && (forall|j: int|
                from <= j < i ==> !#[trigger] present[j]) ==> marker_from(present, from) == Some(
                operation_markers()[i],
            ),
    decreases present.len() - from,
{
    if from < present.len() {
        lemma_marker_from(present, from + 1);
        if present[from as int] {
            assert forall|i: int|
                from <= i < present.len() && #[trigger] present[i] && (forall|j: int|
                    from <= j < i ==> !#[trigger] present[j]) implies marker_from(present, from)
                == Some(operation_markers()[i]) by {
                if i > from {
                    assert(!present[from as int]);
                }
            }
        } else {
            assert forall|i: int|
                from <= i < present.len() && #[trigger] present[i] && (forall|j: int|
                    from <= j < i ==> !#[trigger] present[j]) implies marker_from(present, from)
                == Some(operation_markers()[i]) by {
                assert(i != from);
                assert(forall|j: int| from + 1 <= j < i ==> !#[trigger] present[j]);
            }
        }
    }
}

/// A value is what stands behind its start in the last line that has it.
pub proof fn last_line_counts(lines: Seq<Seq<char>>, start: Seq<char>, value: Seq<char>, i: int)
    requires
        0 <= i < lines.len(),
        lines[i] == start + value,
        forall|j: int| i < j < lines.len() ==> !start.is_prefix_of(#[trigger] lines[j]),
    ensures
        last_value(lines, start) == Some(value),
    decreases lines.len(),
{
    let last = lines.len() - 1;
    assert(lines.last() == lines[last]);
    if i == last {
        assert((start + value).take(start.len() as int) =~= start);
        assert((start + value).skip(start.len() as int) =~= value);
        assert(start.is_prefix_of(lines.last()));
    } else {
        let front = lines.drop_last();
        assert(!start.is_prefix_of(lines[last]));
        assert forall|j: int| i < j < front.len() implies !start.is_prefix_of(
            #[trigger] front[j],
        ) by {
            assert(front[j] == lines[j]);
        }
        last_line_counts(front, start, value, i);
    }
}

/// Where no line has the start, there is no value.
pub proof fn no_line_no_value(lines: Seq<Seq<char>>, start: Seq<char>)
    requires
        forall|j: int| 0 <= j < lines.len() ==> !start.is_prefix_of(#[trigger] lines[j]),
    ensures
        last_value(lines, start) is None,
    decreases lines.len(),
{
    if lines.len() > 0 {
        let front = lines.drop_last();
        assert(!start.is_prefix_of(lines[lines.len() - 1]));
        assert forall|j: int| 0 <= j < front.len() implies !start.is_prefix_of(
            #[trigger] front[j],
        ) by {
            assert(front[j] == lines[j]);
        }
        no_line_no_value(front, start);
    }
}

/// A path that a text spells can be read back as that text.
pub proof fn paths_spell_their_text(text: Seq<char>)
    ensures
        vstd::utf8::decode_utf8(text_path(text)) == text,
{
    vstd::utf8::encode_utf8_decode_utf8(text);
}

/// The part that is missing is the one behind those that are there.
pub proof fn parts_come_in_order(count: nat)
    requires
        count < 6,
    ensures
        missing_part(count) == seq![
            MissingPart::Root,
            MissingPart::GitDir,
            MissingPart::ObjectFormat,
            MissingPart::CommonDir,
            MissingPart::IndexPath,
            MissingPart::ObjectsDir,
        ][count as int],
{
}

/// Git is asked for each part of a repository's description, in the order in which they are read:
/// the working tree, the administrative directory, the object format, the common directory, the
/// index and the objects, all as absolute paths.
pub proof fn parts_are_asked_for_in_order()
    ensures
        ({
            let arguments = description_arguments();
            &&& arguments.len() == 10
            &&& arguments[0] == "rev-parse"@
            &&& arguments[1] == "--path-format=absolute"@
            &&& arguments[2] == "--show-toplevel"@ && missing_part(0) == MissingPart::Root
            &&& arguments[3] == "--absolute-git-dir"@ && missing_part(1) == MissingPart::GitDir
            &&& arguments[4] == "--show-object-format"@ && missing_part(2)
                == MissingPart::ObjectFormat
            &&& arguments[5] == "--git-common-dir"@ && missing_part(3) == MissingPart::CommonDir
            &&& arguments[6] == "--git-path"@ && arguments[7] == "index"@ && missing_part(4)
                == MissingPart::IndexPath
            &&& arguments[8] == "--git-path"@ && arguments[9] == "objects"@ && missing_part(5)
                == MissingPart::ObjectsDir
        }),
{
}

} // verus!
