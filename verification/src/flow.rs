//! The way of a commit from its target to the reference that it moves.
//!
//! Each stage is made from the one before it and from what was read or done in between. Reading
//! and writing is up to the caller; what follows from it is decided here.

use vstd::prelude::*;
use vstd::slice::slice_to_vec;

use crate::commit::{
    commit_body_prefix, finish_commit_body, object_prefix, write_commit_object, OidMismatch,
};
use crate::format::ObjectFormat;
use crate::loose::{loose_place, write_loose_object, LooseObject, LoosePlace};
use crate::miner::{MineOutcome, MineRequest};
use crate::options::{CommitOptions, CommitOutcome};
use crate::preparation::{Preparation, PreparationStage};
use crate::refs::{Head, ReferenceUpdate};
use crate::repository::{Identities, Repository};
use crate::text::{chars_of, starts_with};

verus! {

/// Why a mined commit is not published.
#[derive(Debug)]
pub enum CommitError {
    /// HEAD names another reference than before.
    HeadChanged,
    /// A digest taken in one go does not confirm the mined ID.
    Writer(OidMismatch),
    /// The stored object has another ID than the mined one.
    StoredDiffers { stored: String, mined: String },
    /// The stored object's ID does not start with what the version file says.
    PrefixDiffers { stored: String },
}

impl CommitError {
    /// The message for the user, with the version file's path as it is shown.
    pub fn describe(&self, version_file: &str) -> (text: String)
        ensures
            match *self {
                CommitError::HeadChanged => text@
                    == "HEAD changed while mining; no commit was published"@,
                CommitError::Writer(error) => text@ == "the object writer computed "@
                    + error.computed@ + ", but the miner computed "@ + error.expected@,
                CommitError::StoredDiffers { stored, mined } => text@ == "Git computed "@ + stored@
                    + ", but the miner computed "@ + mined@ + "; refusing to move HEAD"@,
                CommitError::PrefixDiffers { stored } => text@ == "the stored commit "@ + stored@
                    + " does not start with the value written to "@ + version_file@,
            },
    {
        match self {
            CommitError::HeadChanged =>
                "HEAD changed while mining; no commit was published".to_owned(),
            CommitError::Writer(error) => error.describe(),
            CommitError::StoredDiffers { stored, mined } => {
                let mut text: String = "Git computed ".to_owned();
                text.append(stored.as_str());
                text.append(", but the miner computed ");
                text.append(mined.as_str());
                text.append("; refusing to move HEAD");
                text
            },
            CommitError::PrefixDiffers { stored } => {
                let mut text: String = "the stored commit ".to_owned();
                text.append(stored.as_str());
                text.append(" does not start with the value written to ");
                text.append(version_file);
                text
            },
        }
    }
}

/// A commit whose target is chosen.
#[derive(Debug)]
pub struct Draft {
    message: String,
    version_file: Vec<u8>,
    prefix_len: u8,
    threads: usize,
    format: ObjectFormat,
    reference: String,
    old_oid: Option<String>,
    target: u32,
    prefix: String,
}

impl Draft {
    /// The message.
    pub closed spec fn message(&self) -> Seq<char> {
        self.message@
    }

    /// The version file, as seen from the root.
    pub closed spec fn version_file(&self) -> Seq<u8> {
        self.version_file@
    }

    /// Digits in the prefix.
    pub closed spec fn prefix_len(&self) -> u8 {
        self.prefix_len
    }

    /// Workers in the search.
    pub closed spec fn threads(&self) -> usize {
        self.threads
    }

    /// The format of the object IDs.
    pub closed spec fn format(&self) -> ObjectFormat {
        self.format
    }

    /// The reference to move.
    pub closed spec fn reference(&self) -> Seq<char> {
        self.reference@
    }

    /// The commit that the reference stands at.
    pub closed spec fn old_oid(&self) -> Option<Seq<char>> {
        crate::refs::oid_view(self.old_oid)
    }

    /// The target.
    pub closed spec fn target(&self) -> u32 {
        self.target
    }

    /// The target's digits.
    pub closed spec fn prefix(&self) -> Seq<char> {
        self.prefix@
    }

    /// The prefix is the target's digits.
    pub open spec fn inv(&self) -> bool {
        &&& 1 <= self.prefix_len() <= 8
        &&& self.target() < crate::hex::pow16(self.prefix_len() as nat)
        &&& self.prefix() == crate::target::prefix_text(self.target(), self.prefix_len())
    }

    /// The body of the commit ahead of its nonce.
    pub open spec fn body_prefix(&self, tree_oid: Seq<char>, identities: Identities) -> Seq<u8> {
        vstd::utf8::encode_utf8(
            crate::commit::body_text(
                tree_oid,
                self.old_oid(),
                identities.author@,
                identities.committer@,
                self.message(),
            ),
        )
    }

    /// A draft of a commit that has passed its checks, on top of HEAD.
    pub fn new(checks: &Preparation<'_>, head: Head, target: u32, prefix: String) -> (draft: Draft)
        requires
            checks.inv(),
            checks.waits_for() == PreparationStage::Clear,
            target < crate::hex::pow16(checks.options().prefix_len as nat),
            prefix@ == crate::target::prefix_text(target, checks.options().prefix_len),
        ensures
            draft.inv(),
            draft.message() == checks.options().message@,
            draft.version_file() == checks.options().version_file@,
            draft.prefix_len() == checks.options().prefix_len,
            draft.threads() == checks.options().threads,
            draft.format() == checks.repository().object_format,
            draft.reference() == head.reference@,
            draft.old_oid() == crate::refs::oid_view(head.oid),
            draft.target() == target,
            draft.prefix() == prefix@,
    {
        let options: &CommitOptions = checks.accepted();
        Draft {
            message: options.message.clone(),
            version_file: slice_to_vec(options.version_file.as_slice()),
            prefix_len: options.prefix_len,
            threads: options.threads,
            format: checks.object_format(),
            reference: head.reference,
            old_oid: head.oid,
            target,
            prefix,
        }
    }

    /// What the version file is to hold: the prefix, on a line of its own.
    pub fn version_text(&self) -> (text: String)
        ensures
            text@ == self.prefix() + "\n"@,
    {
        let mut text: String = self.prefix.clone();
        text.append("\n");
        text
    }

    /// Takes in the staged tree and the identities. A commit too long to be hashed comes to
    /// nothing.
    pub fn with_tree(self, tree_oid: &str, identities: &Identities) -> (r: Option<Unmined>)
        requires
            self.inv(),
        ensures
            ({
                let body = self.body_prefix(tree_oid@, *identities);
                match r {
                    Some(unmined) => {
                        &&& unmined.inv()
                        &&& unmined.draft() == self
                        &&& unmined.body_prefix() == body
                    },
                    None => !crate::hash::hashable(
                        crate::commit::unfinished_object(body).len() + 17,
                    ) || crate::commit::unfinished_object(body).len() + 17 > usize::MAX,
                }
            }),
    {
        let parent: Option<&str> = match &self.old_oid {
            Some(oid) => Some(oid.as_str()),
            None => None,
        };
        let body_prefix: Vec<u8> = commit_body_prefix(
            tree_oid,
            parent,
            identities.author.as_str(),
            identities.committer.as_str(),
            self.message.as_str(),
        );
        if body_prefix.len() > usize::MAX - 17 {
            return None;
        }
        let object: Vec<u8> = object_prefix(body_prefix.as_slice());
        if object.len() > usize::MAX - 17 || object.len() as u64 > u64::MAX / 8 - 17 {
            return None;
        }
        Some(Unmined { draft: self, body_prefix, object_prefix: object })
    }
}

/// A commit that lacks nothing but its nonce.
#[derive(Debug)]
pub struct Unmined {
    draft: Draft,
    body_prefix: Vec<u8>,
    object_prefix: Vec<u8>,
}

impl Unmined {
    /// The draft.
    pub closed spec fn draft(&self) -> Draft {
        self.draft
    }

    /// The body ahead of the nonce.
    pub closed spec fn body_prefix(&self) -> Seq<u8> {
        self.body_prefix@
    }

    /// The object ahead of the nonce.
    pub closed spec fn object_prefix(&self) -> Seq<u8> {
        self.object_prefix@
    }

    /// The object belongs to the body, and can be hashed.
    pub open spec fn inv(&self) -> bool {
        &&& self.draft().inv()
        &&& self.object_prefix() == crate::commit::unfinished_object(self.body_prefix())
        &&& crate::hash::hashable((self.object_prefix().len() + 17) as nat)
        &&& self.object_prefix().len() + 17 <= usize::MAX
    }

    /// What to mine.
    pub fn request(&self) -> (request: MineRequest<'_>)
        requires
            self.inv(),
        ensures
            request.format == self.draft().format(),
            request.object_prefix@ == self.object_prefix(),
            request.target == self.draft().target(),
            request.prefix_len == self.draft().prefix_len(),
            request.threads == self.draft().threads(),
            1 <= request.prefix_len <= 8,
            crate::hash::hashable((request.object_prefix@.len() + 17) as nat),
    {
        MineRequest {
            format: self.draft.format,
            object_prefix: self.object_prefix.as_slice(),
            target: self.draft.target,
            prefix_len: self.draft.prefix_len,
            threads: self.draft.threads,
        }
    }

    /// Takes in what was mined and the reference that HEAD names now. The commit goes on if HEAD
    /// has not changed and a digest of the whole object confirms its ID.
    pub fn with_nonce(self, mined: MineOutcome, current_reference: &str) -> (r: Result<
        Finished,
        CommitError,
    >)
        requires
            self.inv(),
        ensures
            ({
                let body = crate::commit::finished_body(self.body_prefix(), mined.nonce);
                let oid = crate::miner::oid_text(
                    self.draft().format(),
                    crate::commit::commit_object(body),
                );
                match r {
                    Ok(finished) => {
                        &&& current_reference@ == self.draft().reference()
                        &&& mined.oid@ == oid
                        &&& finished.inv()
                        &&& finished.draft() == self.draft()
                        &&& finished.body() == body
                        &&& finished.mined() == mined
                    },
                    Err(CommitError::HeadChanged) => current_reference@
                        != self.draft().reference(),
                    Err(CommitError::Writer(error)) => {
                        &&& current_reference@ == self.draft().reference()
                        &&& mined.oid@ != oid
                        &&& error.computed@ == oid
                        &&& error.expected@ == mined.oid@
                    },
                    Err(_) => false,
                }
            }),
    {
        let body: Vec<u8> = finish_commit_body(self.body_prefix, mined.nonce);
        let current: String = current_reference.to_owned();
        if !(current == self.draft.reference) {
            return Err(CommitError::HeadChanged);
        }
        proof {
            crate::commit::mined_object_is_stored_object(self.body_prefix@, mined.nonce);
            crate::hex::lemma_hex_fixed_len(mined.nonce as nat, 16);
        }
        match write_commit_object(self.draft.format, body.as_slice(), mined.oid.as_str()) {
            Ok(object) => Ok(Finished { draft: self.draft, body, object, mined }),
            Err(error) => Err(CommitError::Writer(error)),
        }
    }
}

/// A commit that is ready to be stored.
#[derive(Debug)]
pub struct Finished {
    draft: Draft,
    body: Vec<u8>,
    object: Vec<u8>,
    mined: MineOutcome,
}

impl Finished {
    /// The draft.
    pub closed spec fn draft(&self) -> Draft {
        self.draft
    }

    /// The body.
    pub closed spec fn body(&self) -> Seq<u8> {
        self.body@
    }

    /// The object.
    pub closed spec fn object(&self) -> Seq<u8> {
        self.object@
    }

    /// What was mined.
    pub closed spec fn mined(&self) -> MineOutcome {
        self.mined
    }

    /// The object is that of the body, and the mined ID is its ID.
    pub open spec fn inv(&self) -> bool {
        &&& self.draft().inv()
        &&& self.object() == crate::commit::commit_object(self.body())
        &&& self.mined().oid@ == crate::miner::oid_text(self.draft().format(), self.object())
    }

    /// What publishes the commit: its ID starts with the prefix, the update moves the reference to
    /// it from where the draft has found it, and the outcome is what was asked for and mined.
    pub open spec fn publishes(&self, repository: &Repository, publication: Publication) -> bool {
        let oid = self.mined().oid@;
        &&& self.draft().prefix().is_prefix_of(oid)
        &&& publication.update.reference@ == self.draft().reference()
        &&& publication.update.new_oid@ == oid
        &&& publication.update.expected_oid@ == match self.draft().old_oid() {
            Some(old) => old,
            None => crate::refs::zero_oid(repository.object_format),
        }
        &&& publication.update.reflog@ == "commit: "@ + crate::refs::first_line_or(
            self.draft().message(),
            "shasha commit"@,
        )
        &&& publication.outcome.oid@ == oid
        &&& publication.outcome.prefix@ == self.draft().prefix()
        &&& publication.outcome.nonce == self.mined().nonce
        &&& publication.outcome.attempts == self.mined().attempts
        &&& publication.outcome.elapsed == self.mined().elapsed
        &&& publication.outcome.reference@ == self.draft().reference()
        &&& publication.outcome.version_file@ == self.draft().version_file()
    }

    /// The body, for Git to store.
    pub fn commit_body(&self) -> (body: &[u8])
        ensures
            body@ == self.body(),
    {
        self.body.as_slice()
    }

    /// The ID.
    pub fn mined_oid(&self) -> (oid: &str)
        ensures
            oid@ == self.mined().oid@,
    {
        self.mined.oid.as_str()
    }

    /// The object's place among the loose objects of the repository.
    pub fn loose_place(&self, repository: &Repository) -> (place: LoosePlace)
        requires
            self.inv(),
        ensures
            place.belongs_to(repository.objects_dir@, self.mined().oid@),
    {
        proof {
            crate::miner::lemma_oid_text_has_head(self.draft.format, self.object@);
        }
        loose_place(repository, self.mined.oid.as_str())
    }

    /// The object as a loose object of the repository, unless it cannot be compressed.
    pub fn loose_object(&self, repository: &Repository) -> (r: Option<LooseObject>)
        requires
            self.inv(),
        ensures
            match r {
                Some(loose) => {
                    &&& crate::loose::zlib_stream(self.object()) == Some(loose.stream@)
                    &&& crate::loose::zlib_contents(loose.stream@) == Some(self.object())
                    &&& loose.place.belongs_to(repository.objects_dir@, self.mined().oid@)
                },
                None => crate::loose::zlib_stream(self.object()) is None,
            },
    {
        proof {
            crate::miner::lemma_oid_text_has_head(self.draft.format, self.object@);
        }
        write_loose_object(repository, self.object.as_slice(), self.mined.oid.as_str())
    }

    /// Takes in the ID under which the commit was stored. Only a commit that was stored under its
    /// mined ID, and whose ID starts with what the version file says, is published.
    pub fn stored(self, repository: &Repository, stored_oid: &str) -> (r: Result<
        Publication,
        CommitError,
    >)
        requires
            self.inv(),
        ensures
            match r {
                Ok(publication) => {
                    &&& stored_oid@ == self.mined().oid@
                    &&& self.publishes(repository, publication)
                },
                Err(CommitError::StoredDiffers { stored, mined }) => {
                    &&& stored_oid@ != self.mined().oid@
                    &&& stored@ == stored_oid@
                    &&& mined@ == self.mined().oid@
                },
                Err(CommitError::PrefixDiffers { stored }) => {
                    &&& stored_oid@ == self.mined().oid@
                    &&& !self.draft().prefix().is_prefix_of(stored_oid@)
                    &&& stored@ == stored_oid@
                },
                Err(_) => false,
            },
    {
        let stored: String = stored_oid.to_owned();
        if !(stored == self.mined.oid) {
            return Err(CommitError::StoredDiffers { stored, mined: self.mined.oid });
        }
        let oid: Vec<char> = chars_of(stored_oid);
        let prefix: Vec<char> = chars_of(self.draft.prefix.as_str());
        if !starts_with(oid.as_slice(), prefix.as_slice()) {
            return Err(CommitError::PrefixDiffers { stored });
        }
        let old_oid: Option<&str> = match &self.draft.old_oid {
            Some(oid) => Some(oid.as_str()),
            None => None,
        };
        let update: ReferenceUpdate = repository.update_reference(
            self.draft.reference.as_str(),
            stored_oid,
            old_oid,
            self.draft.message.as_str(),
        );
        Ok(
            Publication {
                update,
                outcome: CommitOutcome {
                    oid: stored,
                    prefix: self.draft.prefix,
                    nonce: self.mined.nonce,
                    attempts: self.mined.attempts,
                    elapsed: self.mined.elapsed,
                    reference: self.draft.reference,
                    version_file: self.draft.version_file,
                },
            },
        )
    }
}

/// A stored commit, the update that publishes it, and the outcome once that is done.
#[derive(Debug)]
pub struct Publication {
    pub update: ReferenceUpdate,
    pub outcome: CommitOutcome,
}

/// A commit that is mined as requested passes every test on its way: the digest of the stored
/// object confirms the mined ID, and that ID starts with what the version file says.
pub proof fn mined_commits_are_published(unmined: Unmined, mined: MineOutcome)
    requires
        unmined.inv(),
        crate::miner::wins(
            unmined.draft().format(),
            unmined.object_prefix(),
            unmined.draft().target(),
            unmined.draft().prefix_len(),
            mined.nonce as int,
        ),
        mined.oid@ == crate::miner::oid_text(
            unmined.draft().format(),
            crate::prepared::nonce_message(unmined.object_prefix(), mined.nonce),
        ),
    ensures
        mined.oid@ == crate::miner::oid_text(
            unmined.draft().format(),
            crate::commit::commit_object(
                crate::commit::finished_body(unmined.body_prefix(), mined.nonce),
            ),
        ),
        unmined.draft().prefix().is_prefix_of(mined.oid@),
{
    crate::commit::mined_object_is_stored_object(unmined.body_prefix(), mined.nonce);
    crate::miner::winning_means_id_starts_with_prefix(
        unmined.draft().format(),
        unmined.object_prefix(),
        unmined.draft().target(),
        unmined.draft().prefix_len(),
        mined.nonce,
    );
}

/// A commit is published under an ID that is the digest of its own object and starts with the
/// prefix that its version file holds.
pub proof fn published_commits_name_themselves(finished: Finished, stored_oid: Seq<char>)
    requires
        finished.inv(),
        stored_oid == finished.mined().oid@,
        finished.draft().prefix().is_prefix_of(stored_oid),
    ensures
        stored_oid == crate::miner::oid_text(
            finished.draft().format(),
            crate::commit::commit_object(finished.body()),
        ),
        stored_oid.len() == finished.draft().format().hex_len(),
        stored_oid.take(finished.draft().prefix_len() as int) == finished.draft().prefix(),
{
    crate::miner::oid_text_has_full_length(finished.draft().format(), finished.object());
    crate::hex::lemma_hex_fixed_len(
        finished.draft().target() as nat,
        finished.draft().prefix_len() as nat,
    );
}

/// Where HEAD leads to a published commit, the next commit's one parent is that commit. HEAD may
/// hold its ID, or name a reference that holds it in a file of its own or among the packed
/// references.
pub proof fn next_commit_continues_the_last(
    last: Finished,
    files: spec_fn(Seq<u8>) -> Option<Seq<char>>,
    git_dir: Seq<u8>,
    common_dir: Seq<u8>,
    head: Seq<char>,
    next: Draft,
    tree_oid: Seq<char>,
    identities: Identities,
    nonce: u64,
)
    requires
        last.inv(),
        crate::refs::leads_to(files, git_dir, common_dir, head, last.mined().oid@),
        next.format() == last.draft().format(),
        crate::refs::head_commit(files, git_dir, common_dir, next.format(), head) == Ok::<
            Option<Seq<char>>,
            crate::refs::RefFault,
        >(next.old_oid()),
        crate::text::one_line(tree_oid),
        crate::text::one_line(identities.author@),
        crate::text::one_line(identities.committer@),
    ensures
        next.old_oid() == Some(last.mined().oid@),
        crate::commit::body_parents(
            crate::commit::finished_body(next.body_prefix(tree_oid, identities), nonce),
        ) == seq![last.mined().oid@],
{
    let oid = last.mined().oid@;
    crate::miner::lemma_oid_text_is_an_id(last.draft().format(), last.object());
    crate::commit::commit_has_the_given_parent(
        tree_oid,
        Some(oid),
        identities.author@,
        identities.committer@,
        next.message(),
        nonce,
    );
}

/// Two commits in a row. Once the reference that the first update moves is where HEAD leads to,
/// the second commit's one parent is the first, its ID is the digest of its own object and starts
/// with its prefix, and its update expects the first commit's ID where it puts its own.
pub proof fn commits_in_a_row(
    first: Finished,
    first_repository: Repository,
    first_publication: Publication,
    files: spec_fn(Seq<u8>) -> Option<Seq<char>>,
    git_dir: Seq<u8>,
    common_dir: Seq<u8>,
    head: Seq<char>,
    second: Finished,
    second_repository: Repository,
    second_publication: Publication,
    tree_oid: Seq<char>,
    identities: Identities,
)
    requires
        first.inv(),
        first.publishes(&first_repository, first_publication),
        crate::refs::leads_to(
            files,
            git_dir,
            common_dir,
            head,
            first_publication.update.new_oid@,
        ),
        second.inv(),
        second.draft().format() == first.draft().format(),
        crate::refs::head_commit(files, git_dir, common_dir, second.draft().format(), head) == Ok::<
            Option<Seq<char>>,
            crate::refs::RefFault,
        >(second.draft().old_oid()),
        second.body() == crate::commit::finished_body(
            second.draft().body_prefix(tree_oid, identities),
            second.mined().nonce,
        ),
        second.publishes(&second_repository, second_publication),
        crate::text::one_line(tree_oid),
        crate::text::one_line(identities.author@),
        crate::text::one_line(identities.committer@),
    ensures
        crate::commit::body_parents(second.body()) == seq![first_publication.outcome.oid@],
        second_publication.outcome.oid@ == crate::miner::oid_text(
            second.draft().format(),
            crate::commit::commit_object(second.body()),
        ),
        second_publication.outcome.prefix@.is_prefix_of(second_publication.outcome.oid@),
        second_publication.outcome.prefix@.len() == second.draft().prefix_len(),
        second_publication.update.expected_oid@ == first_publication.outcome.oid@,
        second_publication.update.new_oid@ == second_publication.outcome.oid@,
{
    next_commit_continues_the_last(
        first,
        files,
        git_dir,
        common_dir,
        head,
        second.draft(),
        tree_oid,
        identities,
        second.mined().nonce,
    );
    published_commits_name_themselves(second, second.mined().oid@);
    crate::hex::lemma_hex_fixed_len(
        second.draft().target() as nat,
        second.draft().prefix_len() as nat,
    );
}

/// A publication moves the reference that HEAD named to the mined commit and reports that commit. A
/// first commit expects nothing there: its update has zeros for the old ID, as many as an ID has
/// digits. The log says `commit: ` and the first line of the message.
pub proof fn publications_move_the_reference(
    finished: Finished,
    repository: Repository,
    publication: Publication,
    line: Seq<char>,
    rest: Seq<char>,
)
    requires
        finished.inv(),
        finished.publishes(&repository, publication),
        crate::text::one_line(line),
        line.len() > 0,
        line.last() != '\r',
        finished.draft().message() == line || finished.draft().message() == line + "\n"@ + rest,
    ensures
        publication.update.reference@ == finished.draft().reference(),
        publication.update.reference@ == publication.outcome.reference@,
        publication.update.new_oid@ == publication.outcome.oid@,
        publication.outcome.oid@ == finished.mined().oid@,
        publication.outcome.oid@.len() == finished.draft().format().hex_len(),
        publication.outcome.prefix@ == publication.outcome.oid@.take(
            finished.draft().prefix_len() as int,
        ),
        publication.outcome.nonce == finished.mined().nonce,
        publication.outcome.attempts == finished.mined().attempts,
        publication.outcome.version_file@ == finished.draft().version_file(),
        finished.draft().old_oid() matches Some(old) ==> publication.update.expected_oid@ == old,
        finished.draft().old_oid() is None ==> publication.update.expected_oid@.len()
            == repository.object_format.hex_len() && forall|i: int|
            0 <= i < publication.update.expected_oid@.len()
                ==> #[trigger] publication.update.expected_oid@[i] == '0',
        publication.update.reflog@ == "commit: "@ + line,
{
    published_commits_name_themselves(finished, finished.mined().oid@);
    crate::refs::subject_is_the_first_line(
        line,
        rest,
        "shasha commit"@,
        repository.object_format,
    );
}

/// Read back, a finished commit names the tree it was given, the commit that the draft has found
/// the reference at, and the identities it was given.
pub proof fn finished_commits_name_what_they_were_given(
    draft: Draft,
    tree_oid: Seq<char>,
    identities: Identities,
    nonce: u64,
)
    requires
        crate::text::one_line(tree_oid),
        draft.old_oid() matches Some(oid) ==> crate::text::one_line(oid),
        crate::text::one_line(identities.author@),
        crate::text::one_line(identities.committer@),
    ensures
        ({
            let lines = crate::commit::header_lines(
                vstd::utf8::decode_utf8(
                    crate::commit::finished_body(draft.body_prefix(tree_oid, identities), nonce),
                ),
            );
            &&& crate::commit::named(lines, "tree "@) == seq![tree_oid]
            &&& crate::commit::named(lines, "author "@) == seq![identities.author@]
            &&& crate::commit::named(lines, "committer "@) == seq![identities.committer@]
            &&& crate::commit::named(lines, "parent "@) == match draft.old_oid() {
                Some(oid) => seq![oid],
                None => Seq::empty(),
            }
        }),
{
    crate::commit::commit_names_what_it_was_given(
        tree_oid,
        draft.old_oid(),
        identities.author@,
        identities.committer@,
        draft.message(),
        nonce,
    );
}

} // verus!
