//! The checks before a commit writes anything.

use vstd::prelude::*;

use crate::options::CommitOptions;
use crate::path::{join, Entry, SymlinkWalk};
use crate::repository::{Repository, RepositoryError};

verus! {

/// What the checks wait for.
#[derive(Debug, Clone, Copy, PartialEq, Eq, Structural)]
pub enum PreparationStage {
    /// Which of the markers of an operation are present.
    Operations,
    /// To be asked for the next path to look at.
    NextPath,
    /// What there is at the last path.
    Entry,
    /// Nothing: the version file may be written.
    Clear,
    /// Nothing: nothing may be written.
    Refused,
}

/// What to do next.
#[derive(Debug)]
pub enum PreparationStep {
    /// Find out what there is at this path, without following it.
    Inspect { path: Vec<u8> },
    /// Write the version file at this path, once its digits are chosen.
    Write { path: Vec<u8> },
}

/// What the checks come to.
pub enum Verdict {
    /// An operation is under way; this is its marker.
    Operation { marker: Seq<char> },
    /// There is a symbolic link on the way to the version file.
    Link { path: Seq<u8> },
    /// The version file may be written.
    Clear,
}

/// What the checks come to where these markers are present and the file system has these entries.
pub open spec fn verdict(
    repository: Repository,
    options: CommitOptions,
    present: Seq<bool>,
    entries: spec_fn(Seq<u8>) -> Entry,
) -> Verdict {
    let parts = crate::path::path_components(options.version_file@);
    match crate::repository::operation_under_way(present) {
        Some(marker) => Verdict::Operation { marker },
        None => match crate::path::first_link(entries, repository.root@, parts, 0) {
            Some(path) => Verdict::Link { path },
            None => Verdict::Clear,
        },
    }
}

/// The verdict on the way to the version file.
pub open spec fn link_verdict(link: Option<Seq<u8>>) -> Verdict {
    match link {
        Some(path) => Verdict::Link { path },
        None => Verdict::Clear,
    }
}

/// The checks of one commit, in their order: first that no other operation is under way, then that
/// no symbolic link is on the way to the version file. Whoever checks does what is asked for and
/// reports what came of it.
pub struct Preparation<'a> {
    repository: &'a Repository,
    options: &'a CommitOptions,
    walk: SymlinkWalk,
    stage: PreparationStage,
    present: Ghost<Seq<bool>>,
    found: Ghost<Seq<Entry>>,
}

impl<'a> Preparation<'a> {
    /// The repository.
    pub closed spec fn repository(&self) -> Repository {
        *self.repository
    }

    /// What is asked for.
    pub closed spec fn options(&self) -> CommitOptions {
        *self.options
    }

    /// What the checks wait for.
    pub closed spec fn waits_for(&self) -> PreparationStage {
        self.stage
    }

    /// Which markers were reported as present.
    pub closed spec fn present(&self) -> Seq<bool> {
        self.present@
    }

    /// What was reported of the paths on the way to the version file.
    pub closed spec fn found(&self) -> Seq<Entry> {
        self.found@
    }

    /// The link that is still to come, in a file system with the given entries.
    pub closed spec fn link_ahead(&self, entries: spec_fn(Seq<u8>) -> Entry) -> Option<Seq<u8>> {
        self.walk.answer(entries)
    }

    /// The path that is looked at.
    pub open spec fn current_path(&self) -> Seq<u8> {
        crate::path::path_after(
            self.repository().root@,
            crate::path::path_components(self.options().version_file@),
            self.found().len() + 1,
        )
    }

    /// What the checks come to from here on, where these markers are present and the file system
    /// has these entries.
    pub open spec fn answer(
        &self,
        present: Seq<bool>,
        entries: spec_fn(Seq<u8>) -> Entry,
    ) -> Verdict {
        match self.waits_for() {
            PreparationStage::Operations => verdict(
                self.repository(),
                self.options(),
                present,
                entries,
            ),
            PreparationStage::Entry => match entries(self.current_path()) {
                Entry::SymbolicLink => Verdict::Link { path: self.current_path() },
                Entry::Missing => Verdict::Clear,
                Entry::Other => link_verdict(self.link_ahead(entries)),
            },
            PreparationStage::Clear => Verdict::Clear,
            _ => link_verdict(self.link_ahead(entries)),
        }
    }

    /// The version file's path.
    pub open spec fn version_path(&self) -> Seq<u8> {
        crate::path::joined(self.repository().root@, self.options().version_file@)
    }

    /// No operation was reported, and no symbolic link: not on the whole way, or not up to where
    /// it ends.
    pub open spec fn passed(&self) -> bool {
        let count = crate::path::path_components(self.options().version_file@).len();
        &&& self.present().len() == crate::repository::operation_markers().len()
        &&& crate::repository::operation_under_way(self.present()) is None
        &&& forall|i: int|
            0 <= i < self.found().len() ==> #[trigger] self.found()[i] != Entry::SymbolicLink
        &&& self.found().len() == count || (self.found().len() > 0 && self.found().last()
            == Entry::Missing)
    }

    pub closed spec fn inv(&self) -> bool {
        &&& self.options.fault() is None
        &&& self.walk.inv()
        &&& self.walk.root() == self.repository.root@
        &&& self.walk.relative() == self.options.version_file@
        &&& self.stage == PreparationStage::Operations ==> self.walk.index() == 0
            && self.found@.len() == 0 && !self.walk.over()
        &&& self.stage == PreparationStage::NextPath || self.stage == PreparationStage::Entry ==> {
            &&& self.present@.len() == crate::repository::operation_markers().len()
            &&& crate::repository::operation_under_way(self.present@) is None
            &&& forall|i: int|
                0 <= i < self.found@.len() ==> #[trigger] self.found@[i] != Entry::SymbolicLink
        }
        &&& self.stage == PreparationStage::NextPath ==> {
            &&& self.found@.len() == self.walk.index()
            &&& self.walk.over() ==> self.found@.len() > 0 && self.found@.last() == Entry::Missing
        }
        &&& self.stage == PreparationStage::Entry ==> {
            &&& self.found@.len() + 1 == self.walk.index()
            &&& !self.walk.over()
        }
        &&& self.stage == PreparationStage::Clear ==> self.passed()
    }

    /// The checks for a commit with accepted options.
    pub fn new(repository: &'a Repository, options: &'a CommitOptions) -> (checks: Preparation<'a>)
        requires
            options.fault() is None,
        ensures
            checks.inv(),
            checks.repository() == *repository,
            checks.options() == *options,
            checks.waits_for() == PreparationStage::Operations,
            forall|present: Seq<bool>, entries: spec_fn(Seq<u8>) -> Entry| #[trigger]
                checks.answer(present, entries) == verdict(*repository, *options, present, entries),
    {
        Preparation {
            repository,
            options,
            walk: SymlinkWalk::new(repository.root(), options.version_file.as_slice()),
            stage: PreparationStage::Operations,
            present: Ghost(Seq::empty()),
            found: Ghost(Seq::empty()),
        }
    }

    /// What the checks wait for.
    pub fn stage(&self) -> (stage: PreparationStage)
        ensures
            stage == self.waits_for(),
    {
        self.stage
    }

    /// The paths of the markers.
    pub fn operation_paths(&self) -> (paths: Vec<Vec<u8>>)
        ensures
            paths@.len() == crate::repository::operation_markers().len(),
            forall|i: int|
                0 <= i < paths@.len() ==> (#[trigger] paths@[i])@ == crate::path::joined(
                    self.repository().git_dir@,
                    crate::repository::text_path(crate::repository::operation_markers()[i]),
                ),
    {
        self.repository.operation_paths()
    }

    /// Takes in which of the markers are present. Any is a refusal.
    pub fn operations(&mut self, present: &[bool]) -> (r: Result<(), RepositoryError>)
        requires
            old(self).inv(),
            old(self).waits_for() == PreparationStage::Operations,
            present@.len() == crate::repository::operation_markers().len(),
        ensures
            final(self).inv(),
            final(self).repository() == old(self).repository(),
            final(self).options() == old(self).options(),
            match r {
                Ok(()) => {
                    &&& crate::repository::operation_under_way(present@) is None
                    &&& final(self).waits_for() == PreparationStage::NextPath
                    &&& final(self).present() == present@
                    &&& final(self).found().len() == 0
                },
                Err(RepositoryError::OperationInProgress { marker }) => {
                    &&& crate::repository::operation_under_way(present@) == Some(marker@)
                    &&& final(self).waits_for() == PreparationStage::Refused
                },
                Err(_) => false,
            },
            forall|entries: spec_fn(Seq<u8>) -> Entry| #[trigger]
                old(self).answer(present@, entries) == match r {
                    Ok(()) => final(self).answer(present@, entries),
                    Err(error) => Verdict::Operation {
                        marker: error->OperationInProgress_marker@,
                    },
                },
    {
        match self.repository.ensure_supported_state(present) {
            Ok(()) => {
                self.stage = PreparationStage::NextPath;
                self.present = Ghost(present@);
                Ok(())
            },
            Err(error) => {
                self.stage = PreparationStage::Refused;
                Err(error)
            },
        }
    }

    /// Says what to do next. The version file may be written once both checks have passed, and not
    /// before.
    pub fn next_step(&mut self) -> (step: PreparationStep)
        requires
            old(self).inv(),
            old(self).waits_for() == PreparationStage::NextPath,
        ensures
            final(self).inv(),
            final(self).repository() == old(self).repository(),
            final(self).options() == old(self).options(),
            final(self).present() == old(self).present(),
            final(self).found() == old(self).found(),
            match step {
                PreparationStep::Inspect { path } => {
                    &&& final(self).waits_for() == PreparationStage::Entry
                    &&& path@ == final(self).current_path()
                },
                PreparationStep::Write { path } => {
                    &&& final(self).waits_for() == PreparationStage::Clear
                    &&& final(self).passed()
                    &&& path@ == old(self).version_path()
                },
            },
            forall|present: Seq<bool>, entries: spec_fn(Seq<u8>) -> Entry| #[trigger]
                old(self).answer(present, entries) == final(self).answer(present, entries),
    {
        match self.walk.next_path() {
            Some(path) => {
                self.stage = PreparationStage::Entry;
                PreparationStep::Inspect { path }
            },
            None => {
                self.stage = PreparationStage::Clear;
                let path: Vec<u8> = join(
                    self.repository.root(),
                    self.options.version_file.as_slice(),
                );
                PreparationStep::Write { path }
            },
        }
    }

    /// Takes in what there is at the last path. A symbolic link is refused, with its path.
    pub fn entry(&mut self, entry: Entry) -> (r: Result<(), Vec<u8>>)
        requires
            old(self).inv(),
            old(self).waits_for() == PreparationStage::Entry,
        ensures
            final(self).inv(),
            final(self).repository() == old(self).repository(),
            final(self).options() == old(self).options(),
            final(self).present() == old(self).present(),
            final(self).found() == old(self).found().push(entry),
            match entry {
                Entry::SymbolicLink => {
                    &&& r matches Err(path) && path@ == old(self).current_path()
                    &&& final(self).waits_for() == PreparationStage::Refused
                },
                _ => r is Ok && final(self).waits_for() == PreparationStage::NextPath,
            },
            forall|present: Seq<bool>, entries: spec_fn(Seq<u8>) -> Entry|
                entries(old(self).current_path()) == entry ==> #[trigger] old(self).answer(
                    present,
                    entries,
                ) == match r {
                    Ok(()) => final(self).answer(present, entries),
                    Err(path) => Verdict::Link { path: path@ },
                },
    {
        self.found = Ghost(self.found@.push(entry));
        match self.walk.report(entry) {
            Ok(()) => {
                self.stage = PreparationStage::NextPath;
                Ok(())
            },
            Err(path) => {
                self.stage = PreparationStage::Refused;
                Err(path)
            },
        }
    }

    /// What is asked for.
    pub(crate) fn accepted(&self) -> (options: &CommitOptions)
        requires
            self.inv(),
        ensures
            *options == self.options(),
            options.fault() is None,
    {
        self.options
    }

    /// The format of the repository's object IDs.
    pub(crate) fn object_format(&self) -> (format: crate::format::ObjectFormat)
        ensures
            format == self.repository().object_format,
    {
        self.repository.object_format()
    }
}

/// A commit that is clear to be written has passed both checks: no operation is under way, and
/// nothing on the way to its version file, as far as it exists, is a symbolic link.
pub proof fn nothing_is_written_before_the_checks(checks: Preparation<'_>)
    requires
        checks.inv(),
        checks.waits_for() == PreparationStage::Clear,
    ensures
        checks.options().fault() is None,
        checks.passed(),
        forall|i: int| 0 <= i < checks.present().len() ==> !#[trigger] checks.present()[i],
        checks.present().len() == 5,
        forall|i: int|
            0 <= i < checks.found().len() ==> #[trigger] checks.found()[i] != Entry::SymbolicLink,
{
    crate::repository::any_marker_means_an_operation(checks.present());
}

/// The checks come to a marker where any is present, to the first such; else to the first symbolic
/// link that the way to the version file leads up to; and else they pass.
pub proof fn verdict_follows_the_checks(
    repository: Repository,
    options: CommitOptions,
    present: Seq<bool>,
    entries: spec_fn(Seq<u8>) -> Entry,
    at: nat,
)
    requires
        present.len() == 5,
    ensures
        ({
            let root = repository.root@;
            let parts = crate::path::path_components(options.version_file@);
            let clear = forall|i: int| 0 <= i < present.len() ==> !#[trigger] present[i];
            let result = verdict(repository, options, present, entries);
            &&& at < 5 && present[at as int] && (forall|j: int|
                0 <= j < at ==> !#[trigger] present[j]) ==> result == Verdict::Operation {
                marker: crate::repository::operation_markers()[at as int],
            }
            &&& clear && at < parts.len() && crate::path::passable(entries, root, parts, 0, at)
                && entries(crate::path::path_after(root, parts, at + 1)) == Entry::SymbolicLink
                ==> result == Verdict::Link { path: crate::path::path_after(root, parts, at + 1) }
            &&& clear && at <= parts.len() && crate::path::passable(entries, root, parts, 0, at)
                && (at == parts.len() || entries(crate::path::path_after(root, parts, at + 1))
                == Entry::Missing) ==> result == Verdict::Clear
        }),
{
    let root = repository.root@;
    let parts = crate::path::path_components(options.version_file@);
    crate::repository::any_marker_means_an_operation(present);
    if crate::path::passable(entries, root, parts, 0, at) {
        if at < parts.len() && entries(crate::path::path_after(root, parts, at + 1))
            == Entry::SymbolicLink {
            crate::path::first_link_is_found(entries, root, parts, 0, at);
        }
        if at <= parts.len() && (at == parts.len() || entries(
            crate::path::path_after(root, parts, at + 1),
        ) == Entry::Missing) {
            crate::path::no_link_is_found(entries, root, parts, 0, at);
        }
    }
}

} // verus!
