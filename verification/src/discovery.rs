//! The search for a repository without the help of Git: from a directory upwards, the nearest
//! with a `.git` entry.

use vstd::prelude::*;
use vstd::slice::slice_to_vec;

use crate::config::read_object_format;
use crate::format::ObjectFormat;
use crate::path::{ancestors, join_text};
use crate::repository::{Repository, RepositoryError};
use crate::text::{chars_of, strip_prefix, text_of, trim, Pattern};

verus! {

/// The environment variables any of which leaves the search to Git.
pub open spec fn override_variables() -> Seq<Seq<char>> {
    seq![
        "GIT_DIR"@,
        "GIT_WORK_TREE"@,
        "GIT_COMMON_DIR"@,
        "GIT_INDEX_FILE"@,
        "GIT_OBJECT_DIRECTORY"@,
        "GIT_CEILING_DIRECTORIES"@,
    ]
}

/// The environment variables any of which leaves the search to Git.
pub fn layout_variables() -> (names: Vec<&'static str>)
    ensures
        names@.len() == override_variables().len(),
        forall|i: int|
            0 <= i < names@.len() ==> (#[trigger] names@[i])@ == override_variables()[i],
{
    vec![
        "GIT_DIR",
        "GIT_WORK_TREE",
        "GIT_COMMON_DIR",
        "GIT_INDEX_FILE",
        "GIT_OBJECT_DIRECTORY",
        "GIT_CEILING_DIRECTORIES",
    ]
}

/// Whether the search is left to Git: one of the variables is set.
pub fn left_to_git(set: &[bool]) -> (r: bool)
    ensures
        r == exists|i: int| 0 <= i < set@.len() && #[trigger] set@[i],
{
    let mut i: usize = 0;
    while i < set.len()
        invariant
            i <= set@.len(),
            forall|j: int| 0 <= j < i ==> !#[trigger] set@[j],
        decreases set@.len() - i,
    {
        if set[i] {
            return true;
        }
        i = i + 1;
    }
    false
}

/// What a search waits for.
#[derive(Debug, Clone, Copy, PartialEq, Eq, Structural)]
pub enum DiscoveryStage {
    /// The kind of the `.git` entry of the current root.
    DotGit,
    /// The contents of the `.git` file.
    GitFile,
    /// The resolved path of the administrative directory.
    GitDir,
    /// The contents of the file that names the common directory.
    CommonFile,
    /// The resolved path of the common directory.
    CommonDir,
    /// The configuration file.
    Config,
    /// Nothing: no root is left.
    NotFound,
}

/// What there is at a root's `.git`.
#[derive(Debug, Clone, Copy, PartialEq, Eq, Structural)]
pub enum DotGitKind {
    Directory,
    File,
    Neither,
}

/// A file system, as far as a search looks at it.
pub struct World {
    /// What there is at a path.
    pub kinds: spec_fn(Seq<u8>) -> DotGitKind,
    /// The text of the file at a path, if there is one.
    pub files: spec_fn(Seq<u8>) -> Option<Seq<char>>,
    /// A path with every link in it resolved.
    pub resolved: spec_fn(Seq<u8>) -> Seq<u8>,
}

/// The places of a repository.
pub struct Layout {
    pub root: Seq<u8>,
    pub git_dir: Seq<u8>,
    pub common_dir: Seq<u8>,
    pub index_path: Seq<u8>,
    pub objects_dir: Seq<u8>,
    pub object_format: ObjectFormat,
}

impl Repository {
    /// The repository's places.
    pub open spec fn layout(&self) -> Layout {
        Layout {
            root: self.root@,
            git_dir: self.git_dir@,
            common_dir: self.common_dir@,
            index_path: self.index_path@,
            objects_dir: self.objects_dir@,
            object_format: self.object_format,
        }
    }
}

/// What is wrong with the repository that a search came to.
pub enum DiscoveryFault {
    /// Its `.git` file has no target.
    NoGitdirTarget,
    /// Its object format is not supported.
    Format { name: Seq<char> },
    /// This file has to be there and is not.
    Missing { path: Seq<u8> },
}

impl RepositoryError {
    /// The fault that the error reports, if it is one of a search.
    pub open spec fn fault(&self) -> Option<DiscoveryFault> {
        match *self {
            RepositoryError::NoGitdirTarget => Some(DiscoveryFault::NoGitdirTarget),
            RepositoryError::Format(error) => Some(DiscoveryFault::Format { name: error.name@ }),
            _ => None,
        }
    }
}

/// A directory's entry of the given name.
pub open spec fn entry(directory: Seq<u8>, name: Seq<char>) -> Seq<u8> {
    crate::path::joined(directory, vstd::utf8::encode_utf8(name))
}

/// The place that a `.git` file in `root` names.
pub open spec fn gitdir_target(root: Seq<u8>, text: Seq<char>) -> Option<Seq<u8>> {
    if "gitdir: "@.is_prefix_of(crate::text::bare(text)) {
        Some(entry(root, crate::text::bare(text).skip("gitdir: "@.len() as int)))
    } else {
        None
    }
}

impl World {
    /// The repository with the given directories. Its configuration names the object format.
    pub open spec fn configured(
        &self,
        root: Seq<u8>,
        git_dir: Seq<u8>,
        common_dir: Seq<u8>,
    ) -> Result<Option<Layout>, DiscoveryFault> {
        match (self.files)(entry(common_dir, "config"@)) {
            None => Err(DiscoveryFault::Missing { path: entry(common_dir, "config"@) }),
            Some(text) => {
                let setting = crate::config::format_setting(crate::text::text_lines(text));
                let name = match setting {
                    Some(name) => name,
                    None => "sha1"@,
                };
                match crate::format::named_format(name) {
                    None => Err(DiscoveryFault::Format { name }),
                    Some(object_format) => Ok(
                        Some(
                            Layout {
                                root,
                                git_dir,
                                common_dir,
                                index_path: entry(git_dir, "index"@),
                                objects_dir: entry(common_dir, "objects"@),
                                object_format,
                            },
                        ),
                    ),
                }
            },
        }
    }

    /// The repository with the given administrative directory. A linked worktree's has a file that
    /// names the common directory.
    pub open spec fn located(&self, root: Seq<u8>, git_dir: Seq<u8>) -> Result<
        Option<Layout>,
        DiscoveryFault,
    > {
        let common_dir = match (self.files)(entry(git_dir, "commondir"@)) {
            Some(text) => (self.resolved)(entry(git_dir, crate::text::bare(text))),
            None => git_dir,
        };
        self.configured(root, git_dir, common_dir)
    }

    /// The repository whose root has a `.git` file.
    pub open spec fn linked(&self, root: Seq<u8>) -> Result<Option<Layout>, DiscoveryFault> {
        match (self.files)(entry(root, ".git"@)) {
            None => Err(DiscoveryFault::Missing { path: entry(root, ".git"@) }),
            Some(text) => match gitdir_target(root, text) {
                None => Err(DiscoveryFault::NoGitdirTarget),
                Some(target) => self.located(root, (self.resolved)(target)),
            },
        }
    }

    /// The repository of the first root, from the given one on, that has a `.git` directory or
    /// file.
    pub open spec fn discovered(&self, roots: Seq<Vec<u8>>, from: nat) -> Result<
        Option<Layout>,
        DiscoveryFault,
    >
        decreases roots.len() - from,
    {
        if from >= roots.len() {
            Ok(None)
        } else {
            let root = roots[from as int]@;
            match (self.kinds)(entry(root, ".git"@)) {
                DotGitKind::Neither => self.discovered(roots, from + 1),
                DotGitKind::Directory => self.located(
                    root,
                    (self.resolved)(entry(root, ".git"@)),
                ),
                DotGitKind::File => self.linked(root),
            }
        }
    }
}

/// A search from a directory upwards. Whoever searches does what `path` and `stage` say and
/// reports what came of it.
#[derive(Debug)]
pub struct Discovery {
    roots: Vec<Vec<u8>>,
    index: usize,
    stage: DiscoveryStage,
    target: Vec<u8>,
    git_dir: Vec<u8>,
    common_dir: Vec<u8>,
}

impl Discovery {
    /// The roots to look at.
    pub closed spec fn roots(&self) -> Seq<Vec<u8>> {
        self.roots@
    }

    /// The number of the current root.
    pub closed spec fn index(&self) -> nat {
        self.index as nat
    }

    /// What the search waits for.
    pub closed spec fn waits_for(&self) -> DiscoveryStage {
        self.stage
    }

    /// The path to resolve.
    pub closed spec fn target(&self) -> Seq<u8> {
        self.target@
    }

    /// The administrative directory, once it is resolved.
    pub closed spec fn git_dir(&self) -> Seq<u8> {
        self.git_dir@
    }

    /// The common directory, once it is resolved.
    pub closed spec fn common_dir(&self) -> Seq<u8> {
        self.common_dir@
    }

    /// There is a current root as long as the search goes on.
    pub open spec fn inv(&self) -> bool {
        self.waits_for() != DiscoveryStage::NotFound ==> self.index() < self.roots().len()
    }

    /// The current root.
    pub open spec fn current_root(&self) -> Seq<u8> {
        self.roots()[self.index() as int]@
    }

    /// What the search comes to from here on, in the given file system.
    pub open spec fn answer(&self, world: World) -> Result<Option<Layout>, DiscoveryFault> {
        match self.waits_for() {
            DiscoveryStage::DotGit => world.discovered(self.roots(), self.index() as nat),
            DiscoveryStage::GitFile => world.linked(self.current_root()),
            DiscoveryStage::GitDir => world.located(
                self.current_root(),
                (world.resolved)(self.target()),
            ),
            DiscoveryStage::CommonFile => world.located(self.current_root(), self.git_dir()),
            DiscoveryStage::CommonDir => world.configured(
                self.current_root(),
                self.git_dir(),
                (world.resolved)(self.target()),
            ),
            DiscoveryStage::Config => world.configured(
                self.current_root(),
                self.git_dir(),
                self.common_dir(),
            ),
            DiscoveryStage::NotFound => Ok(None),
        }
    }

    /// A search from a directory upwards.
    pub fn new(start: &[u8]) -> (search: Discovery)
        ensures
            search.inv(),
            search.roots().len() == crate::path::ancestor_count(start@),
            search.roots()[0]@ == start@,
            forall|i: int|
                1 <= i < search.roots().len() ==> crate::path::shortest_with(
                    start@,
                    (#[trigger] search.roots()[i])@,
                    crate::path::path_components(start@).take(
                        crate::path::path_components(start@).len() - i,
                    ),
                ),
            search.index() == 0,
            search.waits_for() == DiscoveryStage::DotGit,
            forall|world: World| #[trigger]
                search.answer(world) == world.discovered(search.roots(), 0),
    {
        Discovery {
            roots: ancestors(start),
            index: 0,
            stage: DiscoveryStage::DotGit,
            target: Vec::new(),
            git_dir: Vec::new(),
            common_dir: Vec::new(),
        }
    }

    /// What the search waits for.
    pub fn stage(&self) -> (stage: DiscoveryStage)
        ensures
            stage == self.waits_for(),
    {
        self.stage
    }

    /// The path to look at, to read or to resolve, as the stage says.
    pub fn path(&self) -> (path: Vec<u8>)
        requires
            self.inv(),
        ensures
            match self.waits_for() {
                DiscoveryStage::DotGit | DiscoveryStage::GitFile => path@ == crate::path::joined(
                    self.current_root(),
                    vstd::utf8::encode_utf8(".git"@),
                ),
                DiscoveryStage::GitDir | DiscoveryStage::CommonDir => path@ == self.target(),
                DiscoveryStage::CommonFile => path@ == crate::path::joined(
                    self.git_dir(),
                    vstd::utf8::encode_utf8("commondir"@),
                ),
                DiscoveryStage::Config => path@ == crate::path::joined(
                    self.common_dir(),
                    vstd::utf8::encode_utf8("config"@),
                ),
                DiscoveryStage::NotFound => path@.len() == 0,
            },
    {
        match self.stage {
            DiscoveryStage::DotGit => join_text(self.roots[self.index].as_slice(), ".git"),
            DiscoveryStage::GitFile => join_text(self.roots[self.index].as_slice(), ".git"),
            DiscoveryStage::GitDir => slice_to_vec(self.target.as_slice()),
            DiscoveryStage::CommonDir => slice_to_vec(self.target.as_slice()),
            DiscoveryStage::CommonFile => join_text(self.git_dir.as_slice(), "commondir"),
            DiscoveryStage::Config => join_text(self.common_dir.as_slice(), "config"),
            DiscoveryStage::NotFound => Vec::new(),
        }
    }

    /// Takes in what the `.git` entry of the current root is. A root with neither a directory
    /// nor a file is passed over.
    pub fn dot_git(&mut self, kind: DotGitKind)
        requires
            old(self).inv(),
            old(self).waits_for() == DiscoveryStage::DotGit,
        ensures
            final(self).inv(),
            final(self).roots() == old(self).roots(),
            match kind {
                DotGitKind::Directory => {
                    &&& final(self).index() == old(self).index()
                    &&& final(self).waits_for() == DiscoveryStage::GitDir
                    &&& final(self).target() == crate::path::joined(
                        old(self).current_root(),
                        vstd::utf8::encode_utf8(".git"@),
                    )
                },
                DotGitKind::File => {
                    &&& final(self).index() == old(self).index()
                    &&& final(self).waits_for() == DiscoveryStage::GitFile
                },
                DotGitKind::Neither => {
                    &&& final(self).index() == old(self).index() + 1
                    &&& final(self).waits_for() == if old(self).index() + 1 < old(
                        self,
                    ).roots().len() {
                        DiscoveryStage::DotGit
                    } else {
                        DiscoveryStage::NotFound
                    }
                },
            },
            forall|world: World|
                (world.kinds)(entry(old(self).current_root(), ".git"@)) == kind ==> #[trigger] old(
                    self,
                ).answer(world) == final(self).answer(world),
    {
        match kind {
            DotGitKind::Directory => {
                self.target = join_text(self.roots[self.index].as_slice(), ".git");
                self.stage = DiscoveryStage::GitDir;
            },
            DotGitKind::File => {
                self.stage = DiscoveryStage::GitFile;
            },
            DotGitKind::Neither => {
                let count: usize = self.roots.len();
                self.index = self.index + 1;
                if self.index >= count {
                    self.stage = DiscoveryStage::NotFound;
                }
            },
        }
    }

    /// Takes in the contents of a `.git` file: the place of the administrative directory, as
    /// seen from the root.
    pub fn git_file(&mut self, contents: &str) -> (r: Result<(), RepositoryError>)
        requires
            old(self).inv(),
            old(self).waits_for() == DiscoveryStage::GitFile,
        ensures
            final(self).inv(),
            final(self).roots() == old(self).roots(),
            final(self).index() == old(self).index(),
            match r {
                Ok(()) => {
                    &&& "gitdir: "@.is_prefix_of(crate::text::bare(contents@))
                    &&& final(self).waits_for() == DiscoveryStage::GitDir
                    &&& final(self).target() == crate::path::joined(
                        old(self).current_root(),
                        vstd::utf8::encode_utf8(
                            crate::text::bare(contents@).skip("gitdir: "@.len() as int),
                        ),
                    )
                },
                Err(error) => {
                    &&& error is NoGitdirTarget
                    &&& !"gitdir: "@.is_prefix_of(crate::text::bare(contents@))
                    &&& final(self).waits_for() == old(self).waits_for()
                },
            },
            forall|world: World|
                (world.files)(entry(old(self).current_root(), ".git"@)) == Some(contents@)
                    ==> #[trigger] old(self).answer(world) == match r {
                    Ok(()) => final(self).answer(world),
                    Err(error) => Err(error.fault()->0),
                },
    {
        let chars: Vec<char> = chars_of(contents);
        match strip_prefix(trim(chars.as_slice(), Pattern::WhiteSpace), "gitdir: ") {
            None => Err(RepositoryError::NoGitdirTarget),
            Some(target) => {
                self.target = join_text(
                    self.roots[self.index].as_slice(),
                    text_of(target).as_str(),
                );
                self.stage = DiscoveryStage::GitDir;
                Ok(())
            },
        }
    }

    /// Takes in the resolved path of the administrative directory.
    pub fn git_dir_resolved(&mut self, path: Vec<u8>)
        requires
            old(self).inv(),
            old(self).waits_for() == DiscoveryStage::GitDir,
        ensures
            final(self).inv(),
            final(self).roots() == old(self).roots(),
            final(self).index() == old(self).index(),
            final(self).waits_for() == DiscoveryStage::CommonFile,
            final(self).git_dir() == path@,
            forall|world: World|
                (world.resolved)(old(self).target()) == path@ ==> #[trigger] old(self).answer(world)
                    == final(self).answer(world),
    {
        self.git_dir = path;
        self.stage = DiscoveryStage::CommonFile;
    }

    /// Takes in the contents of the file that names the common directory, as seen from the
    /// administrative directory. Without that file they are the same.
    pub fn common_file(&mut self, contents: Option<&str>)
        requires
            old(self).inv(),
            old(self).waits_for() == DiscoveryStage::CommonFile,
        ensures
            final(self).inv(),
            final(self).roots() == old(self).roots(),
            final(self).index() == old(self).index(),
            final(self).git_dir() == old(self).git_dir(),
            match contents {
                Some(text) => {
                    &&& final(self).waits_for() == DiscoveryStage::CommonDir
                    &&& final(self).target() == crate::path::joined(
                        old(self).git_dir(),
                        vstd::utf8::encode_utf8(crate::text::bare(text@)),
                    )
                },
                None => {
                    &&& final(self).waits_for() == DiscoveryStage::Config
                    &&& final(self).common_dir() == old(self).git_dir()
                },
            },
            forall|world: World|
                (world.files)(entry(old(self).git_dir(), "commondir"@)) == match contents {
                    Some(text) => Some(text@),
                    None => None,
                } ==> #[trigger] old(self).answer(world) == final(self).answer(world),
    {
        match contents {
            Some(text) => {
                let path: String = crate::git::trimmed_text(text);
                self.target = join_text(self.git_dir.as_slice(), path.as_str());
                self.stage = DiscoveryStage::CommonDir;
            },
            None => {
                self.common_dir = slice_to_vec(self.git_dir.as_slice());
                self.stage = DiscoveryStage::Config;
            },
        }
    }

    /// Takes in the resolved path of the common directory.
    pub fn common_dir_resolved(&mut self, path: Vec<u8>)
        requires
            old(self).inv(),
            old(self).waits_for() == DiscoveryStage::CommonDir,
        ensures
            final(self).inv(),
            final(self).roots() == old(self).roots(),
            final(self).index() == old(self).index(),
            final(self).git_dir() == old(self).git_dir(),
            final(self).waits_for() == DiscoveryStage::Config,
            final(self).common_dir() == path@,
            forall|world: World|
                (world.resolved)(old(self).target()) == path@ ==> #[trigger] old(self).answer(world)
                    == final(self).answer(world),
    {
        self.common_dir = path;
        self.stage = DiscoveryStage::Config;
    }

    /// Takes in the configuration file, the last thing there is to know.
    pub fn config(&self, text: &str) -> (r: Result<Repository, RepositoryError>)
        requires
            self.inv(),
            self.waits_for() == DiscoveryStage::Config,
        ensures
            ({
                let setting = crate::config::format_setting(crate::text::text_lines(text@));
                match r {
                    Ok(repository) => {
                        &&& repository.root@ == self.current_root()
                        &&& repository.git_dir@ == self.git_dir()
                        &&& repository.common_dir@ == self.common_dir()
                        &&& repository.index_path@ == crate::path::joined(
                            self.git_dir(),
                            vstd::utf8::encode_utf8("index"@),
                        )
                        &&& repository.objects_dir@ == crate::path::joined(
                            self.common_dir(),
                            vstd::utf8::encode_utf8("objects"@),
                        )
                        &&& match setting {
                            None => repository.object_format == ObjectFormat::Sha1,
                            Some(name) => crate::format::named_format(name) == Some(
                                repository.object_format,
                            ),
                        }
                    },
                    Err(RepositoryError::Format(error)) => {
                        &&& setting == Some(error.name@)
                        &&& crate::format::named_format(error.name@) is None
                    },
                    Err(_) => false,
                }
            }),
            forall|world: World|
                (world.files)(entry(self.common_dir(), "config"@)) == Some(text@)
                    ==> #[trigger] self.answer(world) == match r {
                    Ok(repository) => Ok(Some(repository.layout())),
                    Err(error) => Err(error.fault()->0),
                },
    {
        match read_object_format(text) {
            Err(error) => Err(RepositoryError::Format(error)),
            Ok(object_format) => Ok(
                Repository {
                    root: slice_to_vec(self.roots[self.index].as_slice()),
                    git_dir: slice_to_vec(self.git_dir.as_slice()),
                    common_dir: slice_to_vec(self.common_dir.as_slice()),
                    index_path: join_text(self.git_dir.as_slice(), "index"),
                    objects_dir: join_text(self.common_dir.as_slice(), "objects"),
                    object_format,
                },
            ),
        }
    }
}

/// Each of the variables that move parts of a repository leaves the search to Git, and no other
/// does.
pub proof fn variables_are_those_of_git(name: Seq<char>)
    ensures
        override_variables().contains(name) <==> name == "GIT_DIR"@ || name == "GIT_WORK_TREE"@
            || name == "GIT_COMMON_DIR"@ || name == "GIT_INDEX_FILE"@ || name
            == "GIT_OBJECT_DIRECTORY"@ || name == "GIT_CEILING_DIRECTORIES"@,
{
    let names = override_variables();
    assert(names.len() == 6);
    assert(names[0] == "GIT_DIR"@);
    assert(names[1] == "GIT_WORK_TREE"@);
    assert(names[2] == "GIT_COMMON_DIR"@);
    assert(names[3] == "GIT_INDEX_FILE"@);
    assert(names[4] == "GIT_OBJECT_DIRECTORY"@);
    assert(names[5] == "GIT_CEILING_DIRECTORIES"@);
    if names.contains(name) {
        let i = choose|i: int| 0 <= i < names.len() && names[i] == name;
        assert(i == 0 || i == 1 || i == 2 || i == 3 || i == 4 || i == 5);
    }
}

/// A `.git` file with `gitdir: ` and a path, with or without white space around both, leads to that
/// path as seen from the root, and nothing else is a target.
pub proof fn git_file_leads_to_its_target(
    root: Seq<u8>,
    before: Seq<char>,
    target: Seq<char>,
    behind: Seq<char>,
    text: Seq<char>,
)
    requires
        forall|i: int| 0 <= i < before.len() ==> Pattern::WhiteSpace.has(#[trigger] before[i]),
        forall|i: int| 0 <= i < behind.len() ==> Pattern::WhiteSpace.has(#[trigger] behind[i]),
        target.len() > 0,
        !Pattern::WhiteSpace.has(target.last()),
    ensures
        gitdir_target(root, before + ("gitdir: "@ + target) + behind) == Some(
            crate::path::joined(root, vstd::utf8::encode_utf8(target)),
        ),
        gitdir_target(root, text) is Some ==> exists|rest: Seq<char>|
            crate::text::bare(text) == #[trigger] ("gitdir: "@ + rest),
{
    reveal_strlit("gitdir: ");
    let line = "gitdir: "@ + target;
    assert(line.last() == target.last());
    crate::laws::trimming_finds_the_text(before, line, behind, Pattern::WhiteSpace);
    assert("gitdir: "@ =~= line.take(8));
    assert(line.skip(8) =~= target);
    if gitdir_target(root, text) is Some {
        let value = crate::text::bare(text);
        assert(value =~= "gitdir: "@ + value.skip(8));
    }
}

/// Roots without a `.git` directory or file are passed over.
pub proof fn roots_without_git_are_passed(world: World, roots: Seq<Vec<u8>>, from: nat, to: nat)
    requires
        from <= to <= roots.len(),
        forall|j: int|
            from <= j < to ==> (world.kinds)(entry((#[trigger] roots[j])@, ".git"@))
                == DotGitKind::Neither,
    ensures
        world.discovered(roots, from) == world.discovered(roots, to),
        to == roots.len() ==> world.discovered(roots, from) == Ok::<
            Option<Layout>,
            DiscoveryFault,
        >(None),
    decreases to - from,
{
    if from < to {
        assert((world.kinds)(entry(roots[from as int]@, ".git"@)) == DotGitKind::Neither);
        roots_without_git_are_passed(world, roots, from + 1, to);
    }
}

/// The object format of a configuration: the one that it sets, or SHA-1.
pub open spec fn configured_format(config: Seq<char>) -> Option<ObjectFormat> {
    match crate::config::format_setting(crate::text::text_lines(config)) {
        Some(name) => crate::format::named_format(name),
        None => Some(ObjectFormat::Sha1),
    }
}

/// A repository whose nearest root has a `.git` directory is found there: the index and the objects
/// lie in that directory, and its configuration gives the format.
pub proof fn repository_is_found_in_its_directory(
    world: World,
    roots: Seq<Vec<u8>>,
    at: nat,
    git_dir: Seq<u8>,
    config: Seq<char>,
    format: ObjectFormat,
)
    requires
        at < roots.len(),
        forall|j: int|
            0 <= j < at ==> (world.kinds)(entry((#[trigger] roots[j])@, ".git"@))
                == DotGitKind::Neither,
        (world.kinds)(
            crate::path::joined(roots[at as int]@, vstd::utf8::encode_utf8(".git"@)),
        ) == DotGitKind::Directory,
        (world.resolved)(
            crate::path::joined(roots[at as int]@, vstd::utf8::encode_utf8(".git"@)),
        ) == git_dir,
        (world.files)(crate::path::joined(git_dir, vstd::utf8::encode_utf8("commondir"@))) is None,
        (world.files)(crate::path::joined(git_dir, vstd::utf8::encode_utf8("config"@))) == Some(
            config,
        ),
        configured_format(config) == Some(format),
    ensures
        world.discovered(roots, 0) == Ok::<Option<Layout>, DiscoveryFault>(
            Some(
                (Layout {
                    root: roots[at as int]@,
                    git_dir,
                    common_dir: git_dir,
                    index_path: crate::path::joined(git_dir, vstd::utf8::encode_utf8("index"@)),
                    objects_dir: crate::path::joined(git_dir, vstd::utf8::encode_utf8("objects"@)),
                    object_format: format,
                }),
            ),
        ),
{
    roots_without_git_are_passed(world, roots, 0, at);
    crate::config::formats_have_their_names("sha1"@);
}

/// A linked worktree, whose nearest root has a `.git` file, is found by way of that file: its index
/// lies in the directory that the file names, and the objects and the configuration in the common
/// directory that is named there.
pub proof fn worktree_is_found_by_its_file(
    world: World,
    roots: Seq<Vec<u8>>,
    at: nat,
    target: Seq<char>,
    git_dir: Seq<u8>,
    common: Seq<char>,
    common_dir: Seq<u8>,
    config: Seq<char>,
    format: ObjectFormat,
)
    requires
        at < roots.len(),
        forall|j: int|
            0 <= j < at ==> (world.kinds)(entry((#[trigger] roots[j])@, ".git"@))
                == DotGitKind::Neither,
        (world.kinds)(
            crate::path::joined(roots[at as int]@, vstd::utf8::encode_utf8(".git"@)),
        ) == DotGitKind::File,
        (world.files)(
            crate::path::joined(roots[at as int]@, vstd::utf8::encode_utf8(".git"@)),
        ) == Some("gitdir: "@ + target + "\n"@),
        target.len() > 0,
        !Pattern::WhiteSpace.has(target.last()),
        (world.resolved)(
            crate::path::joined(roots[at as int]@, vstd::utf8::encode_utf8(target)),
        ) == git_dir,
        (world.files)(crate::path::joined(git_dir, vstd::utf8::encode_utf8("commondir"@))) == Some(
            common + "\n"@,
        ),
        common.len() > 0,
        !Pattern::WhiteSpace.has(common[0]),
        !Pattern::WhiteSpace.has(common.last()),
        (world.resolved)(crate::path::joined(git_dir, vstd::utf8::encode_utf8(common)))
            == common_dir,
        (world.files)(crate::path::joined(common_dir, vstd::utf8::encode_utf8("config"@))) == Some(
            config,
        ),
        configured_format(config) == Some(format),
    ensures
        world.discovered(roots, 0) == Ok::<Option<Layout>, DiscoveryFault>(
            Some(
                (Layout {
                    root: roots[at as int]@,
                    git_dir,
                    common_dir,
                    index_path: crate::path::joined(git_dir, vstd::utf8::encode_utf8("index"@)),
                    objects_dir: crate::path::joined(
                        common_dir,
                        vstd::utf8::encode_utf8("objects"@),
                    ),
                    object_format: format,
                }),
            ),
        ),
{
    let nothing = Seq::<char>::empty();
    let root = roots[at as int]@;
    reveal_strlit("\n");
    roots_without_git_are_passed(world, roots, 0, at);
    crate::config::formats_have_their_names("sha1"@);
    git_file_leads_to_its_target(root, nothing, target, "\n"@, nothing);
    assert(nothing + ("gitdir: "@ + target) + "\n"@ =~= "gitdir: "@ + target + "\n"@);
    crate::laws::trimming_finds_the_text(nothing, common, "\n"@, Pattern::WhiteSpace);
    assert(nothing + common + "\n"@ =~= common + "\n"@);
}

/// What is wrong with the repository of the nearest root is reported, and the search does not go
/// on: a `.git` file that cannot be read or has no target, a configuration that is missing, and a
/// format that is not supported.
pub proof fn broken_repositories_are_reported(
    world: World,
    roots: Seq<Vec<u8>>,
    at: nat,
    git_dir: Seq<u8>,
    name: Seq<char>,
)
    requires
        at < roots.len(),
        forall|j: int|
            0 <= j < at ==> (world.kinds)(entry((#[trigger] roots[j])@, ".git"@))
                == DotGitKind::Neither,
    ensures
        ({
            let dot_git = crate::path::joined(
                roots[at as int]@,
                vstd::utf8::encode_utf8(".git"@),
            );
            let config = crate::path::joined(git_dir, vstd::utf8::encode_utf8("config"@));
            let file = (world.kinds)(dot_git) == DotGitKind::File;
            let directory = (world.kinds)(dot_git) == DotGitKind::Directory && (world.resolved)(
                dot_git,
            ) == git_dir && (world.files)(
                crate::path::joined(git_dir, vstd::utf8::encode_utf8("commondir"@)),
            ) is None;
            let answer = world.discovered(roots, 0);
            &&& file && (world.files)(dot_git) is None ==> answer == Err::<
                Option<Layout>,
                DiscoveryFault,
            >(DiscoveryFault::Missing { path: dot_git })
            &&& file && (world.files)(dot_git) is Some && (forall|rest: Seq<char>|
                crate::text::bare((world.files)(dot_git)->0) != #[trigger] ("gitdir: "@ + rest))
                ==> answer == Err::<Option<Layout>, DiscoveryFault>(DiscoveryFault::NoGitdirTarget)
            &&& directory && (world.files)(config) is None ==> answer == Err::<
                Option<Layout>,
                DiscoveryFault,
            >(DiscoveryFault::Missing { path: config })
            &&& directory && (world.files)(config) is Some && crate::config::format_setting(
                crate::text::text_lines((world.files)(config)->0),
            ) == Some(name) && name != "sha1"@ && name != "sha256"@ ==> answer == Err::<
                Option<Layout>,
                DiscoveryFault,
            >(DiscoveryFault::Format { name })
        }),
{
    let root = roots[at as int]@;
    let dot_git = entry(root, ".git"@);
    roots_without_git_are_passed(world, roots, 0, at);
    crate::config::formats_have_their_names(name);
    match (world.files)(dot_git) {
        Some(text) => {
            let value = crate::text::bare(text);
            if "gitdir: "@.is_prefix_of(value) {
                assert(value =~= "gitdir: "@ + value.skip("gitdir: "@.len() as int));
            }
        },
        None => {},
    }
}

} // verus!
