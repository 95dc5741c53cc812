//! Unix paths as byte strings: the separator is `/`, and an absolute path starts with it.

use vstd::prelude::*;
use vstd::slice::{slice_subrange, slice_to_vec};

verus! {

/// A path that starts at the root directory.
pub open spec fn absolute(path: Seq<u8>) -> bool {
    path.len() > 0 && path[0] == 47
}

/// `path` as seen from `base`: itself where it is absolute, and else below `base`.
pub open spec fn joined(base: Seq<u8>, path: Seq<u8>) -> Seq<u8> {
    if absolute(path) {
        path
    } else if base.len() == 0 || base.last() == 47 {
        base + path
    } else {
        base.push(47u8) + path
    }
}

/// The place of the first separator, or the length where there is none.
pub open spec fn first_separator(path: Seq<u8>) -> nat
    decreases path.len(),
{
    if path.len() == 0 || path[0] == 47 {
        0
    } else {
        1 + first_separator(path.skip(1))
    }
}

/// `.`
pub open spec fn current_dir() -> Seq<u8> {
    seq![46u8]
}

/// `..`
pub open spec fn parent_dir() -> Seq<u8> {
    seq![46u8, 46u8]
}

/// `/`
pub open spec fn root_dir() -> Seq<u8> {
    seq![47u8]
}

/// `.git`
pub open spec fn dot_git() -> Seq<u8> {
    seq![46u8, 103u8, 105u8, 116u8]
}

/// The components of a relative path. Empty pieces do not count, nor does `.`, except at the
/// start of the whole path.
pub open spec fn relative_components(path: Seq<u8>, at_start: bool) -> Seq<Seq<u8>>
    decreases path.len(),
{
    if path.len() == 0 {
        Seq::empty()
    } else {
        let end = first_separator(path) as int;
        let piece = path.take(end);
        let rest = if end < path.len() {
            relative_components(path.skip(end + 1), false)
        } else {
            Seq::empty()
        };
        if piece.len() == 0 || (piece == current_dir() && !at_start) {
            rest
        } else {
            seq![piece] + rest
        }
    }
}

/// The components of a path, each by its text. That of an absolute path starts with `/`.
pub open spec fn path_components(path: Seq<u8>) -> Seq<Seq<u8>> {
    if absolute(path) {
        seq![root_dir()] + relative_components(path.skip(1), false)
    } else {
        relative_components(path, true)
    }
}

/// A component that names an entry of a directory.
pub open spec fn normal(component: Seq<u8>) -> bool {
    component != root_dir() && component != current_dir() && component != parent_dir()
}

proof fn lemma_first_separator(path: Seq<u8>, at: int)
    requires
        0 <= at <= path.len(),
        at < path.len() ==> path[at] == 47,
        forall|i: int| 0 <= i < at ==> #[trigger] path[i] != 47,
    ensures
        first_separator(path) == at,
    decreases path.len(),
{
    if at > 0 {
        assert forall|i: int| 0 <= i < at - 1 implies #[trigger] path.skip(1)[i] != 47 by {
            assert(path.skip(1)[i] == path[i + 1]);
        }
        lemma_first_separator(path.skip(1), at - 1);
    }
}

/// Whether two byte strings are the same.
pub fn same_bytes(a: &[u8], b: &[u8]) -> (r: bool)
    ensures
        r == (a@ == b@),
{
    if a.len() != b.len() {
        return false;
    }
    let mut i: usize = 0;
    while i < a.len()
        invariant
            i <= a@.len() == b@.len(),
            forall|j: int| 0 <= j < i ==> a@[j] == b@[j],
        decreases a@.len() - i,
    {
        if a[i] != b[i] {
            return false;
        }
        i = i + 1;
    }
    assert(a@ =~= b@);
    true
}

/// Appends a byte string.
pub fn append_bytes(to: &mut Vec<u8>, bytes: &[u8])
    ensures
        final(to)@ == old(to)@ + bytes@,
{
    to.extend_from_slice(bytes);
    assert(to@ =~= old(to)@ + bytes@);
}

/// Whether a path starts at the root directory.
pub fn is_absolute(path: &[u8]) -> (r: bool)
    ensures
        r == absolute(path@),
{
    path.len() > 0 && path[0] == 47
}

/// `path` as seen from `base`.
pub fn join(base: &[u8], path: &[u8]) -> (r: Vec<u8>)
    ensures
        r@ == joined(base@, path@),
{
    if is_absolute(path) {
        return slice_to_vec(path);
    }
    let mut r: Vec<u8> = slice_to_vec(base);
    if base.len() > 0 && base[base.len() - 1] != 47 {
        r.push(47);
    }
    append_bytes(&mut r, path);
    r
}

/// `base` with an entry of the given name below it.
pub fn join_text(base: &[u8], name: &str) -> (r: Vec<u8>)
    ensures
        r@ == joined(base@, vstd::utf8::encode_utf8(name@)),
{
    join(base, name.as_bytes())
}

/// `prefix` is the shortest start of `path` with the given components.
pub open spec fn shortest_with(path: Seq<u8>, prefix: Seq<u8>, parts: Seq<Seq<u8>>) -> bool {
    &&& prefix.is_prefix_of(path)
    &&& path_components(prefix) == parts
    &&& forall|len: int|
        0 <= len < prefix.len() ==> path_components(#[trigger] path.take(len)) != parts
}

/// The components of each start of `path` from `start` on: those passed, and those of the rest.
spec fn passed(path: Seq<u8>, start: int, done: Seq<Seq<u8>>, at_start: bool) -> bool {
    forall|len: int|
        start <= len <= path.len() ==> path_components(#[trigger] path.take(len)) == done
            + relative_components(path.subrange(start, len), at_start)
}

/// A start of `path` shorter than `start` has no more components than were passed.
spec fn bounded(path: Seq<u8>, start: int, count: nat) -> bool {
    forall|len: int|
        0 <= len < start && len <= path.len() ==> path_components(#[trigger] path.take(len)).len()
            <= count
}

/// Each of the ends is that of the shortest start with the components up to it.
spec fn marked(path: Seq<u8>, ends: Seq<usize>, done: Seq<Seq<u8>>) -> bool {
    forall|k: int|
        0 <= k < ends.len() ==> (#[trigger] ends[k]) <= path.len() && shortest_with(
            path,
            path.take(ends[k] as int),
            done.take(k + 1),
        )
}

/// The components of a piece without a separator.
spec fn lone(piece: Seq<u8>, at_start: bool) -> Seq<Seq<u8>> {
    if piece.len() == 0 || (piece == current_dir() && !at_start) {
        Seq::empty()
    } else {
        seq![piece]
    }
}

/// A piece from `start` up to a separator or the end of the path: what it adds to the components
/// of each start of the path.
proof fn lemma_piece(path: Seq<u8>, start: int, end: int, done: Seq<Seq<u8>>, at_start: bool)
    requires
        0 <= start < path.len(),
        start <= end <= path.len(),
        end < path.len() ==> path[end] == 47,
        forall|i: int| start <= i < end ==> #[trigger] path[i] != 47,
        passed(path, start, done, at_start),
    ensures
        end < path.len() ==> passed(
            path,
            end + 1,
            done + lone(path.subrange(start, end), at_start),
            false,
        ),
        forall|len: int|
            start <= len <= end ==> path_components(#[trigger] path.take(len)) == done + lone(
                path.subrange(start, len),
                at_start,
            ),
{
    let piece = path.subrange(start, end);
    assert forall|len: int| start <= len <= end implies path_components(#[trigger] path.take(len))
        == done + lone(path.subrange(start, len), at_start) by {
        let part = path.subrange(start, len);
        assert forall|i: int| 0 <= i < part.len() implies #[trigger] part[i] != 47 by {
            assert(part[i] == path[start + i]);
        }
        lemma_first_separator(part, part.len() as int);
        assert(part.take(part.len() as int) =~= part);
        assert(relative_components(part, at_start) =~= lone(part, at_start));
    }
    if end < path.len() {
        let more = done + lone(piece, at_start);
        assert forall|len: int| end + 1 <= len <= path.len() implies path_components(
            #[trigger] path.take(len),
        ) == more + relative_components(path.subrange(end + 1, len), false) by {
            let part = path.subrange(start, len);
            assert forall|i: int| 0 <= i < end - start implies #[trigger] part[i] != 47 by {
                assert(part[i] == path[start + i]);
            }
            lemma_first_separator(part, end - start);
            assert(part.take(end - start) =~= piece);
            assert(part.skip(end - start + 1) =~= path.subrange(end + 1, len));
            assert(relative_components(part, at_start) =~= lone(piece, at_start)
                + relative_components(path.subrange(end + 1, len), false));
            assert(done + relative_components(part, at_start) =~= more + relative_components(
                path.subrange(end + 1, len),
                false,
            ));
        }
    }
}

/// The components of a path, and where each of them ends.
fn scan(path: &[u8]) -> (r: (Vec<Vec<u8>>, Vec<usize>))
    ensures
        r.0@.len() == path_components(path@).len(),
        r.1@.len() == r.0@.len(),
        forall|i: int| 0 <= i < r.0@.len() ==> (#[trigger] r.0@[i])@ == path_components(path@)[i],
        marked(path@, r.1@, path_components(path@)),
{
    let mut parts: Vec<Vec<u8>> = Vec::new();
    let mut ends: Vec<usize> = Vec::new();
    let ghost mut done: Seq<Seq<u8>> = Seq::empty();
    let mut start: usize = 0;
    let mut at_start: bool = true;
    if is_absolute(path) {
        let root: Vec<u8> = vec![47];
        assert(root@ =~= root_dir());
        parts.push(root);
        ends.push(1);
        start = 1;
        at_start = false;
        proof {
            done = done.push(root_dir());
            assert forall|len: int| 1 <= len <= path@.len() implies path_components(
                #[trigger] path@.take(len),
            ) == done + relative_components(path@.subrange(1, len), false) by {
                assert(path@.take(len).skip(1) =~= path@.subrange(1, len));
                assert(seq![root_dir()] =~= done);
            }
            assert(relative_components(path@.subrange(1, 1), false) =~= Seq::<Seq<u8>>::empty());
            assert(path_components(path@.take(1)) =~= done);
            assert(path_components(path@.take(0)) =~= Seq::<Seq<u8>>::empty());
            assert(done.take(1) =~= done);
        }
    } else {
        proof {
            assert forall|len: int| 0 <= len <= path@.len() implies path_components(
                #[trigger] path@.take(len),
            ) == done + relative_components(path@.subrange(0, len), true) by {
                assert(path@.take(len) =~= path@.subrange(0, len));
                assert(done + relative_components(path@.take(len), true) =~= relative_components(
                    path@.take(len),
                    true,
                ));
            }
        }
    }
    while start < path.len()
        invariant
            start <= path@.len(),
            passed(path@, start as int, done, at_start),
            bounded(path@, start as int, done.len()),
            marked(path@, ends@, done),
            parts@.len() == done.len(),
            ends@.len() == done.len(),
            forall|i: int| 0 <= i < parts@.len() ==> (#[trigger] parts@[i])@ == done[i],
        decreases path@.len() - start,
    {
        let mut end: usize = start;
        while end < path.len() && path[end] != 47
            invariant
                start <= end <= path@.len(),
                forall|i: int| start <= i < end ==> #[trigger] path@[i] != 47,
            decreases path@.len() - end,
        {
            end = end + 1;
        }
        let piece: &[u8] = slice_subrange(path, start, end);
        let counts: bool = if piece.len() == 0 {
            false
        } else if piece.len() == 1 && piece[0] == 46 {
            assert(piece@ =~= current_dir());
            at_start
        } else {
            true
        };
        let ghost before = done;
        proof {
            lemma_piece(path@, start as int, end as int, done, at_start);
            let more = lone(piece@, at_start);
            assert forall|len: int| 0 <= len < end + 1 && len <= path@.len() implies
                path_components(#[trigger] path@.take(len)).len() <= (done + more).len() by {
                if len >= start {
                    assert(path_components(path@.take(len)) == done + lone(
                        path@.subrange(start as int, len),
                        at_start,
                    ));
                    if more.len() == 0 && len > start {
                        assert(path@.subrange(start as int, len) =~= piece@);
                    }
                }
            }
            if counts {
                done = done.push(piece@);
                assert(before + more =~= done);
            } else {
                assert(before + more =~= done);
            }
        }
        if counts {
            proof {
                assert(path_components(path@.take(end as int)) =~= done);
                assert forall|len: int| 0 <= len < end implies path_components(
                    #[trigger] path@.take(len),
                ) != done by {
                    if len >= start {
                        let part = path@.subrange(start as int, len);
                        assert(path_components(path@.take(len)) == before + lone(part, at_start));
                        if lone(part, at_start).len() == 1 {
                            assert((before + lone(part, at_start))[before.len() as int] == part);
                            assert(done[before.len() as int] == piece@);
                        }
                    }
                }
                assert(done.take(done.len() as int) =~= done);
            }
            parts.push(slice_to_vec(piece));
            ends.push(end);
            proof {
                assert forall|k: int| 0 <= k < ends@.len() implies (#[trigger] ends@[k])
                    <= path@.len() && shortest_with(
                    path@,
                    path@.take(ends@[k] as int),
                    done.take(k + 1),
                ) by {
                    if k < before.len() {
                        assert(before.take(k + 1) =~= done.take(k + 1));
                    }
                }
            }
        }
        at_start = false;
        if end < path.len() {
            start = end + 1;
        } else {
            start = end;
            proof {
                assert forall|len: int| start <= len <= path@.len() implies path_components(
                    #[trigger] path@.take(len),
                ) == done + relative_components(path@.subrange(start as int, len), false) by {
                    assert(path@.subrange(start as int, len) =~= Seq::<u8>::empty());
                    assert(done + Seq::<Seq<u8>>::empty() =~= done);
                }
            }
        }
    }
    proof {
        assert(path@.take(path@.len() as int) =~= path@);
        assert(path@.subrange(start as int, path@.len() as int) =~= Seq::<u8>::empty());
        assert(done + Seq::<Seq<u8>>::empty() =~= done);
    }
    (parts, ends)
}

/// The components of a path.
pub fn components(path: &[u8]) -> (r: Vec<Vec<u8>>)
    ensures
        r@.len() == path_components(path@).len(),
        forall|i: int| 0 <= i < r@.len() ==> (#[trigger] r@[i])@ == path_components(path@)[i],
{
    let (parts, ends): (Vec<Vec<u8>>, Vec<usize>) = scan(path);
    parts
}

/// How many paths there are from a path upwards: one for each component, and one more for a
/// relative path, whose last is empty.
pub open spec fn ancestor_count(path: Seq<u8>) -> nat {
    if absolute(path) {
        path_components(path).len()
    } else {
        path_components(path).len() + 1
    }
}

/// A path and those above it, the nearest first. Each is the shortest start of the path that has
/// all of its components but the last, the last two and so on.
pub fn ancestors(path: &[u8]) -> (r: Vec<Vec<u8>>)
    ensures
        r@.len() == ancestor_count(path@),
        r@[0]@ == path@,
        forall|i: int|
            1 <= i < r@.len() ==> shortest_with(
                path@,
                (#[trigger] r@[i])@,
                path_components(path@).take(path_components(path@).len() - i),
            ),
{
    let (parts, ends): (Vec<Vec<u8>>, Vec<usize>) = scan(path);
    let ghost all = path_components(path@);
    proof {
        if absolute(path@) {
            assert(all.len() >= 1);
        }
    }
    let mut r: Vec<Vec<u8>> = vec![slice_to_vec(path)];
    let mut left: usize = ends.len();
    while left > 1
        invariant
            left <= ends@.len() == all.len(),
            all == path_components(path@),
            marked(path@, ends@, all),
            left == 0 ==> ends@.len() == 0,
            r@.len() == 1 + ends@.len() - left,
            r@[0]@ == path@,
            forall|i: int|
                1 <= i < r@.len() ==> shortest_with(
                    path@,
                    (#[trigger] r@[i])@,
                    all.take(all.len() - i),
                ),
        decreases left,
    {
        left = left - 1;
        let end: usize = ends[left - 1];
        assert(shortest_with(path@, path@.take(end as int), all.take(left as int)));
        assert(path@.subrange(0, end as int) =~= path@.take(end as int));
        r.push(slice_to_vec(slice_subrange(path, 0, end)));
    }
    if left == 1 && !is_absolute(path) {
        let nothing: Vec<u8> = Vec::new();
        proof {
            assert(nothing@ =~= path@.take(0));
            assert(path_components(nothing@) =~= Seq::<Seq<u8>>::empty());
            assert(all.take(0) =~= Seq::<Seq<u8>>::empty());
        }
        r.push(nothing);
    }
    r
}

/// Why a path cannot be the version file.
#[derive(Debug, Clone, Copy, PartialEq, Eq, Structural)]
pub enum VersionFileError {
    /// It is empty or absolute.
    NotRelative,
    /// It has a component other than the name of an entry.
    NotNormal,
    /// Its first component is `.git`.
    InsideGit,
}

impl VersionFileError {
    /// The message for the user.
    pub fn describe(&self) -> (text: &'static str)
        ensures
            text@ == match *self {
                VersionFileError::NotRelative =>
                    "the version file must be a non-empty repository-relative path"@,
                VersionFileError::NotNormal =>
                    "the version file must not contain '.', '..', or a path root"@,
                VersionFileError::InsideGit => "the version file cannot be inside .git"@,
            },
    {
        match *self {
            VersionFileError::NotRelative =>
                "the version file must be a non-empty repository-relative path",
            VersionFileError::NotNormal =>
                "the version file must not contain '.', '..', or a path root",
            VersionFileError::InsideGit => "the version file cannot be inside .git",
        }
    }
}

/// What is wrong with a path as the version file, if anything is.
pub open spec fn version_file_fault(path: Seq<u8>) -> Option<VersionFileError> {
    let parts = path_components(path);
    if path.len() == 0 || absolute(path) {
        Some(VersionFileError::NotRelative)
    } else if exists|i: int| 0 <= i < parts.len() && !normal(#[trigger] parts[i]) {
        Some(VersionFileError::NotNormal)
    } else if parts.len() > 0 && parts[0] == dot_git() {
        Some(VersionFileError::InsideGit)
    } else {
        None
    }
}

/// Accepts a path below the repository root that stays there and clear of `.git`.
pub fn validate_version_file(path: &[u8]) -> (r: Result<(), VersionFileError>)
    ensures
        match r {
            Ok(()) => version_file_fault(path@) is None,
            Err(error) => version_file_fault(path@) == Some(error),
        },
{
    if path.len() == 0 || is_absolute(path) {
        return Err(VersionFileError::NotRelative);
    }
    let parts: Vec<Vec<u8>> = components(path);
    let ghost all = path_components(path@);
    let mut i: usize = 0;
    while i < parts.len()
        invariant
            i <= parts@.len(),
            parts@.len() == all.len(),
            all == path_components(path@),
            path@.len() > 0,
            !absolute(path@),
            forall|j: int| 0 <= j < all.len() ==> (#[trigger] parts@[j])@ == all[j],
            forall|j: int| 0 <= j < i ==> normal(#[trigger] all[j]),
        decreases parts@.len() - i,
    {
        assert(parts@[i as int]@ == all[i as int]);
        if !is_normal(parts[i].as_slice()) {
            return Err(VersionFileError::NotNormal);
        }
        i = i + 1;
    }
    if parts.len() > 0 {
        assert(parts@[0]@ == all[0]);
        let git: Vec<u8> = vec![46, 103, 105, 116];
        assert(git@ =~= dot_git());
        if same_bytes(parts[0].as_slice(), git.as_slice()) {
            return Err(VersionFileError::InsideGit);
        }
    }
    Ok(())
}

/// Whether a component names an entry of a directory.
pub fn is_normal(component: &[u8]) -> (r: bool)
    ensures
        r == normal(component@),
{
    let root: Vec<u8> = vec![47];
    let current: Vec<u8> = vec![46];
    let parent: Vec<u8> = vec![46, 46];
    assert(root@ =~= root_dir());
    assert(current@ =~= current_dir());
    assert(parent@ =~= parent_dir());
    !same_bytes(component, root.as_slice()) && !same_bytes(component, current.as_slice())
        && !same_bytes(component, parent.as_slice())
}

/// An accepted version file lies below the root, and each of its components names an entry, of
/// which the first is not `.git`.
pub proof fn version_file_stays_below_root(root: Seq<u8>, path: Seq<u8>)
    requires
        version_file_fault(path) is None,
    ensures
        root.is_prefix_of(joined(root, path)),
        forall|i: int|
            0 <= i < path_components(path).len() ==> normal(#[trigger] path_components(path)[i]),
        path_components(path).len() > 0,
        path_components(path)[0] != dot_git(),
{
    assert(root =~= joined(root, path).take(root.len() as int));
    let end = first_separator(path) as int;
    assert(path[0] != 47);
    assert(path.take(end).len() > 0) by {
        assert(first_separator(path) >= 1);
        lemma_separator_within(path);
    }
}

proof fn lemma_separator_within(path: Seq<u8>)
    ensures
        first_separator(path) <= path.len(),
    decreases path.len(),
{
    if path.len() > 0 && path[0] != 47 {
        lemma_separator_within(path.skip(1));
    }
}

/// The path that the first `count` components lead to from `root`.
pub open spec fn path_after(root: Seq<u8>, parts: Seq<Seq<u8>>, count: nat) -> Seq<u8>
    decreases count,
{
    if count == 0 {
        root
    } else {
        joined(path_after(root, parts, (count - 1) as nat), parts[count - 1])
    }
}

/// What there is at a path.
#[derive(Debug, Clone, Copy, PartialEq, Eq, Structural)]
pub enum Entry {
    SymbolicLink,
    Other,
    Missing,
}

/// The first symbolic link on the way from `root` along the components, of which `from` have been
/// passed, unless an entry is missing before it.
pub open spec fn first_link(
    entries: spec_fn(Seq<u8>) -> Entry,
    root: Seq<u8>,
    parts: Seq<Seq<u8>>,
    from: nat,
) -> Option<Seq<u8>>
    decreases parts.len() - from,
{
    if from >= parts.len() {
        None
    } else {
        let path = path_after(root, parts, from + 1);
        match entries(path) {
            Entry::SymbolicLink => Some(path),
            Entry::Missing => None,
            Entry::Other => first_link(entries, root, parts, from + 1),
        }
    }
}

/// The message for a symbolic link on the way to the version file, with its path as it is shown.
pub fn describe_link(shown: &str) -> (text: String)
    ensures
        text@ == "the version file path contains a symbolic link: "@ + shown@,
{
    let mut text: String = "the version file path contains a symbolic link: ".to_owned();
    text.append(shown);
    text
}

/// A walk down the components of a path that refuses to pass a symbolic link. Whoever walks asks
/// for the next path to look at and reports what is there.
pub struct SymlinkWalk {
    parts: Vec<Vec<u8>>,
    current: Vec<u8>,
    index: usize,
    over: bool,
    root: Ghost<Seq<u8>>,
    relative: Ghost<Seq<u8>>,
}

impl SymlinkWalk {
    /// Where the walk starts.
    pub closed spec fn root(&self) -> Seq<u8> {
        self.root@
    }

    /// The path that is walked.
    pub closed spec fn relative(&self) -> Seq<u8> {
        self.relative@
    }

    /// Components passed so far.
    pub closed spec fn index(&self) -> nat {
        self.index as nat
    }

    /// Nothing is left to look at.
    pub closed spec fn over(&self) -> bool {
        self.over
    }

    pub closed spec fn inv(&self) -> bool {
        let parts = path_components(self.relative@);
        &&& self.parts@.len() == parts.len()
        &&& forall|i: int| 0 <= i < parts.len() ==> (#[trigger] self.parts@[i])@ == parts[i]
        &&& self.index <= self.parts@.len()
        &&& self.current@ == path_after(self.root@, parts, self.index as nat)
    }

    /// The link that the walk will come to, in a file system with the given entries.
    pub open spec fn answer(&self, entries: spec_fn(Seq<u8>) -> Entry) -> Option<Seq<u8>> {
        if self.over() {
            None
        } else {
            first_link(entries, self.root(), path_components(self.relative()), self.index())
        }
    }

    /// Starts a walk from `root` along `relative`.
    pub fn new(root: &[u8], relative: &[u8]) -> (walk: SymlinkWalk)
        ensures
            walk.inv(),
            walk.root() == root@,
            walk.relative() == relative@,
            walk.index() == 0,
            !walk.over(),
            forall|entries: spec_fn(Seq<u8>) -> Entry| #[trigger]
                walk.answer(entries) == first_link(entries, root@, path_components(relative@), 0),
    {
        SymlinkWalk {
            parts: components(relative),
            current: slice_to_vec(root),
            index: 0,
            over: false,
            root: Ghost(root@),
            relative: Ghost(relative@),
        }
    }

    /// The next path to look at: one component further than the last. There is none behind the
    /// last component or once an entry was missing.
    pub fn next_path(&mut self) -> (path: Option<Vec<u8>>)
        requires
            old(self).inv(),
        ensures
            final(self).inv(),
            final(self).root() == old(self).root(),
            final(self).relative() == old(self).relative(),
            match path {
                Some(p) => {
                    &&& !old(self).over()
                    &&& !final(self).over()
                    &&& old(self).index() < path_components(old(self).relative()).len()
                    &&& final(self).index() == old(self).index() + 1
                    &&& p@ == path_after(
                        old(self).root(),
                        path_components(old(self).relative()),
                        final(self).index(),
                    )
                },
                None => {
                    &&& old(self).over() || old(self).index() == path_components(
                        old(self).relative(),
                    ).len()
                    &&& final(self).index() == old(self).index()
                    &&& final(self).over()
                },
            },
            forall|entries: spec_fn(Seq<u8>) -> Entry| #[trigger]
                old(self).answer(entries) == match path {
                    Some(p) => match entries(p@) {
                        Entry::SymbolicLink => Some(p@),
                        Entry::Missing => None,
                        Entry::Other => final(self).answer(entries),
                    },
                    None => None,
                },
    {
        if self.over || self.index >= self.parts.len() {
            self.over = true;
            return None;
        }
        let ghost parts = path_components(self.relative@);
        assert(self.parts@[self.index as int]@ == parts[self.index as int]);
        let next: Vec<u8> = join(self.current.as_slice(), self.parts[self.index].as_slice());
        let path: Vec<u8> = slice_to_vec(next.as_slice());
        self.current = next;
        self.index = self.index + 1;
        Some(path)
    }

    /// Takes in what is at the last path. A symbolic link is refused, with its path; behind a
    /// missing entry there is nothing more to look at.
    pub fn report(&mut self, entry: Entry) -> (r: Result<(), Vec<u8>>)
        requires
            old(self).inv(),
        ensures
            final(self).inv(),
            final(self).root() == old(self).root(),
            final(self).relative() == old(self).relative(),
            final(self).index() == old(self).index(),
            match entry {
                Entry::SymbolicLink => {
                    &&& r matches Err(path) && path@ == path_after(
                        old(self).root(),
                        path_components(old(self).relative()),
                        old(self).index(),
                    )
                    &&& final(self).over() == old(self).over()
                },
                Entry::Other => r is Ok && final(self).over() == old(self).over(),
                Entry::Missing => r is Ok && final(self).over(),
            },
    {
        match entry {
            Entry::SymbolicLink => Err(slice_to_vec(self.current.as_slice())),
            Entry::Other => Ok(()),
            Entry::Missing => {
                self.over = true;
                Ok(())
            },
        }
    }
}

/// A name of an entry: not empty, without a separator, and neither `.` nor `..`.
pub open spec fn entry_name(name: Seq<u8>) -> bool {
    &&& name.len() > 0
    &&& forall|i: int| 0 <= i < name.len() ==> #[trigger] name[i] != 47
    &&& name != seq![46u8]
    &&& name != seq![46u8, 46u8]
}

/// A relative path lies below the base that it is seen from: the base comes first, the path last,
/// and between them a separator, unless the base ends in one or is empty. An absolute path is the
/// same from everywhere.
pub proof fn paths_lie_below_their_base(base: Seq<u8>, path: Seq<u8>)
    ensures
        path.len() > 0 && path[0] == 47 ==> joined(base, path) == path,
        path.len() == 0 || path[0] != 47 ==> {
            let whole = joined(base, path);
            &&& base.is_prefix_of(whole)
            &&& path.len() <= whole.len() && whole.skip(whole.len() - path.len()) == path
            &&& base.len() == 0 || base.last() == 47 ==> whole.len() == base.len() + path.len()
            &&& base.len() > 0 && base.last() != 47 ==> whole.len() == base.len() + 1 + path.len()
                && whole[base.len() as int] == 47
        },
{
    let whole = joined(base, path);
    if !(path.len() > 0 && path[0] == 47) {
        assert(whole.take(base.len() as int) =~= base);
        assert(whole.skip(whole.len() - path.len()) =~= path);
    }
}

proof fn lemma_separator_found(path: Seq<u8>)
    ensures
        first_separator(path) <= path.len(),
        first_separator(path) < path.len() ==> path[first_separator(path) as int] == 47,
        forall|i: int| 0 <= i < first_separator(path) ==> #[trigger] path[i] != 47,
    decreases path.len(),
{
    if path.len() > 0 && path[0] != 47 {
        let rest = path.skip(1);
        lemma_separator_found(rest);
        assert forall|i: int| 0 <= i < first_separator(path) implies #[trigger] path[i] != 47 by {
            if i > 0 {
                assert(rest[i - 1] == path[i]);
            }
        }
    }
}

proof fn lemma_components_concat(first: Seq<u8>, second: Seq<u8>, at_start: bool)
    requires
        first.len() > 0 || !at_start,
    ensures
        relative_components(first + seq![47u8] + second, at_start) == relative_components(
            first,
            at_start,
        ) + relative_components(second, false),
    decreases first.len(),
{
    let whole = first + seq![47u8] + second;
    let end = first_separator(first) as int;
    lemma_separator_found(first);
    assert(whole[first.len() as int] == 47);
    assert forall|i: int| 0 <= i < end implies #[trigger] whole[i] != 47 by {
        assert(whole[i] == first[i]);
    }
    if end < first.len() {
        assert(whole[end] == first[end]);
    }
    lemma_first_separator(whole, end);
    assert(whole.take(end) =~= first.take(end));
    let tail = relative_components(second, false);
    if end < first.len() {
        let rest = first.skip(end + 1);
        assert(whole.skip(end + 1) =~= rest + seq![47u8] + second);
        lemma_components_concat(rest, second, false);
        let piece = first.take(end);
        assert(seq![piece] + (relative_components(rest, false) + tail) =~= (seq![piece]
            + relative_components(rest, false)) + tail);
    } else {
        assert(whole.skip(end + 1) =~= second);
        assert(first.take(end) =~= first);
        let nothing = Seq::<Seq<u8>>::empty();
        assert(nothing + tail =~= tail);
        assert(seq![first] + nothing + tail =~= seq![first] + tail);
    }
}

/// A separator between two paths, of which the first is not empty, parts their components.
pub proof fn separators_part_components(first: Seq<u8>, second: Seq<u8>)
    requires
        first.len() > 0,
    ensures
        path_components(first + seq![47u8] + second) == path_components(first) + path_components(
            seq![47u8] + second,
        ).skip(1),
{
    let whole = first + seq![47u8] + second;
    let below = seq![47u8] + second;
    let tail = relative_components(second, false);
    assert(below.skip(1) =~= second);
    assert(path_components(below).skip(1) =~= tail);
    assert(whole[0] == first[0]);
    if first[0] == 47 {
        assert(whole.skip(1) =~= first.skip(1) + seq![47u8] + second);
        lemma_components_concat(first.skip(1), second, false);
        assert(seq![root_dir()] + (relative_components(first.skip(1), false) + tail) =~= (seq![
            root_dir(),
        ] + relative_components(first.skip(1), false)) + tail);
    } else {
        lemma_components_concat(first, second, true);
    }
}

/// The components of the shortest paths: none of the empty path, the root directory of `/`, and of
/// a path without a separator the path itself. Behind a separator neither an empty piece nor `.`
/// is one.
pub proof fn pieces_are_components(name: Seq<u8>, rest: Seq<u8>)
    requires
        forall|i: int| 0 <= i < name.len() ==> #[trigger] name[i] != 47,
    ensures
        path_components(Seq::empty()) == Seq::<Seq<u8>>::empty(),
        path_components(seq![47u8]) == seq![seq![47u8]],
        name.len() > 0 ==> path_components(name) == seq![name],
        name.len() > 0 && name != seq![46u8] ==> path_components(seq![47u8] + name) == seq![
            seq![47u8],
            name,
        ],
        path_components(seq![47u8, 47u8] + rest) == path_components(seq![47u8] + rest),
        path_components(seq![47u8, 46u8]) == seq![seq![47u8]],
        path_components(seq![47u8, 46u8, 47u8] + rest) == path_components(seq![47u8] + rest),
{
    let nothing = Seq::<Seq<u8>>::empty();
    let root = seq![47u8];
    assert(root.skip(1) =~= Seq::<u8>::empty());
    assert(seq![root_dir()] + nothing =~= seq![seq![47u8]]);
    lemma_first_separator(name, name.len() as int);
    assert(name.take(name.len() as int) =~= name);
    assert(seq![name] + nothing =~= seq![name]);
    let below = root + name;
    assert(below.skip(1) =~= name);
    if name.len() > 0 && name != seq![46u8] {
        assert(path_components(below) =~= seq![seq![47u8], name]);
    }
    let plain = root + rest;
    assert(plain.skip(1) =~= rest);
    let doubled = seq![47u8, 47u8] + rest;
    assert(doubled.skip(1) =~= Seq::<u8>::empty() + seq![47u8] + rest);
    lemma_components_concat(Seq::empty(), rest, false);
    assert(nothing + relative_components(rest, false) =~= relative_components(rest, false));
    let dot = seq![46u8];
    let dotted = seq![47u8, 46u8, 47u8] + rest;
    assert(dotted.skip(1) =~= dot + seq![47u8] + rest);
    lemma_components_concat(dot, rest, false);
    lemma_first_separator(dot, 1);
    assert(dot.take(1) =~= dot);
    assert(relative_components(dot, false) =~= nothing);
    assert(seq![47u8, 46u8].skip(1) =~= dot);
}

/// An entry below a directory has the directory's components and its own name, and one path more
/// above it.
pub proof fn entries_add_a_component(base: Seq<u8>, name: Seq<u8>)
    requires
        base.len() > 0,
        entry_name(name),
    ensures
        path_components(joined(base, name)) == path_components(base).push(name),
        ancestor_count(joined(base, name)) == ancestor_count(base) + 1,
{
    let whole = joined(base, name);
    let below = seq![47u8] + name;
    pieces_are_components(name, Seq::empty());
    assert(path_components(below).skip(1) =~= seq![name]);
    if base.last() == 47 {
        let front = base.drop_last();
        let nothing = Seq::<u8>::empty();
        assert(whole =~= front + seq![47u8] + name);
        assert(base =~= front + seq![47u8] + nothing);
        if front.len() > 0 {
            separators_part_components(front, name);
            separators_part_components(front, nothing);
            assert(seq![47u8] + nothing =~= seq![47u8]);
            assert(path_components(seq![47u8]).skip(1) =~= Seq::<Seq<u8>>::empty());
            assert(path_components(front) + Seq::<Seq<u8>>::empty() =~= path_components(front));
        } else {
            assert(whole =~= below);
            assert(base =~= seq![47u8]);
            assert(seq![seq![47u8]].push(name) =~= seq![seq![47u8], name]);
        }
    } else {
        assert(whole =~= base + seq![47u8] + name);
        separators_part_components(base, name);
    }
    assert(path_components(base) + seq![name] =~= path_components(base).push(name));
    assert(whole[0] == base[0]);
}

/// Every component but that of the root directory is a piece without a separator that is not
/// empty.
pub proof fn components_have_no_separators(path: Seq<u8>, i: int)
    requires
        0 <= i < path_components(path).len(),
    ensures
        path_components(path)[i].len() > 0,
        path_components(path)[i] == seq![47u8] || forall|j: int|
            0 <= j < path_components(path)[i].len() ==> #[trigger] path_components(path)[i][j]
                != 47,
        path_components(path)[i] == seq![47u8] ==> i == 0 && path[0] == 47,
{
    if absolute(path) {
        lemma_relative_pieces(path.skip(1), false);
        if i > 0 {
            let rest = relative_components(path.skip(1), false);
            assert(path_components(path)[i] == rest[i - 1]);
        }
    } else {
        lemma_relative_pieces(path, true);
    }
}

proof fn lemma_relative_pieces(path: Seq<u8>, at_start: bool)
    ensures
        forall|i: int|
            0 <= i < relative_components(path, at_start).len() ==> {
                let piece = #[trigger] relative_components(path, at_start)[i];
                &&& piece.len() > 0
                &&& piece != seq![47u8]
                &&& forall|j: int| 0 <= j < piece.len() ==> #[trigger] piece[j] != 47
            },
    decreases path.len(),
{
    if path.len() > 0 {
        let end = first_separator(path) as int;
        lemma_separator_found(path);
        let first = path.take(end);
        let all = relative_components(path, at_start);
        assert forall|j: int| 0 <= j < first.len() implies #[trigger] first[j] != 47 by {
            assert(first[j] == path[j]);
        }
        if first.len() > 0 {
            assert(first != seq![47u8]) by {
                assert(first[0] != 47);
            }
        }
        let rest = if end < path.len() {
            relative_components(path.skip(end + 1), false)
        } else {
            Seq::empty()
        };
        if end < path.len() {
            lemma_relative_pieces(path.skip(end + 1), false);
        }
        let counts = !(first.len() == 0 || (first == current_dir() && !at_start));
        assert forall|i: int| 0 <= i < all.len() implies {
            let piece = #[trigger] all[i];
            &&& piece.len() > 0
            &&& piece != seq![47u8]
            &&& forall|j: int| 0 <= j < piece.len() ==> #[trigger] piece[j] != 47
        } by {
            if counts {
                if i > 0 {
                    assert(all[i] == rest[i - 1]);
                } else {
                    assert(all[i] == first);
                }
            } else {
                assert(all[i] == rest[i]);
            }
        }
    }
}

/// A version file is accepted if and only if it is not empty, does not start with a separator, has
/// no component `.` or `..`, and does not start with `.git`. Where several of these fail, the first
/// in this order is reported.
pub proof fn version_files_are_names_below_the_root(path: Seq<u8>)
    ensures
        ({
            let parts = path_components(path);
            let rootless = path.len() > 0 && path[0] != 47;
            let named = forall|i: int|
                0 <= i < parts.len() ==> #[trigger] parts[i] != seq![46u8] && parts[i] != seq![
                    46u8,
                    46u8,
                ];
            let in_git = parts.len() > 0 && parts[0] == seq![46u8, 103u8, 105u8, 116u8];
            match version_file_fault(path) {
                None => rootless && named && !in_git,
                Some(VersionFileError::NotRelative) => !rootless,
                Some(VersionFileError::NotNormal) => rootless && !named,
                Some(VersionFileError::InsideGit) => rootless && named && in_git,
            }
        }),
{
    let parts = path_components(path);
    if path.len() > 0 && path[0] != 47 {
        assert forall|i: int| 0 <= i < parts.len() implies normal(#[trigger] parts[i]) == (parts[i]
            != seq![46u8] && parts[i] != seq![46u8, 46u8]) by {
            components_have_no_separators(path, i);
        }
        if exists|i: int| 0 <= i < parts.len() && !normal(#[trigger] parts[i]) {
            let i = choose|i: int| 0 <= i < parts.len() && !normal(#[trigger] parts[i]);
            assert(parts[i] == seq![46u8] || parts[i] == seq![46u8, 46u8]);
        }
    }
}

/// On the way along the names of entries, each path has the components of the root and those
/// passed so far.
pub proof fn way_passes_the_components(root: Seq<u8>, parts: Seq<Seq<u8>>, count: nat)
    requires
        root.len() > 0,
        count <= parts.len(),
        forall|i: int| 0 <= i < parts.len() ==> entry_name(#[trigger] parts[i]),
    ensures
        path_components(path_after(root, parts, count)) == path_components(root) + parts.take(
            count as int,
        ),
        root.is_prefix_of(path_after(root, parts, count)),
    decreases count,
{
    let path = path_after(root, parts, count);
    if count == 0 {
        assert(parts.take(0) =~= Seq::<Seq<u8>>::empty());
        assert(path_components(root) + Seq::<Seq<u8>>::empty() =~= path_components(root));
        assert(root.take(root.len() as int) =~= root);
    } else {
        let last = count - 1;
        let before = path_after(root, parts, last as nat);
        way_passes_the_components(root, parts, last as nat);
        assert(entry_name(parts[last]));
        assert(before.len() > 0);
        entries_add_a_component(before, parts[last]);
        paths_lie_below_their_base(before, parts[last]);
        assert(path_components(root) + parts.take(count as int) =~= (path_components(root)
            + parts.take(last)).push(parts[last]));
        assert(root =~= before.take(root.len() as int));
        assert(root =~= path.take(root.len() as int)) by {
            assert(before =~= path.take(before.len() as int));
        }
    }
}

/// Behind `from` passed components, each entry on the way up to `to` of them is there and is no
/// symbolic link.
pub open spec fn passable(
    entries: spec_fn(Seq<u8>) -> Entry,
    root: Seq<u8>,
    parts: Seq<Seq<u8>>,
    from: nat,
    to: nat,
) -> bool {
    forall|k: nat|
        from < k <= to ==> entries(#[trigger] path_after(root, parts, k)) == Entry::Other
}

/// A symbolic link that everything on the way leads up to is the one that is found.
pub proof fn first_link_is_found(
    entries: spec_fn(Seq<u8>) -> Entry,
    root: Seq<u8>,
    parts: Seq<Seq<u8>>,
    from: nat,
    at: nat,
)
    requires
        from <= at < parts.len(),
        passable(entries, root, parts, from, at),
        entries(path_after(root, parts, at + 1)) == Entry::SymbolicLink,
    ensures
        first_link(entries, root, parts, from) == Some(path_after(root, parts, at + 1)),
    decreases at - from,
{
    if from < at {
        assert(entries(path_after(root, parts, from + 1)) == Entry::Other);
        assert forall|k: nat| from + 1 < k <= at implies entries(
            #[trigger] path_after(root, parts, k),
        ) == Entry::Other by {}
        first_link_is_found(entries, root, parts, from + 1, at);
    }
}

/// Where everything on the way is there and is no symbolic link, or is so up to an entry that is
/// missing, no link is found.
pub proof fn no_link_is_found(
    entries: spec_fn(Seq<u8>) -> Entry,
    root: Seq<u8>,
    parts: Seq<Seq<u8>>,
    from: nat,
    to: nat,
)
    requires
        from <= to <= parts.len(),
        passable(entries, root, parts, from, to),
        to == parts.len() || entries(path_after(root, parts, to + 1)) == Entry::Missing,
    ensures
        first_link(entries, root, parts, from) is None,
    decreases to - from,
{
    if from < to {
        assert(entries(path_after(root, parts, from + 1)) == Entry::Other);
        assert forall|k: nat| from + 1 < k <= to implies entries(
            #[trigger] path_after(root, parts, k),
        ) == Entry::Other by {}
        no_link_is_found(entries, root, parts, from + 1, to);
    }
}

/// The shortest start of a path with given components is a start of every other one with them.
pub proof fn shortest_start_comes_first(
    path: Seq<u8>,
    prefix: Seq<u8>,
    other: Seq<u8>,
    parts: Seq<Seq<u8>>,
)
    requires
        shortest_with(path, prefix, parts),
        other.is_prefix_of(path),
        path_components(other) == parts,
    ensures
        path_components(prefix) == parts,
        prefix.is_prefix_of(path),
        prefix.is_prefix_of(other),
{
    assert(other =~= path.take(other.len() as int));
    assert(prefix =~= path.take(prefix.len() as int));
    assert(prefix.len() <= other.len());
    assert(prefix =~= other.take(prefix.len() as int));
}

proof fn lemma_start_does_not_matter(path: Seq<u8>)
    requires
        path.len() > 0,
        path[0] != 47,
        path_components(path)[0] != seq![46u8],
    ensures
        relative_components(path, false) == relative_components(path, true),
{
    let end = first_separator(path) as int;
    lemma_separator_found(path);
    let piece = path.take(end);
    assert(piece[0] == path[0]);
    if piece == current_dir() {
        assert(path_components(path)[0] == piece);
    }
}

/// The components of an accepted version file below a root are those of the root and its own, so
/// that it lies where the way along its components ends.
pub proof fn version_file_lies_at_the_end_of_its_way(root: Seq<u8>, path: Seq<u8>)
    requires
        root.len() > 0,
        version_file_fault(path) is None,
    ensures
        path_components(joined(root, path)) == path_components(root) + path_components(path),
        path_components(path_after(root, path_components(path), path_components(path).len()))
            == path_components(joined(root, path)),
{
    let parts = path_components(path);
    let whole = joined(root, path);
    let below = seq![47u8] + path;
    version_file_stays_below_root(root, path);
    assert(normal(parts[0]));
    lemma_start_does_not_matter(path);
    assert(below.skip(1) =~= path);
    assert(path_components(below).skip(1) =~= parts);
    if root.last() == 47 {
        let front = root.drop_last();
        let nothing = Seq::<u8>::empty();
        assert(whole =~= front + seq![47u8] + path);
        assert(root =~= front + seq![47u8] + nothing);
        if front.len() > 0 {
            separators_part_components(front, path);
            separators_part_components(front, nothing);
            assert(seq![47u8] + nothing =~= seq![47u8]);
            pieces_are_components(nothing, nothing);
            assert(path_components(seq![47u8]).skip(1) =~= Seq::<Seq<u8>>::empty());
            assert(path_components(front) + Seq::<Seq<u8>>::empty() =~= path_components(front));
        } else {
            assert(whole =~= below);
            assert(root =~= seq![47u8]);
            pieces_are_components(nothing, nothing);
        }
    } else {
        assert(whole =~= root + seq![47u8] + path);
        separators_part_components(root, path);
    }
    assert forall|i: int| 0 <= i < parts.len() implies entry_name(#[trigger] parts[i]) by {
        assert(normal(parts[i]));
        components_have_no_separators(path, i);
    }
    way_passes_the_components(root, parts, parts.len());
    assert(parts.take(parts.len() as int) =~= parts);
}

} // verus!
