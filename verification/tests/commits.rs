//! Options, commit objects and the way of a commit to its reference.

use std::io::Read;
use std::time::Duration;

use shasha::commit::{
    commit_body_prefix, decimal_digits, finish_commit_body, object_prefix, write_commit_object,
};
use shasha::flow::{CommitError, Draft, Finished, Unmined};
use shasha::hash::digest;
use shasha::hex::hex_encode;
use shasha::loose::{loose_place, write_loose_object};
use shasha::miner::{mine, MineOutcome};
use shasha::options::{validate_options, OptionsError};
use shasha::path::{describe_link, validate_version_file, Entry, VersionFileError};
use shasha::preparation::{Preparation, PreparationStage, PreparationStep};
use shasha::refs::Head;
use shasha::repository::{Identities, Repository};
use shasha::target::target_text;
use shasha::{CommitOptions, ObjectFormat};

fn repository(object_format: ObjectFormat) -> Repository {
    Repository {
        root: b"/work".to_vec(),
        git_dir: b"/work/.git".to_vec(),
        common_dir: b"/work/.git".to_vec(),
        index_path: b"/work/.git/index".to_vec(),
        objects_dir: b"/work/.git/objects".to_vec(),
        object_format,
    }
}

fn options(prefix_len: u8) -> CommitOptions {
    CommitOptions {
        message: "Subject\n\nBody\n\n".to_owned(),
        version_file: b".shasha".to_vec(),
        prefix_len,
        threads: 2,
    }
}

fn draft(format: ObjectFormat, oid: Option<&str>, target: u32) -> Draft {
    let (repository, options) = (repository(format), options(2));
    let mut checks = Preparation::new(&repository, &options);
    checks.operations(&[false; 5]).unwrap();
    assert!(matches!(checks.next_step(), PreparationStep::Inspect { .. }));
    checks.entry(Entry::Missing).unwrap();
    assert!(matches!(checks.next_step(), PreparationStep::Write { .. }));
    let head = Head { reference: "refs/heads/main".to_owned(), oid: oid.map(str::to_owned) };
    Draft::new(&checks, head, target, target_text(target, 2))
}

fn body_of(commit: &Finished) -> String {
    String::from_utf8(commit.commit_body().to_vec()).unwrap()
}

fn unmined(format: ObjectFormat, oid: Option<&str>, target: u32) -> Unmined {
    let draft = draft(format, oid, target);
    let identities = Identities {
        author: "A <a@example.com> 1 +0000".to_owned(),
        committer: "C <c@example.com> 2 +0000".to_owned(),
    };
    draft.with_tree("1234", &identities).unwrap()
}

fn inflated(stream: &[u8]) -> Vec<u8> {
    let mut bytes = Vec::new();
    flate2::read::ZlibDecoder::new(stream).read_to_end(&mut bytes).unwrap();
    bytes
}

#[test]
fn commit_body_has_nonce_at_the_end() {
    let prefix = commit_body_prefix(
        "tree-id",
        Some("parent-id"),
        "A <a@example.com> 1 +0000",
        "C <c@example.com> 2 +0000",
        "subject",
    );
    let body = finish_commit_body(prefix, 0x2a);
    let text = String::from_utf8(body).unwrap();
    assert!(text.contains("parent parent-id\n"));
    assert!(text.ends_with("Shasha-Nonce: 000000000000002a\n"));
}

#[test]
fn rejects_paths_outside_the_repository() {
    assert!(validate_version_file(b"../.shasha").is_err());
    assert!(validate_version_file(b"/.shasha").is_err());
    assert!(validate_version_file(b".git/shasha").is_err());
    assert!(validate_version_file(b"metadata/.shasha").is_ok());
}

#[test]
fn each_fault_of_a_version_file_is_told() {
    for path in ["", "/", "/a"] {
        assert_eq!(
            validate_version_file(path.as_bytes()).unwrap_err(),
            VersionFileError::NotRelative
        );
    }
    for path in [".", "./a", "..", "a/..", "a/../b"] {
        assert_eq!(
            validate_version_file(path.as_bytes()).unwrap_err(),
            VersionFileError::NotNormal
        );
    }
    for path in [".git", ".git/", ".git/x", ".git//x"] {
        assert_eq!(
            validate_version_file(path.as_bytes()).unwrap_err(),
            VersionFileError::InsideGit
        );
    }
    for path in ["a/./b", "a//b", "a/", "a/.git", ".gitignore", "...", "\u{fc}/x"] {
        assert!(validate_version_file(path.as_bytes()).is_ok());
    }
    assert_eq!(
        VersionFileError::NotRelative.describe(),
        "the version file must be a non-empty repository-relative path"
    );
    assert_eq!(
        VersionFileError::NotNormal.describe(),
        "the version file must not contain '.', '..', or a path root"
    );
    assert_eq!(
        VersionFileError::InsideGit.describe(),
        "the version file cannot be inside .git"
    );
}

#[test]
fn each_fault_of_the_options_is_told() {
    assert!(validate_options(&options(1)).is_ok());
    assert!(validate_options(&options(8)).is_ok());
    let fault = |change: fn(&mut CommitOptions)| {
        let mut changed = options(5).clone();
        change(&mut changed);
        validate_options(&changed).unwrap_err()
    };
    assert_eq!(fault(|o| o.message = " \n\u{3000}".to_owned()), OptionsError::EmptyMessage);
    assert_eq!(fault(|o| o.message = "a\0b".to_owned()), OptionsError::NulInMessage);
    assert_eq!(fault(|o| o.prefix_len = 0), OptionsError::PrefixLength);
    assert_eq!(fault(|o| o.prefix_len = 9), OptionsError::PrefixLength);
    assert_eq!(fault(|o| o.threads = 0), OptionsError::ThreadCount);
    assert_eq!(
        fault(|o| o.version_file = b"/x".to_vec()),
        OptionsError::VersionFile(VersionFileError::NotRelative)
    );
    assert_eq!(
        fault(|o| {
            o.threads = 0;
            o.prefix_len = 0;
        }),
        OptionsError::PrefixLength
    );
    assert_eq!(OptionsError::EmptyMessage.describe(), "the commit message cannot be empty");
    assert_eq!(
        OptionsError::NulInMessage.describe(),
        "the commit message cannot contain a NUL byte"
    );
    assert_eq!(
        OptionsError::PrefixLength.describe(),
        "the prefix length must be between 1 and 8 hexadecimal characters"
    );
    assert_eq!(OptionsError::ThreadCount.describe(), "the thread count must be at least 1");
    assert_eq!(
        OptionsError::VersionFile(VersionFileError::InsideGit).describe(),
        "the version file cannot be inside .git"
    );
}

#[test]
fn default_options() {
    let known = CommitOptions::with_parallelism(Some(12));
    assert_eq!(known.message, "");
    assert_eq!(known.version_file, b".shasha");
    assert_eq!(known.prefix_len, 5);
    assert_eq!(known.threads, 12);
    assert_eq!(CommitOptions::with_parallelism(None).threads, 1);
}

#[test]
fn whole_body_of_a_first_commit() {
    let prefix = commit_body_prefix("t", None, "a", "c", "One\r\n\n\n");
    assert_eq!(
        String::from_utf8(prefix).unwrap(),
        "tree t\nauthor a\ncommitter c\n\nOne\r\n\nShasha-Nonce: "
    );
}

#[test]
fn lengths_are_written_in_decimal() {
    for value in [0, 9, 10, 99, 100, 1_234_567, usize::MAX] {
        assert_eq!(decimal_digits(value), value.to_string().into_bytes());
    }
}

#[test]
fn what_is_mined_is_what_is_stored() {
    for len in [0, 1, 80, 82, 83, 982, 983] {
        let body_prefix = vec![b'b'; len];
        let mut mined = object_prefix(&body_prefix);
        mined.extend_from_slice(b"00000000000000ff\n");
        let body = finish_commit_body(body_prefix, 0xff);
        let mut stored = format!("commit {}\0", body.len()).into_bytes();
        stored.extend_from_slice(&body);
        assert_eq!(mined, stored);
        let oid = hex_encode(&digest(ObjectFormat::Sha256, &stored));
        assert_eq!(write_commit_object(ObjectFormat::Sha256, &body, &oid).unwrap(), stored);
    }
}

#[test]
fn nonces_make_bodies_of_one_length() {
    let first = finish_commit_body(b"x".to_vec(), 1);
    let second = finish_commit_body(b"x".to_vec(), u64::MAX);
    assert_ne!(first, second);
    assert_eq!(first.len(), 18);
    assert_eq!(second.len(), 18);
}

#[test]
fn a_wrong_id_is_not_written() {
    let error = write_commit_object(ObjectFormat::Sha1, b"", "0000").unwrap_err();
    let computed = hex_encode(&digest(ObjectFormat::Sha1, b"commit 0\0"));
    assert_eq!(error.computed, computed);
    assert_eq!(error.expected, "0000");
    assert_eq!(
        error.describe(),
        format!("the object writer computed {computed}, but the miner computed 0000")
    );
}

#[test]
fn loose_objects_decompress_to_the_object() {
    for object in [Vec::new(), b"commit 1\0x".to_vec(), vec![7; 100_000]] {
        let loose =
            write_loose_object(&repository(ObjectFormat::Sha1), &object, "abcdef").unwrap();
        assert_eq!(loose.place.directory, b"/work/.git/objects/ab");
        assert_eq!(loose.place.destination, b"/work/.git/objects/ab/cdef");
        assert_eq!(loose.contents().unwrap(), object);
        assert_ne!(loose.stream, object);
        assert_eq!(inflated(&loose.stream), object);
    }
}

#[test]
fn what_is_no_stream_has_no_contents() {
    let repository = repository(ObjectFormat::Sha1);
    let mut loose = write_loose_object(&repository, b"commit 1\0x", "abcdef").unwrap();
    loose.stream.truncate(5);
    assert!(loose.contents().is_none());
    loose.stream = b"commit 1\0x".to_vec();
    assert!(loose.contents().is_none());
}

#[test]
fn places_are_parted_behind_two_bytes() {
    let place = loose_place(&repository(ObjectFormat::Sha1), "\u{e9}f0");
    assert_eq!(place.directory, "/work/.git/objects/\u{e9}".as_bytes());
    assert_eq!(place.destination, "/work/.git/objects/\u{e9}/f0".as_bytes());
    let short = loose_place(&repository(ObjectFormat::Sha1), "ab");
    assert_eq!(short.destination, b"/work/.git/objects/ab/");
}

#[test]
fn a_commit_is_published_under_its_own_prefix() {
    for format in [ObjectFormat::Sha1, ObjectFormat::Sha256] {
        let old = "f".repeat(format.oid_hex_len());
        assert_eq!(draft(format, Some(&old), 0x0e).version_text(), "0e\n");
        let commit = unmined(format, Some(&old), 0x0e);
        let mined = mine(commit.request()).unwrap();
        let (oid, nonce, attempts) = (mined.oid.clone(), mined.nonce, mined.attempts);
        let finished = commit.with_nonce(mined, "refs/heads/main").unwrap();
        let text = body_of(&finished);
        assert_eq!(
            text,
            format!(
                "tree 1234\nparent {old}\nauthor A <a@example.com> 1 +0000\n\
                 committer C <c@example.com> 2 +0000\n\nSubject\n\nBody\n\n\
                 Shasha-Nonce: {nonce:016x}\n"
            )
        );
        assert_eq!(finished.mined_oid(), oid);
        let repository = repository(format);
        let loose = finished.loose_object(&repository).unwrap();
        assert_eq!(loose.place.destination, finished.loose_place(&repository).destination);
        let object = inflated(&loose.stream);
        assert_eq!(object, format!("commit {}\0{text}", text.len()).into_bytes());
        assert_eq!(hex_encode(&digest(format, &object)), oid);
        let publication = finished.stored(&repository, &oid).unwrap();
        assert!(publication.outcome.oid.starts_with("0e"));
        assert_eq!(publication.outcome.oid, oid);
        assert_eq!(publication.outcome.prefix, "0e");
        assert_eq!(publication.outcome.nonce, nonce);
        assert_eq!(publication.outcome.attempts, attempts);
        assert_eq!(publication.outcome.reference, "refs/heads/main");
        assert_eq!(publication.outcome.clone().version_file, b".shasha");
        assert_eq!(publication.update.reference, "refs/heads/main");
        assert_eq!(publication.update.new_oid, oid);
        assert_eq!(publication.update.expected_oid, old);
        assert_eq!(publication.update.reflog, "commit: Subject");
    }
}

#[test]
fn a_first_commit_expects_no_reference() {
    let commit = unmined(ObjectFormat::Sha1, None, 0xaa);
    let mined = mine(commit.request()).unwrap();
    let oid = mined.oid.clone();
    let finished = commit.with_nonce(mined, "refs/heads/main").unwrap();
    let publication = finished.stored(&repository(ObjectFormat::Sha1), &oid).unwrap();
    assert_eq!(publication.update.expected_oid, "0".repeat(40));
}

#[test]
fn a_moved_head_stops_the_commit() {
    let commit = unmined(ObjectFormat::Sha1, None, 0);
    let mined = MineOutcome {
        nonce: 0,
        oid: String::new(),
        attempts: 1,
        elapsed: Duration::ZERO,
    };
    let error = commit.with_nonce(mined, "refs/heads/other").unwrap_err();
    assert!(matches!(error, CommitError::HeadChanged));
    assert_eq!(error.describe("v"), "HEAD changed while mining; no commit was published");
}

#[test]
fn a_wrong_digest_stops_the_commit() {
    let commit = unmined(ObjectFormat::Sha1, None, 0);
    let mined = MineOutcome {
        nonce: 0,
        oid: "00ff".to_owned(),
        attempts: 1,
        elapsed: Duration::ZERO,
    };
    let error = commit.with_nonce(mined, "refs/heads/main").unwrap_err();
    assert!(matches!(&error, CommitError::Writer(mismatch) if mismatch.expected == "00ff"));
    assert!(error.describe("v").ends_with(", but the miner computed 00ff"));
}

#[test]
fn another_stored_id_stops_the_commit() {
    let commit = unmined(ObjectFormat::Sha1, None, 0x11);
    let mined = mine(commit.request()).unwrap();
    let oid = mined.oid.clone();
    let finished = commit.with_nonce(mined, "refs/heads/main").unwrap();
    let error = finished.stored(&repository(ObjectFormat::Sha1), "beef").unwrap_err();
    assert!(matches!(error, CommitError::StoredDiffers { .. }));
    assert_eq!(
        error.describe("v"),
        format!("Git computed beef, but the miner computed {oid}; refusing to move HEAD")
    );
}

#[test]
fn an_id_without_the_prefix_stops_the_commit() {
    let commit = unmined(ObjectFormat::Sha1, None, 0x11);
    let mut object = commit.request().object_prefix.to_vec();
    object.extend_from_slice(b"0000000000000000\n");
    let oid = hex_encode(&digest(ObjectFormat::Sha1, &object));
    assert!(!oid.starts_with("11"));
    let mined = MineOutcome {
        nonce: 0,
        oid: oid.clone(),
        attempts: 1,
        elapsed: Duration::ZERO,
    };
    let finished = commit.with_nonce(mined, "refs/heads/main").unwrap();
    let error = finished.stored(&repository(ObjectFormat::Sha1), &oid).unwrap_err();
    assert!(matches!(error, CommitError::PrefixDiffers { .. }));
    assert_eq!(
        error.describe("dir/file"),
        format!("the stored commit {oid} does not start with the value written to dir/file")
    );
}

#[test]
fn the_next_commit_has_the_last_as_its_parent() {
    let first = unmined(ObjectFormat::Sha1, None, 0x21);
    let mined = mine(first.request()).unwrap();
    let first = first.with_nonce(mined, "refs/heads/main").unwrap();
    assert!(!body_of(&first).contains("parent "));
    let second = unmined(ObjectFormat::Sha1, Some(first.mined_oid()), 0x22);
    let mined = mine(second.request()).unwrap();
    let second = second.with_nonce(mined, "refs/heads/main").unwrap();
    let body = body_of(&second);
    let header = body.split("\n\n").next().unwrap();
    let parents: Vec<&str> =
        header.lines().filter_map(|line| line.strip_prefix("parent ")).collect();
    assert_eq!(parents, [first.mined_oid()]);
    assert!(second.mined_oid().starts_with("22"));
    let repository = repository(ObjectFormat::Sha1);
    let (first_oid, second_oid) = (first.mined_oid().to_owned(), second.mined_oid().to_owned());
    let first = first.stored(&repository, &first_oid).unwrap();
    let second = second.stored(&repository, &second_oid).unwrap();
    assert_eq!(first.update.new_oid, first_oid);
    assert_eq!(second.update.expected_oid, first_oid);
    assert_eq!(second.update.new_oid, second_oid);
}

#[test]
fn a_write_is_asked_for_behind_both_checks() {
    let (repository, mut options) = (repository(ObjectFormat::Sha1), options(2));
    options.version_file = b"a/b".to_vec();
    let mut checks = Preparation::new(&repository, &options);
    assert_eq!(checks.stage(), PreparationStage::Operations);
    assert_eq!(checks.operation_paths(), repository.operation_paths());
    checks.operations(&[false; 5]).unwrap();
    for expected in ["/work/a", "/work/a/b"] {
        match checks.next_step() {
            PreparationStep::Inspect { path } => assert_eq!(path, expected.as_bytes()),
            other => panic!("unexpected {other:?}"),
        }
        assert_eq!(checks.stage(), PreparationStage::Entry);
        checks.entry(Entry::Other).unwrap();
    }
    match checks.next_step() {
        PreparationStep::Write { path } => assert_eq!(path, b"/work/a/b"),
        other => panic!("unexpected {other:?}"),
    }
    assert_eq!(checks.stage(), PreparationStage::Clear);
}

#[test]
fn an_operation_under_way_is_refused() {
    let (repository, options) = (repository(ObjectFormat::Sha1), options(2));
    let mut checks = Preparation::new(&repository, &options);
    let error = checks.operations(&[true, false, false, false, true]).unwrap_err();
    assert!(error.describe().contains("MERGE_HEAD"));
    assert_eq!(checks.stage(), PreparationStage::Refused);
}

#[test]
fn a_symbolic_link_is_refused() {
    let (repository, options) = (repository(ObjectFormat::Sha1), options(2));
    let mut checks = Preparation::new(&repository, &options);
    checks.operations(&[false; 5]).unwrap();
    assert!(matches!(checks.next_step(), PreparationStep::Inspect { .. }));
    assert_eq!(checks.entry(Entry::SymbolicLink).unwrap_err(), b"/work/.shasha");
    assert_eq!(checks.stage(), PreparationStage::Refused);
    assert_eq!(
        describe_link("/work/.shasha"),
        "the version file path contains a symbolic link: /work/.shasha"
    );
}
