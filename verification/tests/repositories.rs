//! Finding a repository, reading its references and looking through its objects.

use std::collections::HashMap;

use shasha::discovery::{layout_variables, left_to_git, Discovery, DiscoveryStage, DotGitKind};
use shasha::format::format_named;
use shasha::loose::{disambiguate_argument, LooseScan, LooseStage};
use shasha::refs::{
    find_packed, head_reference, subject_or, HeadQuery, RefError, RefResolver, RefStep,
};
use shasha::repository::{discovery_arguments, MissingPart, Repository, RepositoryError};
use shasha::text::chars_of;
use shasha::ObjectFormat;

fn repository(object_format: ObjectFormat) -> Repository {
    Repository {
        root: b"/w".to_vec(),
        git_dir: b"/main/.git/worktrees/w".to_vec(),
        common_dir: b"/main/.git".to_vec(),
        index_path: b"/main/.git/worktrees/w/index".to_vec(),
        objects_dir: b"/main/.git/objects".to_vec(),
        object_format,
    }
}

fn resolve(files: &[(&str, &str)], reference: &str) -> Result<Option<String>, RefError> {
    let files: HashMap<Vec<u8>, &str> =
        files.iter().map(|(path, text)| (path.as_bytes().to_vec(), *text)).collect();
    let mut search = RefResolver::new(&repository(ObjectFormat::Sha1), reference);
    for _ in 0..24 {
        let step = match files.get(&search.path()) {
            Some(text) => search.contents(text)?,
            None => search.missing(),
        };
        if let RefStep::Done { oid } = step {
            return Ok(oid);
        }
    }
    panic!("more files than there can be");
}

#[test]
fn formats_by_name() {
    assert_eq!(format_named(&chars_of("sha1")).unwrap(), ObjectFormat::Sha1);
    assert_eq!(format_named(&chars_of("sha256")).unwrap(), ObjectFormat::Sha256);
    assert_eq!(format_named(&chars_of("SHA1")).unwrap_err().name, "SHA1");
}

#[test]
fn a_description_of_six_lines() {
    let found =
        Repository::discover_with_git("/w\n/w/.git\nsha256\n/w/.git\n/w/.git/index\n/w/o").unwrap();
    assert_eq!(found.root(), b"/w");
    assert_eq!(found.git_dir, b"/w/.git");
    assert_eq!(found.object_format(), ObjectFormat::Sha256);
    assert_eq!(found.common_dir, b"/w/.git");
    assert_eq!(found.index_path, b"/w/.git/index");
    assert_eq!(found.objects_dir, b"/w/o");
    assert_eq!(found.lock_path(), b"/w/.git/index.lock");
}

#[test]
fn a_description_that_is_too_short_or_too_long() {
    let expected = [
        (MissingPart::Root, "Git did not return the working-tree root"),
        (MissingPart::GitDir, "Git did not return its administrative directory"),
        (MissingPart::ObjectFormat, "Git did not return its object format"),
        (MissingPart::CommonDir, "Git did not return its common directory"),
        (MissingPart::IndexPath, "Git did not return its index path"),
        (MissingPart::ObjectsDir, "Git did not return its object directory"),
    ];
    for (count, (missing, text)) in expected.into_iter().enumerate() {
        let error = Repository::discover_with_git(&"x\n".repeat(count)).unwrap_err();
        assert!(matches!(&error, RepositoryError::Incomplete(part) if *part == missing));
        assert_eq!(error.describe(), text);
        assert_eq!(missing.describe(), text);
    }
    let error = Repository::discover_with_git(&"x\n".repeat(7)).unwrap_err();
    assert!(matches!(error, RepositoryError::UnexpectedOutput));
    assert_eq!(error.describe(), "Git returned unexpected repository discovery output");
    let error = Repository::discover_with_git(&"x\n".repeat(6)).unwrap_err();
    assert!(matches!(error, RepositoryError::Format(_)));
    assert_eq!(error.describe(), "unsupported Git object format: x");
}

#[test]
fn git_is_asked_for_the_parts_in_order() {
    assert_eq!(
        discovery_arguments(),
        [
            "rev-parse",
            "--path-format=absolute",
            "--show-toplevel",
            "--absolute-git-dir",
            "--show-object-format",
            "--git-common-dir",
            "--git-path",
            "index",
            "--git-path",
            "objects",
        ]
    );
}

#[test]
fn operations_under_way_are_refused() {
    let repository = repository(ObjectFormat::Sha1);
    let markers = ["MERGE_HEAD", "CHERRY_PICK_HEAD", "REVERT_HEAD", "rebase-merge", "rebase-apply"];
    let paths = repository.operation_paths();
    assert_eq!(paths.len(), 5);
    assert!(repository.ensure_supported_state(&[false; 5]).is_ok());
    for (i, marker) in markers.into_iter().enumerate() {
        assert_eq!(paths[i], format!("/main/.git/worktrees/w/{marker}").into_bytes());
        let mut present = [true; 5];
        present[..i].fill(false);
        let error = repository.ensure_supported_state(&present).unwrap_err();
        assert_eq!(
            error.describe(),
            format!(
                "a Git operation is in progress ({marker}); \
                 finish or abort it before running shasha"
            )
        );
    }
}

#[test]
fn identities_out_of_variables() {
    let repository = repository(ObjectFormat::Sha1);
    let found = repository
        .identities("x=y\nGIT_COMMITTER_IDENT=C\nGIT_AUTHOR_IDENT=A\nGIT_AUTHOR_IDENT=B = b\n")
        .unwrap();
    assert_eq!(found.author, "B = b");
    assert_eq!(found.committer, "C");
    let error = repository.identities("GIT_COMMITTER_IDENT=C").unwrap_err();
    assert_eq!(error.describe(), "Git did not return GIT_AUTHOR_IDENT");
    let error = repository.identities("GIT_AUTHOR_IDENT=\n GIT_COMMITTER_IDENT=C").unwrap_err();
    assert_eq!(error.describe(), "Git did not return GIT_COMMITTER_IDENT");
}

#[test]
fn variables_that_leave_the_search_to_git() {
    assert_eq!(
        layout_variables(),
        [
            "GIT_DIR",
            "GIT_WORK_TREE",
            "GIT_COMMON_DIR",
            "GIT_INDEX_FILE",
            "GIT_OBJECT_DIRECTORY",
            "GIT_CEILING_DIRECTORIES",
        ]
    );
}

#[test]
fn any_variable_leaves_the_search_to_git() {
    assert!(!left_to_git(&[]));
    assert!(!left_to_git(&[false; 6]));
    for i in 0..6 {
        let mut set = [false; 6];
        set[i] = true;
        assert!(left_to_git(&set));
    }
}

#[test]
fn the_nearest_root_with_a_git_directory_is_found() {
    let mut search = Discovery::new(b"/w/a");
    assert_eq!(search.path(), b"/w/a/.git");
    search.dot_git(DotGitKind::Neither);
    assert_eq!(search.path(), b"/w/.git");
    search.dot_git(DotGitKind::Directory);
    assert_eq!(search.stage(), DiscoveryStage::GitDir);
    assert_eq!(search.path(), b"/w/.git");
    search.git_dir_resolved(b"/real/.git".to_vec());
    assert_eq!(search.path(), b"/real/.git/commondir");
    search.common_file(None);
    assert_eq!(search.path(), b"/real/.git/config");
    let found = search.config("").unwrap();
    assert_eq!(found.root, b"/w");
    assert_eq!(found.git_dir, b"/real/.git");
    assert_eq!(found.common_dir, b"/real/.git");
    assert_eq!(found.index_path, b"/real/.git/index");
    assert_eq!(found.objects_dir, b"/real/.git/objects");
    assert_eq!(found.object_format, ObjectFormat::Sha1);
}

#[test]
fn a_linked_worktree_is_found() {
    let mut search = Discovery::new(b"/w");
    search.dot_git(DotGitKind::File);
    assert_eq!(search.path(), b"/w/.git");
    search.git_file("gitdir: ../main/.git/worktrees/w\n").unwrap();
    assert_eq!(search.path(), b"/w/../main/.git/worktrees/w");
    search.git_dir_resolved(b"/main/.git/worktrees/w".to_vec());
    search.common_file(Some("../..\n"));
    assert_eq!(search.stage(), DiscoveryStage::CommonDir);
    assert_eq!(search.path(), b"/main/.git/worktrees/w/../..");
    search.common_dir_resolved(b"/main/.git".to_vec());
    let found = search.config("[extensions]\nobjectformat = sha256\n").unwrap();
    assert_eq!(found.git_dir, b"/main/.git/worktrees/w");
    assert_eq!(found.index_path, b"/main/.git/worktrees/w/index");
    assert_eq!(found.common_dir, b"/main/.git");
    assert_eq!(found.objects_dir, b"/main/.git/objects");
    assert_eq!(found.object_format, ObjectFormat::Sha256);
    let error = search.config("[extensions]\nobjectformat = md5\n").unwrap_err();
    assert!(matches!(error, RepositoryError::Format(format) if format.name == "md5"));
}

#[test]
fn absolute_targets_stay_as_they_are() {
    let mut search = Discovery::new(b"/w");
    search.dot_git(DotGitKind::File);
    search.git_file(" gitdir: /elsewhere ").unwrap();
    assert_eq!(search.path(), b"/elsewhere");
}

#[test]
fn a_git_file_needs_a_target() {
    let mut search = Discovery::new(b"/w");
    search.dot_git(DotGitKind::File);
    let error = search.git_file("/elsewhere\n").unwrap_err();
    assert!(matches!(error, RepositoryError::NoGitdirTarget));
    assert_eq!(error.describe(), "the .git file does not contain a gitdir target");
}

#[test]
fn without_a_git_entry_nothing_is_found() {
    let mut search = Discovery::new(b"/");
    search.dot_git(DotGitKind::Neither);
    assert_eq!(search.stage(), DiscoveryStage::NotFound);
}

#[test]
fn where_head_is() {
    let repository = repository(ObjectFormat::Sha1);
    assert!(matches!(
        repository.head("ref: refs/heads/main\n", false, false).unwrap(),
        HeadQuery::FollowFiles { reference } if reference == "refs/heads/main"
    ));
    assert_eq!(repository.head_path(), b"/main/.git/worktrees/w/HEAD");
    assert_eq!(repository.reftable_path(), b"/main/.git/reftable");
    for (namespaced, reftable) in [(true, false), (false, true), (true, true)] {
        assert!(matches!(
            repository.head("ref: refs/heads/main\n", namespaced, reftable).unwrap(),
            HeadQuery::AskGit { reference } if reference == "refs/heads/main"
        ));
    }
    let oid = "ABCDEF0123".repeat(4);
    match repository.head(&format!("{oid}\n"), true, true).unwrap() {
        HeadQuery::Resolved { head } => {
            assert_eq!(head.reference, "HEAD");
            assert_eq!(head.oid, Some(oid.to_lowercase()));
        }
        other => panic!("unexpected {other:?}"),
    }
    for contents in ["", "ref:x", "abc", &"g".repeat(40), &"a".repeat(64)] {
        let error = repository.head(contents, false, false).unwrap_err();
        assert!(matches!(error, RefError::InvalidHead));
        assert_eq!(error.describe(""), "Git HEAD contains an invalid target");
    }
}

#[test]
fn the_reference_that_head_names() {
    assert_eq!(head_reference("ref: refs/heads/main\n"), "refs/heads/main");
    assert_eq!(head_reference(&"a".repeat(40)), "HEAD");
    assert_eq!(head_reference(""), "HEAD");
}

#[test]
fn the_commit_that_git_prints() {
    let repository = repository(ObjectFormat::Sha1);
    assert_eq!(repository.git_head_oid(true, b"abc\n").unwrap(), Some("abc".to_owned()));
    assert_eq!(repository.git_head_oid(false, b"\xff").unwrap(), None);
    assert!(repository.git_head_oid(true, b"\xff").is_err());
}

#[test]
fn object_ids_are_checked() {
    let sha1 = repository(ObjectFormat::Sha1);
    let sha256 = repository(ObjectFormat::Sha256);
    assert_eq!(sha1.validate_oid(&"Aa".repeat(20), b"f").unwrap(), "a".repeat(40));
    assert_eq!(sha256.validate_oid(&"0F".repeat(32), b"f").unwrap(), "0f".repeat(32));
    for oid in ["", "a", &"a".repeat(64), &"\u{e9}".repeat(20)] {
        let error = sha1.validate_oid(oid, b"/f").unwrap_err();
        assert!(matches!(&error, RefError::InvalidOid { source } if source == b"/f"));
        assert_eq!(error.describe("/f"), "invalid object ID in /f");
    }
}

#[test]
fn references_are_followed_through_files() {
    let a = "a".repeat(40);
    let b = "B".repeat(40);
    let packed = format!("# pack-refs\n{b} refs/heads/main\n^{a}\n{a} refs/heads/main\n");
    let own = ("/main/.git/worktrees/w/refs/heads/main", a.as_str());
    let common = ("/main/.git/refs/heads/main", b.as_str());
    let packed = ("/main/.git/packed-refs", packed.as_str());
    let main = "refs/heads/main";
    assert_eq!(resolve(&[own, common, packed], main).unwrap(), Some(a.clone()));
    assert_eq!(resolve(&[common, packed], main).unwrap(), Some("b".repeat(40)));
    assert_eq!(resolve(&[packed], main).unwrap(), Some("b".repeat(40)));
    assert_eq!(resolve(&[packed], "refs/heads/other").unwrap(), None);
    assert_eq!(resolve(&[], main).unwrap(), None);
    let link = ("/main/.git/refs/heads/link", "ref: refs/heads/main\n");
    assert_eq!(resolve(&[link, own], "refs/heads/link").unwrap(), Some(a));
}

#[test]
fn bad_references_are_refused() {
    let error = resolve(&[("/main/.git/refs/x", "nonsense")], "refs/x").unwrap_err();
    assert!(matches!(error, RefError::InvalidOid { source } if source == b"/main/.git/refs/x"));
    let error = resolve(&[("/main/.git/packed-refs", "abc refs/x\n")], "refs/x").unwrap_err();
    let packed = b"/main/.git/packed-refs";
    assert!(matches!(error, RefError::InvalidOid { source } if source == packed));
    let error = resolve(&[("/main/.git/refs/x", "ref: refs/x")], "refs/x").unwrap_err();
    assert!(matches!(error, RefError::TooDeep));
    assert_eq!(error.describe(""), "Git reference chain is too deep");
}

#[test]
fn chains_of_references_have_a_limit() {
    let oid = "c".repeat(40);
    for links in 1..10 {
        let mut files: Vec<(String, String)> = (0..links - 1)
            .map(|i| (format!("/main/.git/refs/{i}"), format!("ref: refs/{}", i + 1)))
            .collect();
        files.push((format!("/main/.git/refs/{}", links - 1), oid.clone()));
        let files: Vec<(&str, &str)> =
            files.iter().map(|(path, text)| (path.as_str(), text.as_str())).collect();
        let found = resolve(&files, "refs/0");
        if links <= 8 {
            assert_eq!(found.unwrap(), Some(oid.clone()));
        } else {
            assert!(matches!(found, Err(RefError::TooDeep)));
        }
    }
}

#[test]
fn packed_references_by_name() {
    let packed = "# x refs/a\n1 refs/b\n^2 refs/a\nline\n3 refs/a\n4 refs/a\n5 refs/c d\n";
    let find =
        |name: &str| find_packed(packed, name).map(|oid| oid.into_iter().collect::<String>());
    assert_eq!(find("refs/a"), Some("3".to_owned()));
    assert_eq!(find("refs/b"), Some("1".to_owned()));
    assert_eq!(find("refs/c d"), Some("5".to_owned()));
    assert_eq!(find("refs/c"), None);
}

#[test]
fn updates_guard_against_a_moved_reference() {
    let sha256 = repository(ObjectFormat::Sha256);
    let update = sha256.update_reference("refs/heads/main", "new", None, "\n");
    assert_eq!(update.reference, "refs/heads/main");
    assert_eq!(update.new_oid, "new");
    assert_eq!(update.expected_oid, "0".repeat(64));
    assert_eq!(update.reflog, "commit: ");
    let update = sha256.update_reference("HEAD", "new", Some("old"), "One\r\nTwo");
    assert_eq!(update.expected_oid, "old");
    assert_eq!(update.reflog, "commit: One");
    assert_eq!(
        update.arguments(),
        ["update-ref", "-m", "commit: One", "HEAD", "new", "old"]
    );
    assert_eq!(sha256.update_reference("HEAD", "n", None, "").reflog, "commit: shasha commit");
    assert_eq!(subject_or("", "none"), "none");
    assert_eq!(subject_or("one\ntwo", "none"), "one");
}

#[test]
fn loose_objects_are_found_by_prefix() {
    let repository = repository(ObjectFormat::Sha1);
    let rest = "c".repeat(35);
    let mut scan = LooseScan::new(&repository, "abcde", false, false);
    assert_eq!(scan.path().unwrap(), b"/main/.git/objects/pack");
    assert!(scan.name("pack-1.keep"));
    scan.directory_end();
    assert_eq!(scan.path().unwrap(), b"/main/.git/objects/ab");
    assert!(scan.name("tmp_obj"));
    assert!(scan.name(&format!("cd{rest}f")));
    assert!(scan.name(&format!("cde{}", "g".repeat(35))));
    assert!(scan.name(&format!("cde{rest}0")));
    assert!(!scan.name(&format!("cde{rest}")));
    assert_eq!(scan.stage(), LooseStage::Decided(Some(true)));
    assert!(scan.path().is_none());
}

#[test]
fn a_scan_without_a_match_says_so() {
    let repository = repository(ObjectFormat::Sha256);
    let mut scan = LooseScan::new(&repository, "abcd", false, false);
    scan.directory_end();
    assert!(scan.name(&"cd".repeat(19)));
    scan.directory_end();
    assert_eq!(scan.stage(), LooseStage::Decided(Some(false)));
    scan.directory_end();
    assert_eq!(scan.stage(), LooseStage::Decided(Some(false)));
}

#[test]
fn packs_and_alternates_leave_the_answer_to_git() {
    let repository = repository(ObjectFormat::Sha1);
    for name in ["pack-1.idx", ".idx", "multi-pack-index"] {
        let mut scan = LooseScan::new(&repository, "abcd", false, false);
        assert!(!scan.name(name));
        assert_eq!(scan.stage(), LooseStage::Decided(None));
        assert!(scan.path().is_none());
    }
    for (set, listed) in [(true, false), (false, true), (true, true)] {
        let scan = LooseScan::new(&repository, "abcd", set, listed);
        assert_eq!(scan.stage(), LooseStage::Decided(None));
    }
    assert_eq!(repository.alternates_path(), b"/main/.git/objects/info/alternates");
    assert_eq!(disambiguate_argument("abcd"), "--disambiguate=abcd");
    assert!(repository.object_prefix_exists(true, b"abcd1\n").unwrap());
    assert!(!repository.object_prefix_exists(true, b" \n").unwrap());
    assert!(!repository.object_prefix_exists(false, b"abcd1\n").unwrap());
    assert!(!repository.object_prefix_exists(false, b"\xff").unwrap());
    assert!(repository.object_prefix_exists(true, b"\xff").is_err());
}
