//! Text, paths, configuration, targets and the report.

use sha2::Digest;
use shasha::config::read_object_format;
use shasha::git::{ensure_success, trim_stdout, trimmed_text, GitError};
use shasha::path::{ancestors, components, is_absolute, join, Entry, SymlinkWalk};
use shasha::report::{
    closing_line, describe_missing, headline, join_paragraphs, message_source, MessageSource,
};
use shasha::target::{
    be_bytes, derive_target, target_of_digest, target_seed, target_text, Selection, TargetSearch,
};
use shasha::text::{
    chars_of, find, first_word, is_all_hex, is_white_space, lines, lower, split_once, starts_with,
    strip_prefix, text_of, trim, trim_end, trim_start, Pattern,
};
use shasha::ObjectFormat;

const SAMPLES: [&str; 14] = [
    "",
    " ",
    "\n",
    "\r\n",
    "a",
    "  a b  ",
    "a\nb",
    "a\r\nb\r\n",
    "a\r",
    "\n\na\n\n",
    "\u{2003}x\u{a0}",
    "\"quoted\"",
    "\u{e9}t\u{e9} = AB\tcd",
    "x\r\r\ny",
];

#[test]
fn target_has_requested_width() {
    let target = derive_target(b"seed", 0, 5);
    assert!(target < 16_u32.pow(5));
}

#[test]
fn white_space_is_that_of_unicode() {
    for code in 0..=0x10_ffff_u32 {
        if let Some(c) = char::from_u32(code) {
            assert_eq!(is_white_space(c), c.is_whitespace());
        }
    }
}

#[test]
fn trimming_agrees_with_strings() {
    for sample in SAMPLES {
        let chars = chars_of(sample);
        assert_eq!(text_of(&chars), sample);
        assert_eq!(text_of(trim(&chars, Pattern::WhiteSpace)), sample.trim());
        assert_eq!(text_of(trim_start(&chars, Pattern::WhiteSpace)), sample.trim_start());
        assert_eq!(text_of(trim_end(&chars, Pattern::Char('\n'))), sample.trim_end_matches('\n'));
        assert_eq!(text_of(trim(&chars, Pattern::Char('"'))), sample.trim_matches('"'));
        assert_eq!(trimmed_text(sample), sample.trim());
    }
}

#[test]
fn splitting_agrees_with_strings() {
    for sample in SAMPLES {
        let chars = chars_of(sample);
        let split: Vec<String> = lines(&chars).iter().map(|line| text_of(line)).collect();
        let expected: Vec<&str> = sample.lines().collect();
        assert_eq!(split, expected);
        for pattern in ['=', ' ', 'a'] {
            let parts = split_once(&chars, Pattern::Char(pattern))
                .map(|(before, behind)| (text_of(before), text_of(behind)));
            let expected = sample
                .split_once(pattern)
                .map(|(before, behind)| (before.to_owned(), behind.to_owned()));
            assert_eq!(parts, expected);
        }
        assert_eq!(
            text_of(first_word(&chars)),
            sample.split_whitespace().next().unwrap_or_default()
        );
        assert_eq!(text_of(&lower(&chars)), sample.to_ascii_lowercase());
    }
}

#[test]
fn searching_in_texts() {
    assert_eq!(find(&chars_of("a b"), Pattern::WhiteSpace), 1);
    assert_eq!(find(&chars_of("ab"), Pattern::WhiteSpace), 2);
    assert!(starts_with(&chars_of("abc"), &chars_of("ab")));
    assert!(!starts_with(&chars_of("abc"), &chars_of("b")));
    assert!(!starts_with(&chars_of("a"), &chars_of("ab")));
    assert_eq!(strip_prefix(&chars_of("ref: x"), "ref: ").map(text_of), Some("x".to_owned()));
    assert!(strip_prefix(&chars_of("ref:x"), "ref: ").is_none());
    assert!(is_all_hex(&chars_of("09afAF")));
    assert!(!is_all_hex(&chars_of("0g")));
    assert!(is_all_hex(&[]));
}

#[test]
fn components_agree_with_paths() {
    for path in [
        "", "/", "a", "a/b", "/a/b/", "./a", "a/./b", "a//b", "../a", "a/..", ".", "//a", "a/.",
        ".git/x", "...",
    ] {
        let found: Vec<String> = components(path.as_bytes())
            .into_iter()
            .map(|part| String::from_utf8(part).unwrap())
            .collect();
        let expected: Vec<&str> = std::path::Path::new(path)
            .components()
            .map(|part| part.as_os_str().to_str().unwrap())
            .collect();
        assert_eq!(found, expected);
        assert_eq!(is_absolute(path.as_bytes()), std::path::Path::new(path).is_absolute());
    }
}

#[test]
fn ancestors_agree_with_paths() {
    for path in [
        "", "/", "a", "a/b", "/a/b/c", "/a/b/", "./a", "a/./b", "a//b/.", "../a/..", ".", "..",
        "//a", "///", "/.", "/./a/.", "./.", "./..", "a/.b/..c",
    ] {
        let found: Vec<String> = ancestors(path.as_bytes())
            .into_iter()
            .map(|part| String::from_utf8(part).unwrap())
            .collect();
        let expected: Vec<&str> = std::path::Path::new(path)
            .ancestors()
            .map(|part| part.to_str().unwrap())
            .collect();
        assert_eq!(found, expected);
    }
}

#[test]
fn joining_agrees_with_paths() {
    for base in ["", "/", "a", "a/", "/a/b"] {
        for path in ["", "x", "/x", "x/y", "../x"] {
            let expected = std::path::Path::new(base).join(path);
            assert_eq!(
                join(base.as_bytes(), path.as_bytes()),
                expected.to_str().unwrap().as_bytes()
            );
        }
    }
}

#[test]
fn a_walk_refuses_the_first_symbolic_link() {
    let mut walk = SymlinkWalk::new(b"/r", b"a/b/c");
    assert_eq!(walk.next_path().unwrap(), b"/r/a");
    assert!(walk.report(Entry::Other).is_ok());
    assert_eq!(walk.next_path().unwrap(), b"/r/a/b");
    assert_eq!(walk.report(Entry::SymbolicLink).unwrap_err(), b"/r/a/b");
}

#[test]
fn a_walk_ends_at_a_missing_entry_or_behind_the_last() {
    let mut walk = SymlinkWalk::new(b"/r", b"a/b");
    assert_eq!(walk.next_path().unwrap(), b"/r/a");
    assert!(walk.report(Entry::Missing).is_ok());
    assert!(walk.next_path().is_none());
    let mut walk = SymlinkWalk::new(b"/r", b"a");
    assert_eq!(walk.next_path().unwrap(), b"/r/a");
    assert!(walk.report(Entry::Other).is_ok());
    assert!(walk.next_path().is_none());
}

#[test]
fn configurations_name_the_object_format() {
    let sha1 = [
        "",
        "[core]\n\tbare = false\n",
        "[extensions]\nobjectFormat = sha1\n",
        "[core]\nobjectformat = sha256\n",
        "[extensions]\n# objectformat = sha256\n; objectformat = sha256\n",
        "[extensions]\nobjectformat = sha256\nobjectformat = \"SHA1\"\n",
        "[extensions]\n[core]\nobjectformat = sha256\n",
        "[extensionsx]\nobjectformat = sha256\n",
        "objectformat = sha256\n",
    ];
    for config in sha1 {
        assert_eq!(read_object_format(config).unwrap(), ObjectFormat::Sha1);
    }
    let sha256 = [
        "[extensions]\nobjectformat = sha256",
        "[extensions]\r\n\tobjectFormat = sha256\r\n",
        "[Extensions]\nOBJECTFORMAT=\"Sha256\"\n",
        "[extensions \"sub\"]\nobjectformat sha256\n",
        "[\"extensions\"]\nobjectformat=sha256\n",
        "[core]\nx = y\n[extensions]\nobjectformat\tsha256\n[core]\nobjectformat = sha1\n",
    ];
    for config in sha256 {
        assert_eq!(read_object_format(config).unwrap(), ObjectFormat::Sha256);
    }
}

#[test]
fn other_object_formats_are_refused() {
    let error = read_object_format("[extensions]\nobjectformat = SHA512\n").unwrap_err();
    assert_eq!(error.name, "sha512");
    assert_eq!(error.describe(), "unsupported Git object format: sha512");
    assert_eq!(read_object_format("[extensions]\nobjectformat\n").unwrap_err().name, "");
    assert_eq!(read_object_format("[extensions]\nobjectformat = a=b\n").unwrap_err().name, "a=b");
}

#[test]
fn output_of_commands() {
    assert_eq!(trim_stdout(b" x \n").unwrap(), "x");
    assert!(matches!(trim_stdout(b"\xff"), Err(GitError::NotUtf8)));
    assert_eq!(GitError::NotUtf8.describe(), "Git returned non-UTF-8 output");
    assert_eq!(ensure_success(true, b"id\n", "noise", "git add").unwrap(), "id");
    assert!(matches!(ensure_success(true, b"\xc3", "", "git"), Err(GitError::NotUtf8)));
    let error = ensure_success(false, b"\xff", "\nfatal: no\n", "git add").unwrap_err();
    assert_eq!(error.describe(), "git add failed: fatal: no");
}

#[test]
fn seeds_hold_parent_message_time_and_process() {
    let mut expected = b"root\0m\xc3\xa9".to_vec();
    expected.extend_from_slice(&0x0102_u128.to_be_bytes());
    expected.extend_from_slice(&0xa1b2_c3d4_u32.to_be_bytes());
    assert_eq!(target_seed(None, "m\u{e9}", 0x0102, 0xa1b2_c3d4), expected);
    let seed = target_seed(Some("abcd"), "m", 0, 0);
    assert_eq!(seed[..6], *b"abcd\0m");
    assert_eq!(seed.len(), 26);
}

#[test]
fn targets_are_leading_digits_of_a_digest() {
    for salt in [0, 1, u64::MAX] {
        let mut hasher = sha2::Sha256::new();
        hasher.update(b"seed");
        hasher.update(salt.to_be_bytes());
        let digest = hasher.finalize();
        let hex: String = digest.iter().map(|byte| format!("{byte:02x}")).collect();
        for prefix_len in 1..=8_u8 {
            let target = derive_target(b"seed", salt, prefix_len);
            assert_eq!(target_text(target, prefix_len), hex[..usize::from(prefix_len)]);
            assert_eq!(target_of_digest(&digest, prefix_len), target);
        }
    }
}

#[test]
fn targets_are_written_with_leading_zeros() {
    assert_eq!(target_text(0xa, 5), "0000a");
    assert_eq!(target_text(0, 1), "0");
    assert_eq!(target_text(u32::MAX, 8), "ffffffff");
    assert_eq!(be_bytes(0x0102_03, 2), [2, 3]);
}

#[test]
fn short_targets_are_not_looked_up() {
    for prefix_len in 1..=3_u8 {
        let mut search = TargetSearch::new(b"seed".to_vec(), prefix_len);
        match search.select_target(None) {
            Selection::Chosen { target, prefix } => {
                assert_eq!(target, derive_target(b"seed", 0, prefix_len));
                assert_eq!(prefix, target_text(target, prefix_len));
            }
            other => panic!("unexpected {other:?}"),
        }
    }
}

#[test]
fn the_first_free_target_is_chosen() {
    let mut search = TargetSearch::new(b"seed".to_vec(), 4);
    let mut answer = None;
    for salt in 0..5 {
        match search.select_target(answer) {
            Selection::Probe { prefix } => {
                assert_eq!(prefix, target_text(derive_target(b"seed", salt, 4), 4));
            }
            other => panic!("unexpected {other:?}"),
        }
        answer = Some(salt < 4);
    }
    match search.select_target(answer) {
        Selection::Chosen { target, prefix } => {
            assert_eq!(target, derive_target(b"seed", 4, 4));
            assert_eq!(prefix, target_text(target, 4));
        }
        other => panic!("unexpected {other:?}"),
    }
}

#[test]
fn messages_become_paragraphs() {
    let texts = |parts: &[&str]| parts.iter().map(|part| (*part).to_owned()).collect::<Vec<_>>();
    assert_eq!(join_paragraphs(&texts(&[])), "");
    assert_eq!(join_paragraphs(&texts(&["a"])), "a");
    assert_eq!(join_paragraphs(&texts(&["a", "", "b"])), "a\n\n\n\nb");
    assert!(matches!(
        message_source(&texts(&["a", "b"]), Some(b"-")),
        MessageSource::Inline { message } if message == "a\n\nb"
    ));
}

#[test]
fn messages_come_from_a_file_or_standard_input() {
    let none = Vec::new();
    assert!(matches!(message_source(&none, None), MessageSource::Missing));
    assert_eq!(describe_missing(), "provide a commit message with -m or -F");
    for path in ["-", "-/", "-/."] {
        assert!(std::path::Path::new(path) == std::path::Path::new("-"));
        assert!(matches!(
            message_source(&none, Some(path.as_bytes())),
            MessageSource::StandardInput
        ));
    }
    for path in ["./-", "--", "a/-", "/-", ""] {
        assert!(std::path::Path::new(path) != std::path::Path::new("-"));
        assert!(matches!(message_source(&none, Some(path.as_bytes())), MessageSource::File));
    }
}

#[test]
fn the_report_names_branch_prefix_and_subject() {
    assert_eq!(
        headline("refs/heads/main", "7e3a1", "Add the landing page\n\nMore"),
        "[main 7e3a1] Add the landing page"
    );
    assert_eq!(headline("HEAD", "0", ""), "[HEAD 0] ");
    assert_eq!(headline("refs/tags/x", "0", "\nx"), "[refs/tags/x 0] ");
    assert_eq!(
        closing_line(".shasha", "7e3a1", "7e3a1e4"),
        ".shasha contains 7e3a1; full commit is 7e3a1e4"
    );
}
