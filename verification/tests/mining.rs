//! Digests, prepared hashes and the search for a nonce.

use std::time::Duration;

use sha1::Digest;
use shasha::hash::{can_be_hashed, compress_sha1, compress_sha256, digest, words_to_bytes};
use shasha::hex::{encode_nonce, hex_encode};
use shasha::miner::{
    collect_outcomes, mine, mine_prepared, prefix_matches, MineError, MineOutcome, MineRequest,
    Worker, WorkerAction, WorkerEvent, WorkerOutcome, WorkerRun,
};
use shasha::prepared::{set_tail_byte, PreparedHash, PreparedSha1, PreparedSha256, PreparedTail};
use shasha::ObjectFormat;

const PREFIX: &[u8] = b"commit 17\0nonce goes here ";

fn completed(prefix: &[u8], nonce: u64) -> Vec<u8> {
    let mut message = prefix.to_vec();
    message.extend_from_slice(format!("{nonce:016x}\n").as_bytes());
    message
}

fn sha1_hex(bytes: &[u8]) -> String {
    sha1::Sha1::digest(bytes).iter().map(|byte| format!("{byte:02x}")).collect()
}

fn sha256_hex(bytes: &[u8]) -> String {
    sha2::Sha256::digest(bytes).iter().map(|byte| format!("{byte:02x}")).collect()
}

#[test]
fn nonce_encoding_is_fixed_width_hex() {
    assert_eq!(&encode_nonce(0), b"0000000000000000");
    assert_eq!(&encode_nonce(0x1234_abcd), b"000000001234abcd");
    assert_eq!(&encode_nonce(u64::MAX), b"ffffffffffffffff");
}

#[test]
fn matching_uses_the_requested_leading_nibbles() {
    assert!(prefix_matches(0xabcd_ef12, 0xabcde, 5));
    assert!(!prefix_matches(0xabcd_ef12, 0xabcdf, 5));
    assert!(prefix_matches(0xabcd_ef12, 0xa, 1));
}

#[test]
fn prepared_hashes_match_standard_digest_implementations() {
    for prefix_len in [0, 1, 46, 47, 63, 64, 65, 110, 111, 127, 128, 250] {
        let prefix = vec![b'x'; prefix_len];
        for nonce in [0, 1, 0x1234_abcd, u64::MAX] {
            let mut message = prefix.clone();
            message.extend_from_slice(&encode_nonce(nonce));
            message.push(b'\n');

            let sha1_words = PreparedSha1::new(&prefix).hash_nonce(nonce);
            assert_eq!(
                words_to_bytes(&sha1_words, ObjectFormat::Sha1),
                sha1::Sha1::digest(&message).as_slice()
            );

            let sha256_words = PreparedSha256::new(&prefix).hash_nonce(nonce);
            assert_eq!(
                words_to_bytes(&sha256_words, ObjectFormat::Sha256),
                sha2::Sha256::digest(&message).as_slice()
            );
        }
    }
}

#[test]
fn mines_a_small_sha1_prefix() {
    let outcome = mine(MineRequest {
        format: ObjectFormat::Sha1,
        object_prefix: b"commit 17\0nonce goes here ",
        target: 0xa,
        prefix_len: 1,
        threads: 2,
    })
    .unwrap();
    assert!(outcome.oid.starts_with('a'));
}

#[test]
fn mines_a_small_sha256_prefix() {
    let outcome = mine(MineRequest {
        format: ObjectFormat::Sha256,
        object_prefix: b"commit 17\0nonce goes here ",
        target: 0xb,
        prefix_len: 1,
        threads: 2,
    })
    .unwrap();
    assert!(outcome.oid.starts_with('b'));
}

#[test]
fn every_prepared_length_matches_the_standard_digest() {
    for prefix_len in 0..200 {
        let prefix: Vec<u8> = (0..prefix_len).map(|i| (i * 7 % 251) as u8).collect();
        let message = completed(&prefix, 0xfeed_beef);
        let mut sha1 = PreparedSha1::new(&prefix);
        let mut sha256 = PreparedSha256::new(&prefix);
        assert_eq!(
            hex_encode(&words_to_bytes(&sha1.hash_nonce(0xfeed_beef), ObjectFormat::Sha1)),
            sha1_hex(&message)
        );
        assert_eq!(
            hex_encode(&words_to_bytes(&sha256.hash_nonce(0xfeed_beef), ObjectFormat::Sha256)),
            sha256_hex(&message)
        );
    }
}

#[test]
fn a_prepared_hash_can_be_used_again() {
    let mut hash = PreparedSha1::new(PREFIX);
    let first = hash.hash_nonce(5);
    hash.hash_nonce(u64::MAX);
    assert_eq!(hash.hash_nonce(5), first);
    assert_eq!(first[5..], [0, 0, 0]);
}

#[test]
fn lengths_in_bits_fit_into_64_bits() {
    assert!(can_be_hashed(0, 0));
    assert!(can_be_hashed(0, u64::MAX / 8));
    assert!(can_be_hashed(17, u64::MAX / 8 - 17));
    assert!(!can_be_hashed(17, u64::MAX / 8 - 16));
    assert!(!can_be_hashed(1, u64::MAX));
}

#[test]
fn digests_of_a_known_message() {
    assert_eq!(
        hex_encode(&digest(ObjectFormat::Sha1, b"abc")),
        "a9993e364706816aba3e25717850c26c9cd0d89d"
    );
    assert_eq!(
        hex_encode(&digest(ObjectFormat::Sha256, b"abc")),
        "ba7816bf8f01cfea414140de5dae2223b00361a396177a9cb410ff61f20015ad"
    );
}

#[test]
fn compression_of_a_padded_message_gives_its_digest() {
    let mut block = [0_u8; 64];
    block[..3].copy_from_slice(b"abc");
    block[3] = 0x80;
    block[63] = 24;
    let mut sha1 = [0x6745_2301, 0xefcd_ab89, 0x98ba_dcfe, 0x1032_5476, 0xc3d2_e1f0];
    compress_sha1(&mut sha1, &block);
    assert_eq!(sha1, [0xa999_3e36, 0x4706_816a, 0xba3e_2571, 0x7850_c26c, 0x9cd0_d89d]);
    let mut sha256 = [
        0x6a09_e667, 0xbb67_ae85, 0x3c6e_f372, 0xa54f_f53a, 0x510e_527f, 0x9b05_688c, 0x1f83_d9ab,
        0x5be0_cd19,
    ];
    compress_sha256(&mut sha256, &block);
    assert_eq!(sha256[0], 0xba78_16bf);
    assert_eq!(sha256[7], 0xf200_15ad);
}

#[test]
fn blocks_may_be_compressed_one_by_one() {
    let bytes: Vec<u8> = (0..192).map(|i| i as u8).collect();
    let mut at_once = [1, 2, 3, 4, 5];
    compress_sha1(&mut at_once, &bytes);
    let mut in_parts = [1, 2, 3, 4, 5];
    compress_sha1(&mut in_parts, &bytes[..64]);
    compress_sha1(&mut in_parts, &bytes[64..]);
    assert_eq!(at_once, in_parts);
    let mut nothing = [1, 2, 3, 4, 5];
    compress_sha1(&mut nothing, &[]);
    assert_eq!(nothing, [1, 2, 3, 4, 5]);
}

#[test]
fn words_are_written_in_big_endian_order() {
    let words = [0x0102_0304, 5, 6, 7, 0x8000_00ff, 9, 10, 11];
    let bytes = words_to_bytes(&words, ObjectFormat::Sha1);
    assert_eq!(bytes.len(), 20);
    assert_eq!(bytes[..4], [1, 2, 3, 4]);
    assert_eq!(bytes[16..], [0x80, 0, 0, 0xff]);
    assert_eq!(words_to_bytes(&words, ObjectFormat::Sha256).len(), 32);
}

#[test]
fn hexadecimal_text_of_bytes() {
    assert_eq!(hex_encode(&[]), "");
    assert_eq!(hex_encode(&[0x00, 0x0f, 0xa0, 0xff]), "000fa0ff");
}

#[test]
fn object_ids_have_their_full_length() {
    assert_eq!(ObjectFormat::Sha1.oid_hex_len(), 40);
    assert_eq!(ObjectFormat::Sha256.oid_hex_len(), 64);
}

#[test]
fn a_tail_of_up_to_38_bytes_takes_one_block() {
    for len in 0..64 {
        let tail = vec![b'x'; len];
        let mut prepared = PreparedTail::new(&tail, 640 + len);
        prepared.set_nonce(0xabc);
        let blocks = prepared.blocks_as_bytes();
        assert_eq!(blocks.len(), if len <= 38 { 64 } else { 128 });
        let mut expected = completed(&tail, 0xabc);
        expected.push(0x80);
        assert_eq!(blocks[..expected.len()], expected[..]);
        let bits = (640 + len as u64 + 17) * 8;
        assert_eq!(blocks[blocks.len() - 8..], bits.to_be_bytes());
        assert!(blocks[expected.len()..blocks.len() - 8].iter().all(|&byte| byte == 0));
    }
}

#[test]
fn one_tail_byte_is_set() {
    let mut bytes = [0_u8; 128];
    set_tail_byte(&mut bytes, 64, 7);
    assert_eq!(bytes[64], 7);
    assert_eq!(bytes.iter().filter(|&&byte| byte != 0).count(), 1);
}

#[test]
fn a_lone_worker_finds_the_first_winner() {
    for (format, target) in [(ObjectFormat::Sha1, 0x12), (ObjectFormat::Sha256, 0xfe)] {
        let outcome = mine(MineRequest {
            format,
            object_prefix: PREFIX,
            target,
            prefix_len: 2,
            threads: 1,
        })
        .unwrap();
        let hex = |nonce: u64| match format {
            ObjectFormat::Sha1 => sha1_hex(&completed(PREFIX, nonce)),
            ObjectFormat::Sha256 => sha256_hex(&completed(PREFIX, nonce)),
        };
        let prefix = format!("{target:02x}");
        let first = (0..).find(|&nonce| hex(nonce).starts_with(&prefix)).unwrap();
        assert_eq!(outcome.nonce, first);
        assert_eq!(outcome.oid, hex(first));
        assert_eq!(outcome.attempts, first + 1);
    }
}

#[test]
fn the_winner_is_the_first_of_its_worker() {
    for threads in 2..6_usize {
        let outcome = mine(MineRequest {
            format: ObjectFormat::Sha1,
            object_prefix: PREFIX,
            target: 0x7,
            prefix_len: 1,
            threads,
        })
        .unwrap();
        let step = threads as u64;
        let mut nonce = outcome.nonce % step;
        while nonce < outcome.nonce {
            assert!(!sha1_hex(&completed(PREFIX, nonce)).starts_with('7'));
            nonce += step;
        }
        assert_eq!(outcome.oid, sha1_hex(&completed(PREFIX, outcome.nonce)));
        assert!(outcome.oid.starts_with('7'));
        assert!(outcome.attempts >= outcome.nonce / step + step);
    }
}

#[test]
fn every_worker_makes_an_attempt() {
    let first = sha1_hex(&completed(PREFIX, 0));
    let target = u32::from_str_radix(&first[..1], 16).unwrap();
    for threads in [2, 3, 40] {
        let outcome = mine(MineRequest {
            format: ObjectFormat::Sha1,
            object_prefix: PREFIX,
            target,
            prefix_len: 1,
            threads,
        })
        .unwrap();
        assert_eq!(outcome.nonce, 0);
        assert!(outcome.attempts >= threads as u64);
        assert!(outcome.attempts <= 256 * threads as u64);
    }
}

#[test]
fn all_eight_words_are_handed_back() {
    for (target, prefix_len) in [(0xa, 1), (0x3c, 2)] {
        let request = MineRequest {
            format: ObjectFormat::Sha1,
            object_prefix: PREFIX,
            target,
            prefix_len,
            threads: 2,
        };
        let (nonce, words, _) = mine_prepared(PreparedSha1::new(PREFIX), &request).unwrap();
        assert_eq!(words, PreparedSha1::new(PREFIX).hash_nonce(nonce));
        assert_eq!(words[5..], [0, 0, 0]);
    }
}

#[test]
fn a_new_tail_has_zeros_for_the_nonce() {
    for len in 0..64 {
        let tail = PreparedTail::new(&vec![b'x'; len], len);
        assert!(tail.blocks_as_bytes()[len..len + 16].iter().all(|&byte| byte == 0));
    }
}

#[test]
fn without_workers_nothing_is_found() {
    let request = MineRequest {
        format: ObjectFormat::Sha1,
        object_prefix: PREFIX,
        target: 0xa,
        prefix_len: 1,
        threads: 0,
    };
    assert_eq!(
        mine_prepared(PreparedSha1::new(PREFIX), &request).unwrap_err(),
        MineError::Exhausted
    );
    assert_eq!(mine(request).unwrap_err(), MineError::Exhausted);
    assert_eq!(
        MineError::Exhausted.describe(),
        "the nonce space was exhausted without finding a matching commit"
    );
}

#[test]
fn a_worker_stops_behind_a_batch() {
    let mut worker = Worker::new(PreparedSha1::new(PREFIX), 1, 3);
    assert!(matches!(worker.search(16, 1), WorkerEvent::BatchEnd));
    assert_eq!(worker.attempt_count(), 256);
    assert!(matches!(worker.search(16, 1), WorkerEvent::BatchEnd));
    assert_eq!(worker.attempt_count(), 512);
}

#[test]
fn a_worker_stops_behind_its_last_nonce() {
    let mut worker = Worker::new(PreparedSha256::new(PREFIX), usize::MAX - 1, usize::MAX);
    assert!(matches!(worker.search(16, 1), WorkerEvent::Exhausted));
    assert_eq!(worker.attempt_count(), 1);
}

#[test]
fn workers_share_the_nonces_out() {
    let mut seen: Vec<u64> = Vec::new();
    for number in 0..3 {
        let mut worker = Worker::new(PreparedSha1::new(PREFIX), number, 3);
        for _ in 0..20 {
            match worker.search(0x5, 1) {
                WorkerEvent::Candidate { nonce, words } => {
                    assert_eq!(nonce % 3, number as u64);
                    assert_eq!(
                        hex_encode(&words_to_bytes(&words, ObjectFormat::Sha1)),
                        sha1_hex(&completed(PREFIX, nonce))
                    );
                    seen.push(nonce);
                    worker.pass();
                }
                WorkerEvent::BatchEnd => {}
                WorkerEvent::Exhausted => panic!("nonces ran out"),
            }
        }
    }
    seen.sort_unstable();
    seen.dedup();
    let bound = 100;
    let expected: Vec<u64> = (0..bound)
        .filter(|&nonce| sha1_hex(&completed(PREFIX, nonce)).starts_with('5'))
        .collect();
    let found: Vec<u64> = seen.into_iter().filter(|&nonce| nonce < bound).collect();
    assert_eq!(found, expected);
}

#[test]
fn a_granted_claim_ends_a_run_with_a_match() {
    let mut run = WorkerRun::new(PreparedSha1::new(PREFIX), 0, 1, 0xa, 1);
    assert_eq!(run.proceed(false), WorkerAction::Claim);
    assert_eq!(run.proceed(true), WorkerAction::Stop);
    let outcome = run.outcome();
    let (nonce, words) = outcome.match_found.unwrap();
    let first = (0..).find(|&nonce| sha1_hex(&completed(PREFIX, nonce)).starts_with('a')).unwrap();
    assert_eq!(nonce, first);
    assert_eq!(outcome.attempts, first + 1);
    assert_eq!(
        hex_encode(&words_to_bytes(&words, ObjectFormat::Sha1)),
        sha1_hex(&completed(PREFIX, first))
    );
    assert_eq!(run.proceed(false), WorkerAction::Stop);
}

#[test]
fn a_run_without_the_claim_ends_with_its_batch() {
    let mut run = WorkerRun::new(PreparedSha256::new(PREFIX), 1, 2, 0xa, 1);
    let mut claims = 0;
    while run.proceed(false) == WorkerAction::Claim {
        claims += 1;
    }
    let winners = (0..256)
        .filter(|i| sha256_hex(&completed(PREFIX, 2 * i + 1)).starts_with('a'))
        .count();
    assert_eq!(claims, winners);
    assert_eq!(run.outcome().attempts, 256);
    assert_eq!(run.proceed(true), WorkerAction::Stop);
    assert_eq!(run.outcome().attempts, 256);
    assert!(run.outcome().match_found.is_none());
}

#[test]
fn a_run_goes_on_until_the_search_is_claimed() {
    let mut run = WorkerRun::new(PreparedSha1::new(PREFIX), 0, 1, 16, 1);
    assert_eq!(run.proceed(false), WorkerAction::Look);
    assert_eq!(run.proceed(false), WorkerAction::Look);
    assert_eq!(run.outcome().attempts, 512);
    let mut last = WorkerRun::new(PreparedSha1::new(PREFIX), usize::MAX - 1, usize::MAX, 16, 1);
    assert_eq!(last.proceed(false), WorkerAction::Stop);
    assert_eq!(last.outcome().attempts, 1);
}

#[test]
fn runs_on_one_claim_have_one_match() {
    let mut runs: Vec<_> = (0..3)
        .map(|number| WorkerRun::new(PreparedSha1::new(PREFIX), number, 3, 0x5, 1))
        .collect();
    let mut claimed = false;
    for run in &mut runs {
        let mut reply = false;
        loop {
            reply = match run.proceed(reply) {
                WorkerAction::Claim => !std::mem::replace(&mut claimed, true),
                WorkerAction::Look => claimed,
                WorkerAction::Stop => break,
            };
        }
    }
    let outcomes: Vec<WorkerOutcome> = runs.iter().map(|run| run.outcome()).collect();
    assert_eq!(outcomes.iter().filter(|outcome| outcome.match_found.is_some()).count(), 1);
    let (nonce, words, attempts) = collect_outcomes(&outcomes).unwrap();
    assert_eq!(nonce % 3, 0);
    assert!(attempts >= nonce / 3 + 3);
    assert!(hex_encode(&words_to_bytes(&words, ObjectFormat::Sha1)).starts_with('5'));
}

#[test]
fn an_outcome_shows_the_digest() {
    let words = [0xa999_3e36, 0x4706_816a, 0xba3e_2571, 0x7850_c26c, 0x9cd0_d89d, 1, 2, 3];
    let elapsed = Duration::from_millis(7);
    let outcome = MineOutcome::new(ObjectFormat::Sha1, 5, &words, 6, elapsed);
    assert_eq!(outcome.nonce, 5);
    assert_eq!(outcome.oid, "a9993e364706816aba3e25717850c26c9cd0d89d");
    assert_eq!(outcome.attempts, 6);
    assert_eq!(outcome.elapsed, elapsed);
}

#[test]
fn outcomes_are_put_together() {
    let quiet = WorkerOutcome { attempts: 3, match_found: None };
    let first = WorkerOutcome { attempts: 4, match_found: Some((9, [1; 8])) };
    let second = WorkerOutcome { attempts: 5, match_found: Some((8, [2; 8])) };
    assert_eq!(collect_outcomes(&[quiet, first, second]).unwrap(), (9, [1; 8], 12));
    assert_eq!(collect_outcomes(&[quiet, quiet]).unwrap_err(), MineError::Exhausted);
    assert_eq!(collect_outcomes(&[]).unwrap_err(), MineError::Exhausted);
    let many = WorkerOutcome { attempts: u64::MAX, match_found: None };
    assert_eq!(collect_outcomes(&[many, first]).unwrap().2, 3);
}
