//! The search for a nonce.

use std::time::{Duration, Instant};

use vstd::prelude::*;

use crate::format::ObjectFormat;
use crate::hash::words_to_bytes;
use crate::hex::hex_encode;
use crate::prepared::{PreparedHash, PreparedSha1, PreparedSha256};
use crate::target::leading_part;

verus! {

/// Candidates that a worker hashes between two looks at the stop flag.
pub const BATCH_LEN: u64 = 256;

/// The number of nonces: 2^64.
pub open spec fn nonce_count() -> nat {
    0x1_0000_0000_0000_0000
}

/// The nonce of the given number among those of one worker out of `threads`.
pub open spec fn nonce_at(worker: nat, threads: nat, index: nat) -> int {
    (worker + index * threads) as int
}

/// The object ID of an object, as text.
pub open spec fn oid_text(format: ObjectFormat, object: Seq<u8>) -> Seq<char> {
    crate::hex::as_chars(crate::hex::hex_bytes(format.digest(object)))
}

/// Whether the object that `nonce` completes has an ID that starts with the target's digits.
pub open spec fn wins(
    format: ObjectFormat,
    prefix: Seq<u8>,
    target: u32,
    prefix_len: u8,
    nonce: int,
) -> bool {
    let words = format.digest_words(crate::prepared::nonce_message(prefix, nonce as u64));
    crate::target::leading_digits(words[0], prefix_len) == target
}

/// An object ID has as many digits as its format says.
pub proof fn oid_text_has_full_length(format: ObjectFormat, object: Seq<u8>)
    ensures
        oid_text(format, object).len() == format.hex_len(),
{
    crate::hash::lemma_digest_len(format, object);
    crate::hex::lemma_hex_bytes_len(format.digest(object));
}

/// The head of an object ID is its first two digits.
pub proof fn lemma_oid_text_has_head(format: ObjectFormat, object: Seq<u8>)
    ensures
        crate::loose::has_head(oid_text(format, object)),
        crate::loose::head_len(oid_text(format, object)) == 2,
{
    let digits = crate::hex::hex_bytes(format.digest(object));
    oid_text_has_full_length(format, object);
    crate::hex::lemma_hex_bytes_digits(format.digest(object));
    assert(crate::hex::is_digit(digits[0]) && crate::hex::is_digit(digits[1]));
    assert(oid_text(format, object)[0] == digits[0] as char);
    assert(oid_text(format, object)[1] == digits[1] as char);
}

/// An object ID is a full ID in lower case, and names no reference.
pub proof fn lemma_oid_text_is_an_id(format: ObjectFormat, object: Seq<u8>)
    ensures
        crate::refs::full_oid(format, oid_text(format, object)),
        crate::text::lowered(oid_text(format, object)) == oid_text(format, object),
        crate::refs::symbolic(oid_text(format, object)) is None,
        crate::text::one_line(oid_text(format, object)),
{
    let text = oid_text(format, object);
    let digits = crate::hex::hex_bytes(format.digest(object));
    oid_text_has_full_length(format, object);
    crate::hex::lemma_hex_bytes_digits(format.digest(object));
    assert forall|i: int| 0 <= i < text.len() implies crate::text::hex_char(#[trigger] text[i])
        && crate::text::ascii_lower(text[i]) == text[i] && text[i] != '\n' && text[i] != 'r' by {
        assert(crate::hex::is_digit(digits[i]));
        assert(text[i] == digits[i] as char);
    }
    assert(crate::text::lowered(text) =~= text);
    reveal_strlit("ref: ");
    if "ref: "@.is_prefix_of(text) {
        assert("ref: "@[0] == text[0]);
    }
}

/// A nonce wins exactly when the ID of its object starts with the target's digits.
pub proof fn winning_means_id_starts_with_prefix(
    format: ObjectFormat,
    prefix: Seq<u8>,
    target: u32,
    prefix_len: u8,
    nonce: u64,
)
    requires
        1 <= prefix_len <= 8,
        target < crate::hex::pow16(prefix_len as nat),
    ensures
        wins(format, prefix, target, prefix_len, nonce as int) <==> crate::target::prefix_text(
            target,
            prefix_len,
        ).is_prefix_of(oid_text(format, crate::prepared::nonce_message(prefix, nonce))),
{
    let object = crate::prepared::nonce_message(prefix, nonce);
    let words = format.digest_words(object);
    let digits = crate::hex::hex_bytes(format.digest(object));
    let leading = crate::target::leading_digits(words[0], prefix_len);
    let width = prefix_len as nat;
    crate::hash::lemma_digest_len(format, object);
    crate::hash::lemma_word_bytes_first(words);
    crate::hash::lemma_word_bytes_len(words);
    crate::hex::lemma_hex_bytes_len(format.digest(object));
    crate::hex::lemma_hex_bytes_take(format.digest(object), 4);
    crate::hex::lemma_hex_of_be(words[0] as nat, 4);
    crate::hex::lemma_hex_fixed_leading(words[0] as nat, 8, (8 - prefix_len) as nat);
    crate::hex::lemma_hex_fixed_len(target as nat, width);
    crate::hex::lemma_hex_fixed_len(leading, width);
    assert(digits.take(8).take(prefix_len as int) =~= digits.take(prefix_len as int));
    assert(digits.take(prefix_len as int) == crate::hex::hex_fixed(leading, width));
    let wanted = crate::hex::hex_fixed(target as nat, width);
    let text = oid_text(format, object);
    let goal = crate::target::prefix_text(target, prefix_len);
    if leading == target {
        assert(goal =~= text.take(goal.len() as int));
    }
    if goal.is_prefix_of(text) {
        assert forall|i: int| 0 <= i < width implies wanted[i] == digits[i] by {
            assert(goal[i] == text.take(goal.len() as int)[i]);
            assert(goal[i] == wanted[i] as char);
            assert(text[i] == digits[i] as char);
        }
        assert(wanted =~= digits.take(prefix_len as int));
        crate::target::lemma_leading_bound(words[0], prefix_len);
        crate::hex::lemma_hex_fixed_injective(leading, target as nat, width);
    }
}

/// The 64-bit count of a number of attempts.
pub open spec fn counts(total: nat, attempts: u64) -> bool {
    attempts == total % nonce_count()
}

/// What to mine: an object ahead of its nonce, and the digits its ID has to start with.
pub struct MineRequest<'a> {
    pub format: ObjectFormat,
    pub object_prefix: &'a [u8],
    pub target: u32,
    pub prefix_len: u8,
    pub threads: usize,
}

impl<'a> MineRequest<'a> {
    /// Whether a nonce gives what the request asks for.
    pub open spec fn wins(self, nonce: int) -> bool {
        wins(self.format, self.object_prefix@, self.target, self.prefix_len, nonce)
    }

    /// A nonce that wins, as the first of its worker, after so many attempts in all. Each worker
    /// makes at least one attempt, and the winner one for each of its nonces up to this one. A lone
    /// worker makes no others.
    pub open spec fn won_by(self, nonce: u64, attempts: u64) -> bool {
        let threads = self.threads as nat;
        let worker = nonce as nat % threads;
        let index = nonce as nat / threads;
        &&& threads > 0
        &&& self.wins(nonce as int)
        &&& forall|i: nat| i < index ==> !self.wins(#[trigger] nonce_at(worker, threads, i))
        &&& exists|total: nat|
            {
                &&& #[trigger] counts(total, attempts)
                &&& index + threads <= total <= nonce_count()
                &&& total == nonce_count() ==> nonce + threads > u64::MAX
            }
        &&& threads == 1 ==> attempts == (nonce + 1) % nonce_count() as int
    }

    /// Nobody finds a nonce: there is no worker, or no nonce wins.
    pub open spec fn hopeless(self) -> bool {
        self.threads == 0 || forall|nonce: int|
            0 <= nonce <= u64::MAX ==> !#[trigger] self.wins(nonce)
    }

    /// The turn that a nonce is hashed in: the number of its batch among those of its worker.
    pub open spec fn batch_of(self, nonce: int) -> int {
        nonce / self.threads as int / BATCH_LEN as int
    }

    /// Where the workers take turns, a batch each, this nonce comes before the other.
    pub open spec fn comes_before(self, nonce: int, other: int) -> bool {
        let (worker, other_worker) = (nonce % self.threads as int, other % self.threads as int);
        ||| self.batch_of(nonce) < self.batch_of(other)
        ||| self.batch_of(nonce) == self.batch_of(other) && worker < other_worker
        ||| worker == other_worker && nonce < other
    }

    /// The nonces that are hashed where the workers take turns, a batch each, and one of them wins
    /// with the given nonce: the winner's up to that one, and those of the others up to the end of
    /// the batch in which they learn of it.
    pub open spec fn hashed_nonces(self, winner: u64) -> Set<int> {
        let threads = self.threads as int;
        Set::new(
            |nonce: int|
                0 <= nonce <= u64::MAX && if nonce % threads == winner as int % threads {
                    nonce <= winner
                } else if nonce % threads < winner as int % threads {
                    self.batch_of(nonce) <= self.batch_of(winner as int) + 1
                } else {
                    self.batch_of(nonce) <= self.batch_of(winner as int)
                },
        )
    }

    /// What a search in turns comes to: the first nonce that wins, in the order of the turns, after
    /// one attempt for each nonce that was hashed.
    pub open spec fn won_in_turns(self, nonce: u64, attempts: u64) -> bool {
        &&& forall|other: int|
            0 <= other <= u64::MAX && self.comes_before(other, nonce as int)
                ==> !#[trigger] self.wins(other)
        &&& attempts == self.hashed_nonces(nonce).len() % nonce_count()
    }

    /// What a whole search may come to.
    pub open spec fn settled_by(self, r: Result<(u64, [u32; 8], u64), MineError>) -> bool {
        match r {
            Ok((nonce, words, attempts)) => {
                &&& self.won_by(nonce, attempts)
                &&& crate::prepared::holds_digest(
                    self.format,
                    words@,
                    crate::prepared::nonce_message(self.object_prefix@, nonce),
                )
            },
            Err(error) => error == MineError::Exhausted && self.hopeless(),
        }
    }
}

/// Why no nonce was found.
#[derive(Debug, Clone, Copy, PartialEq, Eq, Structural)]
pub enum MineError {
    /// Every nonce was tried.
    Exhausted,
}

impl MineError {
    /// The message for the user.
    pub fn describe(&self) -> (text: &'static str)
        ensures
            text@ == "the nonce space was exhausted without finding a matching commit"@,
    {
        "the nonce space was exhausted without finding a matching commit"
    }
}

/// What a worker reports when it stops to be told what to do.
#[derive(Debug, Clone, Copy)]
pub enum WorkerEvent {
    /// A nonce that wins, if no other worker has won.
    Candidate { nonce: u64, words: [u32; 8] },
    /// A batch is done without a winner.
    BatchEnd,
    /// The worker has no nonce left.
    Exhausted,
}

#[derive(Debug, Clone, Copy, PartialEq, Eq, Structural)]
enum WorkerStatus {
    /// The current nonce has not been hashed.
    Ready,
    /// The current nonce has been hashed and wins.
    Pending,
    /// No nonce is left.
    Done,
}

/// One of several searches that share the nonces among them: the worker of number `start` tries
/// `start`, `start + step`, `start + 2 * step` and so on.
pub struct Worker<H> {
    hash: H,
    nonce: u64,
    step: u64,
    attempts: u64,
    batch_left: u64,
    status: WorkerStatus,
    start: Ghost<nat>,
    index: Ghost<nat>,
}

impl<H: PreparedHash> Worker<H> {
    /// The nonce of the given number in this worker's sequence.
    pub open spec fn nth(&self, index: nat) -> int {
        nonce_at(self.start(), self.step(), index)
    }

    /// The worker's first nonce.
    pub closed spec fn start(&self) -> nat {
        self.start@
    }

    /// The distance between two nonces.
    pub closed spec fn step(&self) -> nat {
        self.step as nat
    }

    /// The number of the current nonce.
    pub closed spec fn index(&self) -> nat {
        self.index@
    }

    /// The bytes ahead of the nonce.
    pub closed spec fn prefix(&self) -> Seq<u8> {
        self.hash.prefix()
    }

    /// The current nonce has still to be hashed.
    pub closed spec fn ready(&self) -> bool {
        self.status == WorkerStatus::Ready
    }

    /// The current nonce wins and waits for a verdict.
    pub closed spec fn pending(&self) -> bool {
        self.status == WorkerStatus::Pending
    }

    /// No nonce is left.
    pub closed spec fn done(&self) -> bool {
        self.status == WorkerStatus::Done
    }

    /// Candidates to go in this batch.
    pub closed spec fn batch_left(&self) -> nat {
        self.batch_left as nat
    }

    /// Candidates hashed so far.
    pub open spec fn tried(&self) -> nat {
        if self.ready() {
            self.index()
        } else {
            self.index() + 1
        }
    }

    /// The count that the worker keeps.
    pub closed spec fn attempts(&self) -> u64 {
        self.attempts
    }

    pub closed spec fn inv(&self) -> bool {
        &&& self.hash.inv()
        &&& self.step > 0
        &&& self.nonce == self.nth(self.index@)
        &&& self.batch_left <= BATCH_LEN
        &&& self.status == WorkerStatus::Ready ==> self.batch_left > 0
        &&& self.status == WorkerStatus::Done ==> self.nonce + self.step > u64::MAX
        &&& self.attempts == self.tried() % nonce_count()
    }

    /// None of the nonces with a number in the given range wins.
    pub open spec fn none_wins(&self, from: nat, to: nat, target: u32, prefix_len: u8) -> bool {
        forall|i: nat|
            from <= i < to ==> !wins(
                H::format(),
                self.prefix(),
                target,
                prefix_len,
                #[trigger] self.nth(i),
            )
    }

    /// The same search, further on.
    pub open spec fn continues(&self, before: &Self) -> bool {
        &&& self.start() == before.start()
        &&& self.step() == before.step()
        &&& self.prefix() == before.prefix()
    }

    /// Worker number `worker` of `workers`.
    pub fn new(hash: H, worker: usize, workers: usize) -> (r: Worker<H>)
        requires
            hash.inv(),
            worker < workers,
        ensures
            r.inv(),
            r.ready(),
            r.start() == worker,
            r.step() == workers,
            r.index() == 0,
            r.prefix() == hash.prefix(),
            r.batch_left() == BATCH_LEN,
    {
        let r: Worker<H> = Worker {
            hash,
            nonce: worker as u64,
            step: workers as u64,
            attempts: 0,
            batch_left: BATCH_LEN,
            status: WorkerStatus::Ready,
            start: Ghost(worker as nat),
            index: Ghost(0nat),
        };
        assert(0 * r.step() == 0) by (nonlinear_arith);
        r
    }

    /// The number of candidates hashed, modulo 2^64.
    pub fn attempt_count(&self) -> (attempts: u64)
        requires
            self.inv(),
        ensures
            attempts == self.tried() % nonce_count(),
    {
        self.attempts
    }

    /// Leaves the current nonce behind, because it does not win or another worker has won.
    /// Reports the end of the nonces or of the batch, or nothing when the search can go on.
    pub fn pass(&mut self) -> (event: Option<WorkerEvent>)
        requires
            old(self).inv(),
            old(self).pending(),
        ensures
            final(self).inv(),
            final(self).continues(old(self)),
            match event {
                None => final(self).ready() && final(self).index() == old(self).index() + 1
                    && final(self).batch_left() == old(self).batch_left() && old(
                    self,
                ).batch_left() > 0,
                Some(WorkerEvent::BatchEnd) => final(self).ready() && final(self).index() == old(
                    self,
                ).index() + 1 && final(self).batch_left() == BATCH_LEN && old(self).batch_left()
                    == 0,
                Some(WorkerEvent::Exhausted) => final(self).done() && final(self).index() == old(
                    self,
                ).index() && old(self).nth(old(self).index() + 1) > u64::MAX,
                Some(WorkerEvent::Candidate { .. }) => false,
            },
    {
        proof {
            assert((self.index@ + 1) * self.step() == self.index@ * self.step() + self.step())
                by (nonlinear_arith);
        }
        match self.nonce.checked_add(self.step) {
            None => {
                self.status = WorkerStatus::Done;
                Some(WorkerEvent::Exhausted)
            },
            Some(next) => {
                self.nonce = next;
                self.index = Ghost((self.index@ + 1) as nat);
                self.status = WorkerStatus::Ready;
                if self.batch_left == 0 {
                    self.batch_left = BATCH_LEN;
                    Some(WorkerEvent::BatchEnd)
                } else {
                    None
                }
            },
        }
    }

    /// Searches until a nonce wins, the batch ends or no nonce is left. No more candidates are
    /// hashed than the batch has left.
    pub fn search(&mut self, target: u32, prefix_len: u8) -> (event: WorkerEvent)
        requires
            old(self).inv(),
            old(self).ready(),
            1 <= prefix_len <= 8,
        ensures
            final(self).inv(),
            final(self).continues(old(self)),
            final(self).none_wins(old(self).index(), final(self).index(), target, prefix_len),
            final(self).index() >= old(self).index(),
            final(self).tried() <= old(self).tried() + old(self).batch_left(),
            old(self).batch_left() <= BATCH_LEN,
            match event {
                WorkerEvent::Candidate { nonce, words } => {
                    &&& final(self).pending()
                    &&& nonce == final(self).nth(final(self).index())
                    &&& wins(H::format(), final(self).prefix(), target, prefix_len, nonce as int)
                    &&& crate::prepared::holds_digest(
                        H::format(),
                        words@,
                        crate::prepared::nonce_message(final(self).prefix(), nonce),
                    )
                    &&& final(self).index() + final(self).batch_left() + 1 == old(self).index()
                        + old(self).batch_left()
                },
                WorkerEvent::BatchEnd => {
                    &&& final(self).ready()
                    &&& final(self).index() == old(self).index() + old(self).batch_left()
                    &&& final(self).batch_left() == BATCH_LEN
                },
                WorkerEvent::Exhausted => {
                    &&& final(self).done()
                    &&& final(self).nth(final(self).index() + 1) > u64::MAX
                    &&& !wins(
                        H::format(),
                        final(self).prefix(),
                        target,
                        prefix_len,
                        final(self).nth(final(self).index()),
                    )
                },
            },
    {
        loop
            invariant
                self.inv(),
                self.ready(),
                self.continues(old(self)),
                1 <= prefix_len <= 8,
                old(self).batch_left() <= BATCH_LEN,
                old(self).ready(),
                self.index() >= old(self).index(),
                self.index() + self.batch_left() == old(self).index() + old(self).batch_left(),
                self.none_wins(old(self).index(), self.index(), target, prefix_len),
            decreases self.batch_left,
        {
            let ghost before = *self;
            let nonce: u64 = self.nonce;
            let words: [u32; 8] = self.hash.hash_nonce(nonce);
            self.attempts = self.attempts.wrapping_add(1);
            self.batch_left = self.batch_left - 1;
            self.status = WorkerStatus::Pending;
            assert(words@.take(H::format().word_count() as int)[0] == words@[0]);
            assert(forall|i: nat| #[trigger] self.nth(i) == before.nth(i));
            assert(self.attempts == self.tried() % nonce_count()) by {
                assert(before.attempts == before.index() % nonce_count());
            }
            if prefix_matches(words[0], target, prefix_len) {
                return WorkerEvent::Candidate { nonce, words };
            }
            let event: Option<WorkerEvent> = self.pass();
            proof {
                assert(self.none_wins(old(self).index(), self.index(), target, prefix_len)) by {
                    assert forall|i: nat| old(self).index() <= i < self.index() implies !wins(
                        H::format(),
                        self.prefix(),
                        target,
                        prefix_len,
                        #[trigger] self.nth(i),
                    ) by {
                        assert(self.nth(i) == before.nth(i));
                    }
                }
            }
            match event {
                None => {},
                Some(stop) => {
                    return stop;
                },
            }
        }
    }
}

/// What a run of a worker needs done before it can go on.
#[derive(Debug, Clone, Copy, PartialEq, Eq, Structural)]
pub enum WorkerAction {
    /// Claim the search for the worker's candidate; the reply is whether nobody had claimed it.
    Claim,
    /// Look whether the search has been claimed; the reply is whether it has.
    Look,
    /// Nothing: the run is over.
    Stop,
}

/// A worker on a thread of its own, next to others that it shares a claim with.
pub struct WorkerRun<H> {
    worker: Worker<H>,
    target: u32,
    prefix_len: u8,
    asked: Option<WorkerAction>,
    candidate: Option<(u64, [u32; 8])>,
    match_found: Option<(u64, [u32; 8])>,
    beaten: Ghost<bool>,
}

impl<H: PreparedHash> WorkerRun<H> {
    /// The worker.
    pub closed spec fn worker(&self) -> Worker<H> {
        self.worker
    }

    /// The digits that an ID has to start with, as a number.
    pub closed spec fn target(&self) -> u32 {
        self.target
    }

    /// How many digits that are.
    pub closed spec fn prefix_len(&self) -> u8 {
        self.prefix_len
    }

    /// The last action that was asked for.
    pub closed spec fn asked(&self) -> Option<WorkerAction> {
        self.asked
    }

    /// The last candidate.
    pub closed spec fn candidate(&self) -> Option<(u64, [u32; 8])> {
        self.candidate
    }

    /// The candidate that the search was claimed for.
    pub closed spec fn match_found(&self) -> Option<(u64, [u32; 8])> {
        self.match_found
    }

    /// The run has been told that the search is claimed by another.
    pub closed spec fn beaten(&self) -> bool {
        self.beaten@
    }

    /// A candidate is waited upon only where there is one, what is found wins, and a run that is
    /// not beaten ends with a match or with its last nonce. None of the nonces that such a run has
    /// left behind wins.
    pub open spec fn inv(&self) -> bool {
        &&& self.worker().inv()
        &&& 1 <= self.prefix_len() <= 8
        &&& match self.asked() {
            None => self.worker().ready() && self.worker().index() == 0,
            Some(WorkerAction::Look) => self.worker().ready(),
            Some(WorkerAction::Claim) => {
                &&& self.worker().pending()
                &&& self.candidate() matches Some((nonce, words)) && self.candidate_wins(
                    nonce,
                    words,
                )
            },
            Some(WorkerAction::Stop) => self.match_found() is Some || self.beaten()
                || self.exhausted(),
        }
        &&& self.match_found() is Some ==> self.asked() == Some(WorkerAction::Stop)
            && self.worker().pending()
        &&& self.match_found() matches Some((nonce, words)) ==> self.candidate_wins(nonce, words)
        &&& self.asked() is Some ==> self.worker().tried() >= 1
        &&& !self.beaten() ==> self.worker().none_wins(
            0,
            self.worker().index(),
            self.target(),
            self.prefix_len(),
        )
    }

    /// The worker's last nonce has been hashed and does not win.
    pub open spec fn exhausted(&self) -> bool {
        &&& self.worker().done()
        &&& !wins(
            H::format(),
            self.worker().prefix(),
            self.target(),
            self.prefix_len(),
            self.worker().nth(self.worker().index()),
        )
    }

    /// The search is claimed for this run, if the reply to its last action is this.
    pub open spec fn has_claim(&self, reply: bool) -> bool {
        self.match_found() is Some || (self.asked() == Some(WorkerAction::Claim) && reply)
    }

    /// The reply to the run's last action says that another has claimed the search.
    pub open spec fn learns(&self, reply: bool) -> bool {
        ||| self.asked() == Some(WorkerAction::Claim) && !reply
        ||| self.asked() == Some(WorkerAction::Look) && reply
    }

    /// How the run goes on with a reply, up to its next action.
    pub open spec fn goes_on(&self, reply: bool, after: &Self, action: WorkerAction) -> bool {
        let granted = self.asked() == Some(WorkerAction::Claim) && reply;
        let over = self.asked() == Some(WorkerAction::Stop) || granted || (self.asked() == Some(
            WorkerAction::Look,
        ) && reply);
        let (from, to) = (self.worker(), after.worker());
        &&& after.inv()
        &&& after.asked() == Some(action)
        &&& after.target() == self.target()
        &&& after.prefix_len() == self.prefix_len()
        &&& after.beaten() == (self.beaten() || self.learns(reply))
        &&& after.match_found() == if granted {
            self.candidate()
        } else {
            self.match_found()
        }
        &&& to.continues(&from)
        &&& to.none_wins(from.tried(), to.index(), self.target(), self.prefix_len())
        &&& over ==> action == WorkerAction::Stop && to == from
        &&& match action {
            WorkerAction::Claim => to.tried() + to.batch_left() == from.tried() + from.batch_left()
                && to.tried() > from.tried(),
            WorkerAction::Look => to.tried() == from.tried() + from.batch_left()
                && to.batch_left() == BATCH_LEN,
            WorkerAction::Stop => over || {
                &&& to.done()
                &&& to.nth(to.index() + 1) > u64::MAX
                &&& to.tried() <= from.tried() + from.batch_left()
                &&& to.tried() > from.tried() ==> after.exhausted()
            },
        }
    }

    /// The worker's current nonce wins, with a digest of these words.
    pub open spec fn candidate_wins(&self, nonce: u64, words: [u32; 8]) -> bool {
        &&& nonce == self.worker().nth(self.worker().index())
        &&& wins(
            H::format(),
            self.worker().prefix(),
            self.target(),
            self.prefix_len(),
            nonce as int,
        )
        &&& crate::prepared::holds_digest(
            H::format(),
            words@,
            crate::prepared::nonce_message(self.worker().prefix(), nonce),
        )
    }

    /// The run of worker number `worker` of `workers`.
    pub fn new(hash: H, worker: usize, workers: usize, target: u32, prefix_len: u8) -> (r:
        WorkerRun<H>)
        requires
            hash.inv(),
            worker < workers,
            1 <= prefix_len <= 8,
        ensures
            r.inv(),
            r.asked() is None,
            r.match_found() is None,
            !r.beaten(),
            r.target() == target,
            r.prefix_len() == prefix_len,
            r.worker().start() == worker,
            r.worker().step() == workers,
            r.worker().index() == 0,
            r.worker().prefix() == hash.prefix(),
            r.worker().batch_left() == BATCH_LEN,
    {
        WorkerRun {
            worker: Worker::new(hash, worker, workers),
            target,
            prefix_len,
            asked: None,
            candidate: None,
            match_found: None,
            beaten: Ghost(false),
        }
    }

    /// Takes in the reply to the last action, if there was one, and says what to do next. A claim
    /// that is granted ends the run with a match. One that is not is passed over. Between two
    /// looks at the claim no more than a batch of candidates is hashed.
    pub fn proceed(&mut self, reply: bool) -> (action: WorkerAction)
        requires
            old(self).inv(),
        ensures
            old(self).goes_on(reply, final(self), action),
    {
        match self.asked {
            None => {},
            Some(WorkerAction::Stop) => {
                return WorkerAction::Stop;
            },
            Some(WorkerAction::Look) => {
                if reply {
                    self.asked = Some(WorkerAction::Stop);
                    self.beaten = Ghost(true);
                    return WorkerAction::Stop;
                }
            },
            Some(WorkerAction::Claim) => {
                if reply {
                    self.match_found = self.candidate;
                    self.asked = Some(WorkerAction::Stop);
                    return WorkerAction::Stop;
                }
                self.beaten = Ghost(true);
                match self.worker.pass() {
                    None => {},
                    Some(WorkerEvent::BatchEnd) => {
                        self.asked = Some(WorkerAction::Look);
                        return WorkerAction::Look;
                    },
                    Some(_) => {
                        self.asked = Some(WorkerAction::Stop);
                        return WorkerAction::Stop;
                    },
                }
            },
        }
        let action: WorkerAction = match self.worker.search(self.target, self.prefix_len) {
            WorkerEvent::Candidate { nonce, words } => {
                self.candidate = Some((nonce, words));
                WorkerAction::Claim
            },
            WorkerEvent::BatchEnd => WorkerAction::Look,
            WorkerEvent::Exhausted => WorkerAction::Stop,
        };
        self.asked = Some(action);
        proof {
            let (from, to) = (old(self).worker(), self.worker());
            assert(forall|i: nat| #[trigger] to.nth(i) == from.nth(i));
            assert(!self.beaten() ==> to.none_wins(
                0,
                to.index(),
                self.target(),
                self.prefix_len(),
            ));
        }
        action
    }

    /// What the worker has done.
    pub fn outcome(&self) -> (outcome: WorkerOutcome)
        requires
            self.inv(),
        ensures
            outcome.attempts == self.worker().tried() % nonce_count(),
            outcome.match_found == self.match_found(),
    {
        WorkerOutcome { attempts: self.worker.attempt_count(), match_found: self.match_found }
    }
}

/// Whether the first word of a digest starts with the target's digits.
pub fn prefix_matches(first_word: u32, target: u32, prefix_len: u8) -> (matches: bool)
    requires
        1 <= prefix_len <= 8,
    ensures
        matches == (crate::target::leading_digits(first_word, prefix_len) == target),
{
    leading_part(first_word, prefix_len) == target
}

/// A successful search.
#[derive(Debug)]
pub struct MineOutcome {
    pub nonce: u64,
    pub oid: String,
    pub attempts: u64,
    pub elapsed: Duration,
}

impl MineOutcome {
    /// The outcome of a search that came to the given nonce, whose digest has the given words.
    pub fn new(
        format: ObjectFormat,
        nonce: u64,
        words: &[u32; 8],
        attempts: u64,
        elapsed: Duration,
    ) -> (outcome: MineOutcome)
        ensures
            outcome.nonce == nonce,
            outcome.oid@ == crate::hex::as_chars(
                crate::hex::hex_bytes(
                    crate::hash::word_bytes(words@.take(format.word_count() as int)),
                ),
            ),
            outcome.attempts == attempts,
            outcome.elapsed == elapsed,
    {
        let oid: String = hex_encode(words_to_bytes(words, format).as_slice());
        MineOutcome { nonce, oid, attempts, elapsed }
    }
}

/// An instant of the monotonic clock.
#[verifier::external_type_specification]
#[verifier::external_body]
pub struct ExInstant(Instant);

/// `Instant::now` reads the clock: nothing is claimed of what it returns.
pub assume_specification[ Instant::now ]() -> Instant;

/// `Instant::elapsed` reads the clock: nothing is claimed of what it returns.
pub assume_specification[ Instant::elapsed ](earlier: &Instant) -> Duration;

/// Finds a nonce that completes the object to one whose ID starts with the target's digits, and
/// reports the ID. The time that passed is not specified.
pub fn mine(request: MineRequest<'_>) -> (r: Result<MineOutcome, MineError>)
    requires
        1 <= request.prefix_len <= 8,
        crate::hash::hashable((request.object_prefix@.len() + 17) as nat),
    ensures
        match r {
            Ok(outcome) => {
                &&& request.won_by(outcome.nonce, outcome.attempts)
                &&& request.won_in_turns(outcome.nonce, outcome.attempts)
                &&& outcome.oid@ == oid_text(
                    request.format,
                    crate::prepared::nonce_message(request.object_prefix@, outcome.nonce),
                )
            },
            Err(error) => error == MineError::Exhausted && request.hopeless(),
        },
{
    let started: Instant = Instant::now();
    let found: Result<(u64, [u32; 8], u64), MineError> = match request.format {
        ObjectFormat::Sha1 => mine_prepared(PreparedSha1::new(request.object_prefix), &request),
        ObjectFormat::Sha256 => mine_prepared(PreparedSha256::new(request.object_prefix), &request),
    };
    match found {
        Ok((nonce, words, attempts)) => Ok(
            MineOutcome::new(request.format, nonce, &words, attempts, started.elapsed()),
        ),
        Err(error) => Err(error),
    }
}

/// What one worker has done by the time the search is over.
#[derive(Debug, Clone, Copy)]
pub struct WorkerOutcome {
    pub attempts: u64,
    pub match_found: Option<(u64, [u32; 8])>,
}

/// The candidates that all workers have hashed.
pub open spec fn total_attempts(outcomes: Seq<WorkerOutcome>) -> nat
    decreases outcomes.len(),
{
    if outcomes.len() == 0 {
        0
    } else {
        total_attempts(outcomes.drop_last()) + outcomes.last().attempts as nat
    }
}

/// The outcomes of all workers put together: the first match there is, and the attempts of all.
pub open spec fn collected(
    outcomes: Seq<WorkerOutcome>,
    r: Result<(u64, [u32; 8], u64), MineError>,
) -> bool {
    match r {
        Ok((nonce, words, attempts)) => {
            &&& exists|i: int|
                0 <= i < outcomes.len() && #[trigger] outcomes[i].match_found == Some(
                    (nonce, words),
                ) && forall|j: int| 0 <= j < i ==> (#[trigger] outcomes[j]).match_found is None
            &&& counts(total_attempts(outcomes), attempts)
        },
        Err(error) => {
            &&& error == MineError::Exhausted
            &&& forall|j: int|
                0 <= j < outcomes.len() ==> (#[trigger] outcomes[j]).match_found is None
        },
    }
}

/// Puts the workers' outcomes together: the first match there is, and the attempts of all,
/// modulo 2^64.
pub fn collect_outcomes(outcomes: &[WorkerOutcome]) -> (r: Result<
    (u64, [u32; 8], u64),
    MineError,
>)
    ensures
        collected(outcomes@, r),
{
    let mut attempts: u64 = 0;
    let mut winner: Option<(u64, [u32; 8])> = None;
    let mut i: usize = 0;
    while i < outcomes.len()
        invariant
            i <= outcomes@.len(),
            attempts == total_attempts(outcomes@.take(i as int)) % nonce_count(),
            match winner {
                None => forall|j: int|
                    0 <= j < i ==> (#[trigger] outcomes@[j]).match_found is None,
                Some(found) => exists|k: int|
                    0 <= k < i && #[trigger] outcomes@[k].match_found == Some(found) && forall|
                        j: int,
                    |
                        0 <= j < k ==> (#[trigger] outcomes@[j]).match_found is None,
            },
        decreases outcomes@.len() - i,
    {
        let outcome: WorkerOutcome = outcomes[i];
        assert(outcomes@.take(i + 1).drop_last() =~= outcomes@.take(i as int));
        attempts = attempts.wrapping_add(outcome.attempts);
        if winner.is_none() {
            winner = outcome.match_found;
        }
        i = i + 1;
    }
    assert(outcomes@.take(outcomes@.len() as int) =~= outcomes@);
    match winner {
        Some((nonce, words)) => Ok((nonce, words, attempts)),
        None => Err(MineError::Exhausted),
    }
}

/// Every nonce is in exactly one worker's sequence, at exactly one place.
pub proof fn nonces_are_shared_out(threads: nat, nonce: u64, worker: nat, index: nat)
    requires
        0 < threads,
    ensures
        worker < threads && nonce == worker + index * threads <==> worker == nonce as nat % threads
            && index == nonce as nat / threads,
{
    vstd::arithmetic::div_mod::lemma_fundamental_div_mod(nonce as int, threads as int);
    assert(threads * (nonce as nat / threads) == (nonce as nat / threads) * threads)
        by (nonlinear_arith);
    if worker < threads && nonce == worker + index * threads {
        vstd::arithmetic::div_mod::lemma_fundamental_div_mod_converse(
            nonce as int,
            threads as int,
            index as int,
            worker as int,
        );
    }
}

/// The candidates that some runs have hashed.
pub open spec fn tried_by<H: PreparedHash>(runs: Seq<WorkerRun<H>>) -> nat
    decreases runs.len(),
{
    if runs.len() == 0 {
        0
    } else {
        tried_by(runs.drop_last()) + runs.last().worker().tried()
    }
}

/// The run of worker number `w` in the search for a request.
pub open spec fn member<H: PreparedHash>(
    request: MineRequest<'_>,
    run: WorkerRun<H>,
    w: int,
) -> bool {
    &&& run.inv()
    &&& run.worker().start() == w
    &&& run.worker().step() == request.threads
    &&& run.worker().prefix() == request.object_prefix@
    &&& run.target() == request.target
    &&& run.prefix_len() == request.prefix_len
}

/// A run's part in a search that has been claimed or not: it has the claim only where there is
/// one and it was told of no other, and it is told of a claim only where there is one.
pub open spec fn fair_to<H: PreparedHash>(run: WorkerRun<H>, reply: bool, claimed: bool) -> bool {
    &&& run.has_claim(reply) ==> claimed && !run.beaten()
    &&& run.beaten() || run.learns(reply) ==> claimed
}

/// The runs of one search, with the replies that they have yet to take in, and whether the search
/// is claimed: it is claimed for exactly one run, or for none.
pub open spec fn fair<H: PreparedHash>(
    request: MineRequest<'_>,
    runs: Seq<WorkerRun<H>>,
    replies: Seq<bool>,
    claimed: bool,
) -> bool {
    &&& runs.len() == request.threads
    &&& replies.len() == request.threads
    &&& forall|w: int|
        0 <= w < runs.len() ==> member(request, #[trigger] runs[w], w) && fair_to(
            runs[w],
            replies[w],
            claimed,
        )
    &&& claimed ==> exists|w: int|
        0 <= w < runs.len() && (#[trigger] runs[w]).has_claim(replies[w])
    &&& forall|v: int, w: int|
        0 <= v < w < runs.len() ==> !((#[trigger] runs[v]).has_claim(replies[v]) && (
        #[trigger] runs[w]).has_claim(replies[w]))
}

/// What there is in reply to an action: a claim is granted unless the search is claimed already,
/// and a look shows no claim that was not made. A claim may show late.
pub open spec fn replied(action: WorkerAction, reply: bool, before: bool, after: bool) -> bool {
    match action {
        WorkerAction::Claim => reply == !before && after,
        WorkerAction::Look => (reply ==> before) && after == before,
        WorkerAction::Stop => after == before,
    }
}

/// Whichever run goes on next: the search stays claimed for exactly one run, or for none.
pub proof fn turns_keep_the_claim_fair<H: PreparedHash>(
    request: MineRequest<'_>,
    runs: Seq<WorkerRun<H>>,
    replies: Seq<bool>,
    claimed: bool,
    number: int,
    run: WorkerRun<H>,
    action: WorkerAction,
    reply: bool,
    claimed_after: bool,
)
    requires
        fair(request, runs, replies, claimed),
        0 <= number < runs.len(),
        runs[number].goes_on(replies[number], &run, action),
        replied(action, reply, claimed, claimed_after),
    ensures
        fair(request, runs.update(number, run), replies.update(number, reply), claimed_after),
{
    let runs_after = runs.update(number, run);
    let replies_after = replies.update(number, reply);
    let before = runs[number];
    assert(member(request, before, number) && fair_to(before, replies[number], claimed));
    assert(before.has_claim(replies[number]) ==> run.has_claim(reply));
    assert(run.has_claim(reply) ==> before.has_claim(replies[number]) || !claimed);
    assert forall|w: int| 0 <= w < runs_after.len() implies member(
        request,
        #[trigger] runs_after[w],
        w,
    ) && fair_to(runs_after[w], replies_after[w], claimed_after) by {
        assert(member(request, runs[w], w) && fair_to(runs[w], replies[w], claimed));
    }
    if claimed {
        let w = choose|w: int| 0 <= w < runs.len() && (#[trigger] runs[w]).has_claim(replies[w]);
        assert(runs_after[w].has_claim(replies_after[w]));
    } else if claimed_after {
        assert(runs_after[number].has_claim(replies_after[number]));
    }
    assert forall|v: int, w: int| 0 <= v < w < runs_after.len() implies !((
    #[trigger] runs_after[v]).has_claim(replies_after[v]) && (
    #[trigger] runs_after[w]).has_claim(replies_after[w])) by {
        assert(fair_to(runs[v], replies[v], claimed) && fair_to(runs[w], replies[w], claimed));
    }
}

/// All runs together have hashed no more candidates than there are nonces, and fewer where one of
/// them has nonces left; each has hashed one, and that run one for each of its nonces up to its
/// current one.
proof fn lemma_tried_bounds<H: PreparedHash>(
    request: MineRequest<'_>,
    runs: Seq<WorkerRun<H>>,
    number: int,
    count: nat,
)
    requires
        runs.len() == request.threads,
        forall|w: int|
            0 <= w < runs.len() ==> member(request, #[trigger] runs[w], w)
                && runs[w].asked() is Some,
        0 <= number < runs.len(),
        runs[number].worker().pending(),
        count <= runs.len(),
    ensures
        ({
            let threads = request.threads as nat;
            let worker = runs[number].worker();
            let spare: int = if number < count && worker.nth(worker.index() + 1) <= u64::MAX {
                1
            } else {
                0
            };
            let more: nat = if number < count {
                worker.index()
            } else {
                0
            };
            &&& tried_by(runs.take(count as int)) + spare <= count * (nonce_count() / threads) + (
            if count < nonce_count() % threads {
                count
            } else {
                nonce_count() % threads
            })
            &&& tried_by(runs.take(count as int)) >= count + more
        }),
    decreases count,
{
    let threads = request.threads as nat;
    let q: nat = nonce_count() / threads;
    let r: nat = nonce_count() % threads;
    if count == 0 {
        assert(0 * q == 0) by (nonlinear_arith);
    } else {
        let last = (count - 1) as nat;
        lemma_tried_bounds(request, runs, number, last);
        assert(runs.take(count as int).drop_last() =~= runs.take(last as int));
        let run = runs[last as int];
        assert(member(request, run, last as int));
        let worker = run.worker();
        let reached: nat = if last == number && worker.nth(worker.index() + 1) <= u64::MAX {
            worker.index() + 1
        } else {
            worker.index()
        };
        assert(worker.nth(reached) <= u64::MAX);
        vstd::arithmetic::div_mod::lemma_fundamental_div_mod(
            nonce_count() as int,
            threads as int,
        );
        assert(reached + 1 <= q + (if last < r {
            1int
        } else {
            0
        })) by (nonlinear_arith)
            requires
                last + reached * threads < nonce_count(),
                nonce_count() == threads * q + r,
                0 <= r < threads,
                0 <= last < threads,
        ;
        assert(count * q == last * q + q) by (nonlinear_arith)
            requires
                count == last + 1,
        ;
    }
}

proof fn lemma_totals_agree<H: PreparedHash>(
    outcomes: Seq<WorkerOutcome>,
    runs: Seq<WorkerRun<H>>,
)
    requires
        outcomes.len() == runs.len(),
        forall|w: int|
            0 <= w < runs.len() ==> counts(
                (#[trigger] runs[w]).worker().tried(),
                outcomes[w].attempts,
            ),
    ensures
        total_attempts(outcomes) % nonce_count() == tried_by(runs) % nonce_count(),
    decreases runs.len(),
{
    if runs.len() > 0 {
        let last = runs.len() - 1;
        let earlier = total_attempts(outcomes.drop_last()) as int;
        let tried_earlier = tried_by(runs.drop_last()) as int;
        assert(counts(runs[last].worker().tried(), outcomes[last].attempts));
        assert forall|w: int| 0 <= w < runs.drop_last().len() implies counts(
            (#[trigger] runs.drop_last()[w]).worker().tried(),
            outcomes.drop_last()[w].attempts,
        ) by {
            assert(runs.drop_last()[w] == runs[w]);
        }
        lemma_totals_agree(outcomes.drop_last(), runs.drop_last());
        vstd::arithmetic::div_mod::lemma_add_mod_noop(
            earlier,
            outcomes[last].attempts as int,
            nonce_count() as int,
        );
        vstd::arithmetic::div_mod::lemma_add_mod_noop(
            tried_earlier,
            runs[last].worker().tried() as int,
            nonce_count() as int,
        );
    }
}

/// The outcomes of some runs.
pub open spec fn outcomes_of<H: PreparedHash>(
    runs: Seq<WorkerRun<H>>,
    outcomes: Seq<WorkerOutcome>,
) -> bool {
    &&& outcomes.len() == runs.len()
    &&& forall|w: int|
        0 <= w < runs.len() ==> counts(
            (#[trigger] runs[w]).worker().tried(),
            outcomes[w].attempts,
        ) && outcomes[w].match_found == runs[w].match_found()
}

/// A run that has found a match without being told of another has won the request.
proof fn lemma_match_is_won<H: PreparedHash>(
    request: MineRequest<'_>,
    runs: Seq<WorkerRun<H>>,
    outcomes: Seq<WorkerOutcome>,
    number: int,
    nonce: u64,
    words: [u32; 8],
    attempts: u64,
)
    requires
        H::format() == request.format,
        runs.len() == request.threads,
        forall|w: int|
            0 <= w < runs.len() ==> member(request, #[trigger] runs[w], w)
                && runs[w].asked() is Some,
        outcomes_of(runs, outcomes),
        0 <= number < runs.len(),
        runs[number].match_found() == Some((nonce, words)),
        !runs[number].beaten(),
        counts(total_attempts(outcomes), attempts),
    ensures
        request.won_by(nonce, attempts),
{
    let threads = request.threads as nat;
    let run = runs[number];
    let worker = run.worker();
    assert(member(request, run, number));
    lemma_totals_agree(outcomes, runs);
    lemma_tried_bounds(request, runs, number, threads);
    assert(runs.take(threads as int) =~= runs);
    vstd::arithmetic::div_mod::lemma_fundamental_div_mod(nonce_count() as int, threads as int);
    nonces_are_shared_out(threads, nonce, number as nat, worker.index());
    assert((worker.index() + 1) * threads == worker.index() * threads + threads)
        by (nonlinear_arith);
    assert forall|i: nat| i < nonce as nat / threads implies !request.wins(
        #[trigger] nonce_at(nonce as nat % threads, threads, i),
    ) by {
        assert(worker.nth(i) == nonce_at(nonce as nat % threads, threads, i));
    }
    assert(counts(tried_by(runs), attempts));
    if threads == 1 {
        assert(runs.drop_last() =~= Seq::<WorkerRun<H>>::empty());
        assert(tried_by(runs.drop_last()) == 0);
        assert(worker.index() * 1 == worker.index()) by (nonlinear_arith);
    }
}

/// Runs that have all ended without a match or word of one have tried every nonce.
proof fn lemma_no_match_is_hopeless<H: PreparedHash>(
    request: MineRequest<'_>,
    runs: Seq<WorkerRun<H>>,
)
    requires
        H::format() == request.format,
        runs.len() == request.threads,
        forall|w: int|
            0 <= w < runs.len() ==> member(request, #[trigger] runs[w], w) && runs[w].asked()
                == Some(WorkerAction::Stop) && runs[w].match_found() is None && !runs[w].beaten(),
    ensures
        request.hopeless(),
{
    let threads = request.threads as nat;
    if threads > 0 {
        assert forall|nonce: int| 0 <= nonce <= u64::MAX implies !#[trigger] request.wins(
            nonce,
        ) by {
            let w = nonce % threads as int;
            let i = (nonce / threads as int) as nat;
            nonces_are_shared_out(threads, nonce as u64, w as nat, i);
            let run = runs[w];
            let worker = run.worker();
            assert(member(request, run, w) && run.exhausted());
            assert(worker.nth(i) == nonce);
            assert(i <= worker.index()) by (nonlinear_arith)
                requires
                    w + i * threads <= u64::MAX,
                    w + worker.index() * threads + threads > u64::MAX,
                    threads > 0,
            ;
            if i < worker.index() {
                assert(worker.none_wins(0, worker.index(), request.target, request.prefix_len));
            }
        }
    }
}

/// However the runs of a search have taken turns: once all have ended, their outcomes put
/// together are what the search may come to.
pub proof fn finished_search_is_settled<H: PreparedHash>(
    request: MineRequest<'_>,
    runs: Seq<WorkerRun<H>>,
    replies: Seq<bool>,
    claimed: bool,
    outcomes: Seq<WorkerOutcome>,
    r: Result<(u64, [u32; 8], u64), MineError>,
)
    requires
        H::format() == request.format,
        fair(request, runs, replies, claimed),
        forall|w: int|
            0 <= w < runs.len() ==> (#[trigger] runs[w]).asked() == Some(WorkerAction::Stop),
        outcomes_of(runs, outcomes),
        collected(outcomes, r),
    ensures
        request.settled_by(r),
{
    match r {
        Ok((nonce, words, attempts)) => {
            let number = choose|i: int|
                0 <= i < outcomes.len() && #[trigger] outcomes[i].match_found == Some(
                    (nonce, words),
                ) && forall|j: int| 0 <= j < i ==> (#[trigger] outcomes[j]).match_found is None;
            assert(member(request, runs[number], number) && fair_to(
                runs[number],
                replies[number],
                claimed,
            ));
            lemma_match_is_won(request, runs, outcomes, number, nonce, words, attempts);
        },
        Err(_) => {
            assert forall|w: int| 0 <= w < runs.len() implies member(request, #[trigger] runs[w], w)
                && runs[w].asked() == Some(WorkerAction::Stop) && runs[w].match_found() is None
                && !runs[w].beaten() by {
                assert(outcomes[w].match_found is None);
                assert(fair_to(runs[w], replies[w], claimed));
                if claimed {
                    let v = choose|v: int|
                        0 <= v < runs.len() && (#[trigger] runs[v]).has_claim(replies[v]);
                    assert(outcomes[v].match_found is None);
                }
            }
            lemma_no_match_is_hopeless(request, runs);
        },
    }
}

/// How far a run has come. It comes further with each action but the last.
spec fn progress<H: PreparedHash>(run: WorkerRun<H>) -> nat {
    2 * run.worker().tried() + if run.asked() == Some(WorkerAction::Look) {
        1nat
    } else {
        0
    }
}

proof fn lemma_progress<H: PreparedHash>(
    before: WorkerRun<H>,
    reply: bool,
    after: WorkerRun<H>,
    action: WorkerAction,
)
    requires
        before.inv(),
        before.goes_on(reply, &after, action),
        action != WorkerAction::Stop,
    ensures
        progress(after) > progress(before),
        progress(after) <= 2 * nonce_count() + 1,
{
    let worker = after.worker();
    assert(worker.index() * worker.step() >= worker.index()) by (nonlinear_arith)
        requires
            worker.step() > 0,
    ;
}

/// The nonces of worker `w` out of `threads`.
spec fn share(threads: int, w: int) -> int {
    (u64::MAX - w) / threads + 1
}

/// The candidates that worker `w` hashes where the given nonce wins.
spec fn hashed(threads: int, winner: u64, w: int) -> int {
    let index = winner as int / threads;
    let limit = closing_limit(threads, winner, w);
    if w == winner as int % threads {
        index + 1
    } else if share(threads, w) < limit {
        share(threads, w)
    } else {
        limit
    }
}

/// The number of candidates at which worker `w` stops, unless its nonces end before.
spec fn closing_limit(threads: int, winner: u64, w: int) -> int {
    let round = winner as int / threads / BATCH_LEN as int;
    BATCH_LEN * (round + if w < winner as int % threads {
        2int
    } else {
        1
    })
}

spec fn hashed_by(threads: int, winner: u64, count: nat) -> int
    decreases count,
{
    if count == 0 {
        0
    } else {
        hashed_by(threads, winner, (count - 1) as nat) + hashed(threads, winner, count - 1)
    }
}

/// A run between two batches, with nothing heard of a claim, or at the end of its nonces.
spec fn rested<H: PreparedHash>(run: WorkerRun<H>, reply: bool, limit: int) -> bool {
    let worker = run.worker();
    if run.asked() == Some(WorkerAction::Stop) {
        worker.tried() == share(worker.step() as int, worker.start() as int) <= limit
    } else {
        &&& run.asked() is None || run.asked() == Some(WorkerAction::Look)
        &&& !reply
        &&& worker.ready()
        &&& worker.batch_left() == BATCH_LEN
        &&& worker.tried() == limit
    }
}

/// A run that is in its last batch, or about to begin it, or at its end.
spec fn closing<H: PreparedHash>(run: WorkerRun<H>, reply: bool, limit: int) -> bool {
    let worker = run.worker();
    let all = share(worker.step() as int, worker.start() as int);
    match run.asked() {
        Some(WorkerAction::Stop) => worker.tried() == if all < limit {
            all
        } else {
            limit
        },
        Some(WorkerAction::Claim) => !reply && worker.tried() + worker.batch_left() == limit,
        Some(WorkerAction::Look) if reply => worker.tried() == limit,
        _ => rested(run, reply, limit - BATCH_LEN),
    }
}

proof fn lemma_share<H: PreparedHash>(worker: Worker<H>)
    requires
        worker.inv(),
        worker.start() < worker.step(),
    ensures
        worker.tried() <= share(worker.step() as int, worker.start() as int),
        worker.nth(worker.index() + 1) > u64::MAX ==> worker.index() + 1 == share(
            worker.step() as int,
            worker.start() as int,
        ),
{
    let (step, start, index) = (worker.step() as int, worker.start() as int, worker.index() as int);
    let rest = u64::MAX - start;
    assert(worker.nth(worker.index()) <= u64::MAX);
    assert((index + 1) * step == index * step + step) by (nonlinear_arith);
    vstd::arithmetic::div_mod::lemma_fundamental_div_mod(rest, step);
    assert(index <= rest / step) by (nonlinear_arith)
        requires
            index * step <= rest,
            rest == step * (rest / step) + rest % step,
            0 <= rest % step < step,
    ;
    if worker.nth(worker.index() + 1) > u64::MAX {
        assert(index >= rest / step) by (nonlinear_arith)
            requires
                index * step + step > rest,
                rest == step * (rest / step) + rest % step,
                0 <= rest % step < step,
        ;
    }
}

proof fn lemma_rested_goes_on<H: PreparedHash>(
    before: WorkerRun<H>,
    reply: bool,
    after: WorkerRun<H>,
    action: WorkerAction,
    limit: int,
)
    requires
        before.inv(),
        before.worker().start() < before.worker().step(),
        rested(before, reply, limit),
        before.goes_on(reply, &after, action),
    ensures
        match action {
            WorkerAction::Claim => {
                let worker = after.worker();
                worker.tried() + worker.batch_left() == limit + BATCH_LEN && worker.tried() > limit
            },
            _ => rested(after, false, limit + BATCH_LEN),
        },
{
    lemma_share(after.worker());
}

proof fn lemma_closing_goes_on<H: PreparedHash>(
    before: WorkerRun<H>,
    reply: bool,
    after: WorkerRun<H>,
    action: WorkerAction,
    answer: bool,
    limit: int,
)
    requires
        before.inv(),
        before.worker().start() < before.worker().step(),
        before.match_found() is None,
        closing(before, reply, limit),
        before.goes_on(reply, &after, action),
        action == WorkerAction::Claim ==> !answer,
        action == WorkerAction::Look ==> answer,
    ensures
        closing(after, answer, limit),
{
    lemma_share(before.worker());
    lemma_share(after.worker());
}

/// The state of a search that is claimed for the run `winner`.
spec fn claimed_for<H: PreparedHash>(
    request: MineRequest<'_>,
    runs: Seq<WorkerRun<H>>,
    replies: Seq<bool>,
    winner: int,
    nonce: u64,
) -> bool {
    let threads = request.threads as int;
    &&& 0 <= winner < runs.len()
    &&& runs[winner].has_claim(replies[winner])
    &&& runs[winner].worker().pending()
    &&& runs[winner].worker().nth(runs[winner].worker().index()) == nonce
    &&& forall|w: int|
        0 <= w < runs.len() && w != winner ==> closing(
            #[trigger] runs[w],
            replies[w],
            closing_limit(threads, nonce, w),
        )
    &&& forall|other: int|
        0 <= other <= u64::MAX && request.comes_before(other, nonce as int)
            ==> !#[trigger] request.wins(other)
}

/// Before a claim every run has left behind none but nonces that do not win.
proof fn lemma_nothing_wins_before<H: PreparedHash>(
    request: MineRequest<'_>,
    runs: Seq<WorkerRun<H>>,
    replies: Seq<bool>,
    number: int,
    round: nat,
    run: WorkerRun<H>,
    nonce: u64,
)
    requires
        H::format() == request.format,
        fair(request, runs, replies, false),
        0 <= number < runs.len(),
        forall|w: int|
            0 <= w < runs.len() ==> rested(
                #[trigger] runs[w],
                replies[w],
                BATCH_LEN * (round + if w < number {
                    1int
                } else {
                    0
                }),
            ),
        runs[number].goes_on(replies[number], &run, WorkerAction::Claim),
        nonce == run.worker().nth(run.worker().index()),
        !run.beaten(),
    ensures
        nonce as int % request.threads as int == number,
        nonce as int / request.threads as int == run.worker().index(),
        request.batch_of(nonce as int) == round,
        forall|other: int|
            0 <= other <= u64::MAX && request.comes_before(other, nonce as int)
                ==> !#[trigger] request.wins(other),
{
    let threads = request.threads as nat;
    assert(member(request, runs[number], number));
    let worker = run.worker();
    lemma_rested_goes_on(
        runs[number],
        replies[number],
        run,
        WorkerAction::Claim,
        BATCH_LEN * round as int,
    );
    nonces_are_shared_out(threads, nonce, number as nat, worker.index());
    assert(worker.index() as int / BATCH_LEN as int == round) by {
        vstd::arithmetic::div_mod::lemma_fundamental_div_mod_converse(
            worker.index() as int,
            BATCH_LEN as int,
            round as int,
            worker.index() - BATCH_LEN * round,
        );
    }
    assert forall|other: int|
        0 <= other <= u64::MAX && request.comes_before(
            other,
            nonce as int,
        ) implies !#[trigger] request.wins(other) by {
        let w = other % threads as int;
        let i = other / threads as int;
        nonces_are_shared_out(threads, other as u64, w as nat, i as nat);
        let earlier = runs[w];
        assert(member(request, earlier, w) && fair_to(earlier, replies[w], false));
        assert(earlier.worker().nth(i as nat) == other);
        vstd::arithmetic::div_mod::lemma_fundamental_div_mod(i, BATCH_LEN as int);
        lemma_share(earlier.worker());
        if w == number {
            assert(run.worker().nth(i as nat) == other);
            if other < nonce {
                assert(i < worker.index()) by (nonlinear_arith)
                    requires
                        other == w + i * threads,
                        nonce == w + worker.index() * threads,
                        other < nonce,
                        threads > 0,
                ;
            }
            assert(worker.none_wins(0, worker.index(), request.target, request.prefix_len));
        } else if earlier.asked() == Some(WorkerAction::Stop) {
            assert(earlier.exhausted());
            let last = earlier.worker().index();
            assert(i <= last) by {
                lemma_index_in_share(threads as int, w, i);
            }
            assert(earlier.worker().none_wins(0, last, request.target, request.prefix_len));
        } else {
            assert(i < earlier.worker().index());
            assert(earlier.worker().none_wins(
                0,
                earlier.worker().index(),
                request.target,
                request.prefix_len,
            ));
        }
    }
}

proof fn lemma_index_in_share(threads: int, w: int, i: int)
    requires
        0 <= w < threads,
        0 <= i,
        w + i * threads <= u64::MAX,
    ensures
        i < share(threads, w),
{
    let rest = u64::MAX - w;
    vstd::arithmetic::div_mod::lemma_fundamental_div_mod(rest, threads);
    assert(i <= rest / threads) by (nonlinear_arith)
        requires
            i * threads <= rest,
            rest == threads * (rest / threads) + rest % threads,
            0 <= rest % threads < threads,
    ;
}

/// A run's numbers below a bound stand for as many nonces.
proof fn lemma_row_len(threads: int, w: int, count: nat)
    requires
        0 <= w < threads,
    ensures
        row(threads, w, count as int).finite(),
        row(threads, w, count as int).len() == count,
    decreases count,
{
    if count == 0 {
        assert(row(threads, w, 0) =~= Set::<int>::empty()) by {
            assert forall|n: int| !row(threads, w, 0).contains(n) by {
                if row(threads, w, 0).contains(n) {
                    vstd::arithmetic::div_mod::lemma_div_pos_is_pos(n, threads);
                }
            }
        }
    } else {
        let last = (count - 1) as nat;
        lemma_row_len(threads, w, last);
        let added = w + last * threads;
        assert(last * threads >= 0) by (nonlinear_arith)
            requires
                threads > 0,
        ;
        vstd::arithmetic::div_mod::lemma_fundamental_div_mod_converse(
            added,
            threads,
            last as int,
            w,
        );
        assert(row(threads, w, count as int) =~= row(threads, w, last as int).insert(added)) by {
            assert forall|n: int| #[trigger]
                row(threads, w, count as int).contains(n) implies row(
                threads,
                w,
                last as int,
            ).insert(added).contains(n) by {
                vstd::arithmetic::div_mod::lemma_fundamental_div_mod(n, threads);
                if n / threads == last {
                    assert(threads * last == last * threads) by (nonlinear_arith);
                }
            }
        }
    }
}

/// The first nonces of a worker.
spec fn row(threads: int, w: int, count: int) -> Set<int> {
    Set::new(|n: int| 0 <= n && n % threads == w && n / threads < count)
}

/// The first nonces of the first workers, where the given nonce wins.
spec fn rows(threads: int, winner: u64, count: nat) -> Set<int> {
    Set::new(
        |n: int|
            0 <= n && n % threads < count && n / threads < hashed(threads, winner, n % threads),
    )
}

proof fn lemma_rows_len(threads: int, winner: u64, count: nat)
    requires
        0 < threads <= u64::MAX,
        count <= threads,
    ensures
        rows(threads, winner, count).finite(),
        rows(threads, winner, count).len() == hashed_by(threads, winner, count),
        hashed_by(threads, winner, count) >= 0,
    decreases count,
{
    if count == 0 {
        assert(rows(threads, winner, 0) =~= Set::<int>::empty());
    } else {
        let last = (count - 1) as nat;
        lemma_rows_len(threads, winner, last);
        lemma_hashed_positive(threads, winner, last as int);
        let some = hashed(threads, winner, last as int);
        lemma_row_len(threads, last as int, some as nat);
        let before = rows(threads, winner, last);
        let added = row(threads, last as int, some);
        assert(rows(threads, winner, count) =~= before.union(added));
        assert(before.disjoint(added));
        vstd::set_lib::lemma_set_disjoint_lens(before, added);
    }
}

proof fn lemma_hashed_positive(threads: int, winner: u64, w: int)
    requires
        0 <= w < threads <= u64::MAX,
    ensures
        0 < hashed(threads, winner, w) <= share(threads, w),
{
    let index = winner as int / threads;
    vstd::arithmetic::div_mod::lemma_div_pos_is_pos(winner as int, threads);
    vstd::arithmetic::div_mod::lemma_div_pos_is_pos(index, BATCH_LEN as int);
    vstd::arithmetic::div_mod::lemma_div_pos_is_pos(u64::MAX - w, threads);
    if w == winner as int % threads {
        vstd::arithmetic::div_mod::lemma_fundamental_div_mod(winner as int, threads);
        assert(threads * index == index * threads) by (nonlinear_arith);
        lemma_index_in_share(threads, w, index);
    }
}

/// The nonces hashed in turns are the first of each worker.
proof fn lemma_hashed_nonces(request: MineRequest<'_>, winner: u64)
    requires
        request.threads > 0,
    ensures
        request.hashed_nonces(winner).finite(),
        request.hashed_nonces(winner).len() == hashed_by(
            request.threads as int,
            winner,
            request.threads as nat,
        ),
{
    let threads = request.threads as int;
    let index = winner as int / threads;
    lemma_rows_len(threads, winner, threads as nat);
    vstd::arithmetic::div_mod::lemma_fundamental_div_mod(winner as int, threads);
    vstd::arithmetic::div_mod::lemma_fundamental_div_mod(index, BATCH_LEN as int);
    assert(request.hashed_nonces(winner) =~= rows(threads, winner, threads as nat)) by {
        assert forall|n: int| #[trigger] request.hashed_nonces(winner).contains(n) == rows(
            threads,
            winner,
            threads as nat,
        ).contains(n) by {
            if 0 <= n {
                let w = n % threads;
                let i = n / threads;
                vstd::arithmetic::div_mod::lemma_fundamental_div_mod(n, threads);
                vstd::arithmetic::div_mod::lemma_div_pos_is_pos(n, threads);
                vstd::arithmetic::div_mod::lemma_fundamental_div_mod(i, BATCH_LEN as int);
                assert(threads * i == i * threads) by (nonlinear_arith);
                assert(threads * index == index * threads) by (nonlinear_arith);
                lemma_hashed_positive(threads, winner, w);
                lemma_share_ends(threads, w, i);
                if n <= u64::MAX {
                    lemma_index_in_share(threads, w, i);
                }
                if w == winner as int % threads {
                    assert(n <= winner <==> i <= index) by (nonlinear_arith)
                        requires
                            n == i * threads + w,
                            winner == index * threads + w,
                            threads > 0,
                    ;
                }
            }
        }
    }
}

proof fn lemma_share_ends(threads: int, w: int, i: int)
    requires
        0 <= w < threads <= u64::MAX,
        0 <= i,
    ensures
        i < share(threads, w) ==> w + i * threads <= u64::MAX,
{
    let rest = u64::MAX - w;
    vstd::arithmetic::div_mod::lemma_fundamental_div_mod(rest, threads);
    if i < share(threads, w) {
        assert(i * threads <= rest) by (nonlinear_arith)
            requires
                i <= rest / threads,
                rest == threads * (rest / threads) + rest % threads,
                0 <= rest % threads,
                threads > 0,
        ;
    }
}

proof fn lemma_tried_as_hashed<H: PreparedHash>(
    request: MineRequest<'_>,
    runs: Seq<WorkerRun<H>>,
    nonce: u64,
    count: nat,
)
    requires
        count <= runs.len(),
        forall|w: int|
            0 <= w < runs.len() ==> (#[trigger] runs[w]).worker().tried() == hashed(
                request.threads as int,
                nonce,
                w,
            ),
    ensures
        tried_by(runs.take(count as int)) == hashed_by(request.threads as int, nonce, count),
    decreases count,
{
    if count > 0 {
        let last = (count - 1) as nat;
        lemma_tried_as_hashed(request, runs, nonce, last);
        assert(runs.take(count as int).drop_last() =~= runs.take(last as int));
        assert(runs.take(count as int).last() == runs[last as int]);
    }
}

/// A search in turns counts one attempt for each candidate that its workers hash: no fewer than
/// one for each worker and for each nonce of the winner up to the one that wins, and no more than
/// that with two batches for each worker.
pub proof fn attempts_are_counted(request: MineRequest<'_>, nonce: u64, attempts: u64)
    requires
        request.threads > 0,
        request.won_in_turns(nonce, attempts),
    ensures
        ({
            let threads = request.threads as int;
            let index = nonce as int / threads;
            let most = threads * (index + 2 * BATCH_LEN);
            &&& most < nonce_count() ==> index + threads <= attempts <= most
            &&& request.threads == 1 && nonce < u64::MAX ==> attempts == nonce + 1
        }),
{
    let threads = request.threads as int;
    let index = nonce as int / threads;
    vstd::arithmetic::div_mod::lemma_div_pos_is_pos(nonce as int, threads);
    lemma_hashed_nonces(request, nonce);
    lemma_hashed_sum(threads, nonce, threads as nat);
    vstd::arithmetic::div_mod::lemma_fundamental_div_mod(nonce as int, threads);
    let total = hashed_by(threads, nonce, threads as nat);
    if threads * (index + 2 * BATCH_LEN) < nonce_count() {
        vstd::arithmetic::div_mod::lemma_small_mod(total as nat, nonce_count());
    }
    if threads == 1 {
        assert(hashed_by(threads, nonce, 0) == 0);
        assert(nonce as int % 1 == 0);
        assert(nonce as int / 1 == nonce);
        assert(total == nonce + 1);
        if nonce < u64::MAX {
            vstd::arithmetic::div_mod::lemma_small_mod(total as nat, nonce_count());
        }
    }
}

proof fn lemma_hashed_sum(threads: int, winner: u64, count: nat)
    requires
        0 < threads <= u64::MAX,
        count <= threads,
    ensures
        ({
            let index = winner as int / threads;
            &&& hashed_by(threads, winner, count) <= count * (index + 2 * BATCH_LEN)
            &&& hashed_by(threads, winner, count) >= count + if winner as int % threads < count {
                index
            } else {
                0
            }
        }),
    decreases count,
{
    let index = winner as int / threads;
    vstd::arithmetic::div_mod::lemma_div_pos_is_pos(winner as int, threads);
    if count == 0 {
        assert(0 * (index + 2 * BATCH_LEN) == 0) by (nonlinear_arith);
        assert(winner as int % threads >= 0);
    } else {
        let last = (count - 1) as nat;
        lemma_hashed_sum(threads, winner, last);
        lemma_hashed_positive(threads, winner, last as int);
        vstd::arithmetic::div_mod::lemma_fundamental_div_mod(index, BATCH_LEN as int);
        assert(count * (index + 2 * BATCH_LEN) == last * (index + 2 * BATCH_LEN) + (index + 2
            * BATCH_LEN)) by (nonlinear_arith)
            requires
                count == last + 1,
        ;
    }
}

/// Lets the workers take turns until all have ended: because one of them has claimed the search,
/// or because no nonce is left.
pub fn mine_prepared<H: PreparedHash>(prepared: H, request: &MineRequest<'_>) -> (r: Result<
    (u64, [u32; 8], u64),
    MineError,
>)
    requires
        prepared.inv(),
        prepared.prefix() == request.object_prefix@,
        H::format() == request.format,
        1 <= request.prefix_len <= 8,
    ensures
        request.settled_by(r),
        r matches Ok((nonce, _, attempts)) ==> request.won_in_turns(nonce, attempts),
{
    let threads: usize = request.threads;
    let mut runs: Vec<WorkerRun<H>> = Vec::new();
    let mut replies: Vec<bool> = Vec::new();
    while runs.len() < threads
        invariant
            runs@.len() <= threads,
            replies@.len() == runs@.len(),
            threads == request.threads,
            prepared.inv(),
            prepared.prefix() == request.object_prefix@,
            1 <= request.prefix_len <= 8,
            forall|w: int|
                0 <= w < runs@.len() ==> member(*request, #[trigger] runs@[w], w)
                    && runs@[w].asked() is None && runs@[w].match_found() is None
                    && !runs@[w].beaten() && rested(runs@[w], replies@[w], 0),
        decreases threads - runs@.len(),
    {
        let number: usize = runs.len();
        runs.push(WorkerRun::new(prepared, number, threads, request.target, request.prefix_len));
        replies.push(false);
    }
    let mut claimed: bool = false;
    let mut active: bool = threads > 0;
    let ghost mut round: nat = 0;
    let ghost mut winner: int = 0;
    let ghost mut won: u64 = 0;
    while active
        invariant
            H::format() == request.format,
            fair(*request, runs@, replies@, claimed),
            claimed ==> claimed_for(*request, runs@, replies@, winner, won),
            !claimed ==> forall|w: int|
                0 <= w < threads ==> rested(#[trigger] runs@[w], replies@[w], BATCH_LEN * round),
            threads == request.threads,
            active ==> round <= 2 * nonce_count() + 1,
            forall|w: int|
                0 <= w < threads ==> (#[trigger] runs@[w]).asked() == Some(WorkerAction::Stop) || (
                active && progress(runs@[w]) >= round),
        decreases
                if active {
                    2 * nonce_count() + 2 - round
                } else {
                    0
                },
    {
        active = false;
        let mut number: usize = 0;
        while number < threads
            invariant
                number <= threads,
                H::format() == request.format,
                fair(*request, runs@, replies@, claimed),
                claimed ==> claimed_for(*request, runs@, replies@, winner, won),
                !claimed ==> forall|w: int|
                    0 <= w < threads ==> rested(
                        #[trigger] runs@[w],
                        replies@[w],
                        BATCH_LEN * (round + if w < number {
                            1int
                        } else {
                            0
                        }),
                    ),
                threads == request.threads,
                active ==> round + 1 <= 2 * nonce_count() + 1,
                forall|w: int|
                    0 <= w < threads ==> (#[trigger] runs@[w]).asked() == Some(WorkerAction::Stop)
                        || (progress(runs@[w]) >= round + if w < number {
                        1int
                    } else {
                        0
                    } && (w < number ==> active)),
            decreases threads - number,
        {
            let ghost before = runs@;
            let ghost told = replies@;
            let ghost claimed_before = claimed;
            assert(member(*request, runs@[number as int], number as int));
            let action: WorkerAction = runs[number].proceed(replies[number]);
            match action {
                WorkerAction::Claim => {
                    replies.set(number, !claimed);
                    claimed = true;
                    active = true;
                },
                WorkerAction::Look => {
                    replies.set(number, claimed);
                    active = true;
                },
                WorkerAction::Stop => {},
            }
            proof {
                let run = runs@[number as int];
                let reply = replies@[number as int];
                assert(runs@ =~= before.update(number as int, run));
                assert(replies@ =~= told.update(number as int, reply));
                turns_keep_the_claim_fair(
                    *request,
                    before,
                    told,
                    claimed_before,
                    number as int,
                    run,
                    action,
                    reply,
                    claimed,
                );
                if action != WorkerAction::Stop {
                    lemma_progress(before[number as int], told[number as int], run, action);
                }
                let from = before[number as int];
                assert(member(*request, from, number as int));
                if claimed_before {
                    if number == winner {
                        assert(fair_to(from, told[winner], true));
                    } else {
                        assert(from.match_found() is None) by {
                            assert(before[winner].has_claim(told[winner]));
                            assert(!from.has_claim(told[number as int])) by {
                                if number < winner {
                                    assert(!(before[number as int].has_claim(told[number as int])
                                        && before[winner].has_claim(told[winner])));
                                } else {
                                    assert(!(before[winner].has_claim(told[winner])
                                        && before[number as int].has_claim(told[number as int])));
                                }
                            }
                        }
                        let limit = closing_limit(threads as int, won, number as int);
                        assert(closing(from, told[number as int], limit));
                        lemma_closing_goes_on(
                            from,
                            told[number as int],
                            run,
                            action,
                            reply,
                            limit,
                        );
                    }
                } else {
                    let limit = BATCH_LEN * round as int;
                    assert(rested(from, told[number as int], limit));
                    assert(fair_to(from, told[number as int], false));
                    lemma_rested_goes_on(from, told[number as int], run, action, limit);
                    if claimed {
                        winner = number as int;
                        won = run.worker().nth(run.worker().index()) as u64;
                        assert(member(*request, run, number as int));
                        lemma_nothing_wins_before(
                            *request,
                            before,
                            told,
                            winner,
                            round,
                            run,
                            won,
                        );
                        assert forall|w: int| 0 <= w < runs@.len() && w != winner implies closing(
                            #[trigger] runs@[w],
                            replies@[w],
                            closing_limit(threads as int, won, w),
                        ) by {
                            assert(runs@[w] == before[w]);
                            assert(rested(before[w], told[w], BATCH_LEN * (round + if w < number {
                                1int
                            } else {
                                0
                            })));
                        }
                    }
                }
                assert forall|w: int| 0 <= w < threads && w != number implies #[trigger] runs@[w]
                    == before[w] by {}
            }
            number = number + 1;
        }
        proof {
            round = round + 1;
        }
    }
    let mut outcomes: Vec<WorkerOutcome> = Vec::new();
    while outcomes.len() < runs.len()
        invariant
            outcomes@.len() <= runs@.len(),
            fair(*request, runs@, replies@, claimed),
            forall|w: int|
                0 <= w < outcomes@.len() ==> counts(
                    (#[trigger] runs@[w]).worker().tried(),
                    outcomes@[w].attempts,
                ) && outcomes@[w].match_found == runs@[w].match_found(),
        decreases runs@.len() - outcomes@.len(),
    {
        let number: usize = outcomes.len();
        assert(member(*request, runs@[number as int], number as int));
        outcomes.push(runs[number].outcome());
    }
    let r: Result<(u64, [u32; 8], u64), MineError> = collect_outcomes(outcomes.as_slice());
    proof {
        finished_search_is_settled(*request, runs@, replies@, claimed, outcomes@, r);
        if let Ok((nonce, words, attempts)) = r {
            let number = choose|i: int|
                0 <= i < outcomes@.len() && #[trigger] outcomes@[i].match_found == Some(
                    (nonce, words),
                ) && forall|j: int| 0 <= j < i ==> (#[trigger] outcomes@[j]).match_found is None;
            assert(runs@[number].has_claim(replies@[number]));
            assert(fair_to(runs@[number], replies@[number], claimed));
            assert(member(*request, runs@[number], number));
            assert(number == winner) by {
                if number < winner {
                    assert(!(runs@[number].has_claim(replies@[number])
                        && runs@[winner].has_claim(replies@[winner])));
                } else if winner < number {
                    assert(!(runs@[winner].has_claim(replies@[winner])
                        && runs@[number].has_claim(replies@[number])));
                }
            }
            assert(won == nonce);
            nonces_are_shared_out(
                threads as nat,
                nonce,
                winner as nat,
                runs@[winner].worker().index(),
            );
            assert forall|w: int| 0 <= w < runs@.len() implies (
            #[trigger] runs@[w]).worker().tried() == hashed(threads as int, nonce, w) by {
                assert(member(*request, runs@[w], w));
                if w != winner {
                    assert(closing(
                        runs@[w],
                        replies@[w],
                        closing_limit(threads as int, nonce, w),
                    ));
                }
            }
            lemma_tried_as_hashed(*request, runs@, nonce, threads as nat);
            assert(runs@.take(threads as int) =~= runs@);
            lemma_hashed_nonces(*request, nonce);
            lemma_totals_agree(outcomes@, runs@);
        }
    }
    r
}

/// Two digits of an object ID spell a byte of the digest, from the first to the last.
pub proof fn oid_spells_the_digest(format: ObjectFormat, object: Seq<u8>, i: int)
    requires
        0 <= i < format.digest(object).len(),
    ensures
        ({
            let text = oid_text(format, object);
            &&& text.len() == 2 * format.digest(object).len()
            &&& crate::hex::hex_value(seq![text[2 * i] as u8, text[2 * i + 1] as u8])
                == format.digest(object)[i]
            &&& crate::hex::is_digit(text[2 * i] as u8)
            &&& crate::hex::is_digit(text[2 * i + 1] as u8)
        }),
{
    let bytes = format.digest(object);
    let digits = crate::hex::hex_bytes(bytes);
    crate::hex::two_digits_spell_each_byte(bytes, i);
    assert(digits.subrange(2 * i, 2 * i + 2) =~= seq![digits[2 * i], digits[2 * i + 1]]);
}

/// The attempts of two groups of workers are those of both, and those of one worker its own.
pub proof fn attempts_add_up(
    outcome: WorkerOutcome,
    first: Seq<WorkerOutcome>,
    second: Seq<WorkerOutcome>,
)
    ensures
        total_attempts(Seq::empty()) == 0,
        total_attempts(seq![outcome]) == outcome.attempts,
        total_attempts(first + second) == total_attempts(first) + total_attempts(second),
    decreases second.len(),
{
    assert(seq![outcome].drop_last() =~= Seq::<WorkerOutcome>::empty());
    reveal_with_fuel(total_attempts, 2);
    if second.len() == 0 {
        assert(first + second =~= first);
    } else {
        attempts_add_up(outcome, first, second.drop_last());
        assert((first + second).drop_last() =~= first + second.drop_last());
    }
}

/// What a search comes to, said of the object IDs: a nonce that it comes to gives an ID that starts
/// with the target's digits, and where it comes to none, there was no worker, or there is no such
/// nonce.
pub proof fn searches_find_ids_with_the_prefix(
    request: MineRequest<'_>,
    nonce: u64,
    attempts: u64,
    other: u64,
)
    requires
        1 <= request.prefix_len <= 8,
        request.target < vstd::arithmetic::power2::pow2(4 * request.prefix_len as nat),
    ensures
        ({
            let prefix = crate::target::prefix_text(request.target, request.prefix_len);
            let id = |n: u64|
                oid_text(
                    request.format,
                    crate::prepared::nonce_message(request.object_prefix@, n),
                );
            &&& request.won_by(nonce, attempts) ==> request.threads > 0 && prefix.is_prefix_of(
                id(nonce),
            )
            &&& request.won_by(nonce, attempts) && other < nonce && other as int
                % request.threads as int == nonce as int % request.threads as int
                ==> !prefix.is_prefix_of(id(other))
            &&& request.hopeless() && request.threads > 0 ==> !prefix.is_prefix_of(id(other))
        }),
{
    let format = request.format;
    let object = request.object_prefix@;
    crate::hex::lemma_pow16_is_pow2(request.prefix_len as nat);
    winning_means_id_starts_with_prefix(
        format,
        object,
        request.target,
        request.prefix_len,
        nonce,
    );
    winning_means_id_starts_with_prefix(
        format,
        object,
        request.target,
        request.prefix_len,
        other,
    );
    if request.hopeless() && request.threads > 0 {
        assert(!request.wins(other as int));
    }
    if request.won_by(nonce, attempts) && other < nonce && other as int % request.threads as int
        == nonce as int % request.threads as int {
        let threads = request.threads as nat;
        let worker = nonce as nat % threads;
        let index = other as nat / threads;
        nonces_are_shared_out(threads, other, worker, index);
        assert(index < nonce as nat / threads) by {
            vstd::arithmetic::div_mod::lemma_fundamental_div_mod(other as int, threads as int);
            vstd::arithmetic::div_mod::lemma_fundamental_div_mod(nonce as int, threads as int);
            let mine = nonce as nat / threads;
            assert(index < mine) by (nonlinear_arith)
                requires
                    threads > 0,
                    threads * index + worker < threads * mine + worker,
            ;
        }
        assert(!request.wins(nonce_at(worker, threads, index)));
    }
}

/// The attempts of a search in turns, where no worker comes to the end of its nonces: the winner
/// has hashed its nonces up to the one that wins, each worker behind it the batch of that turn and
/// all before, and each worker ahead of it one batch more.
pub proof fn attempts_fill_batches(request: MineRequest<'_>, nonce: u64, attempts: u64)
    requires
        request.threads > 0,
        request.won_in_turns(nonce, attempts),
        request.threads * (256 * (nonce as int / request.threads as int / 256 + 2))
            <= 0x1_0000_0000_0000_0000,
    ensures
        ({
            let threads = request.threads as int;
            let worker = nonce as int % threads;
            let index = nonce as int / threads;
            let turn = index / 256;
            attempts == index + 1 + worker * (256 * (turn + 2)) + (threads - 1 - worker) * (256 * (
            turn + 1))
        }),
{
    let threads = request.threads as int;
    let worker = nonce as int % threads;
    let index = nonce as int / threads;
    let turn = index / 256;
    let longer = 256 * (turn + 2);
    let shorter = 256 * (turn + 1);
    vstd::arithmetic::div_mod::lemma_div_pos_is_pos(nonce as int, threads);
    vstd::arithmetic::div_mod::lemma_mod_bound(nonce as int, threads);
    lemma_hashed_nonces(request, nonce);
    lemma_full_batches(threads, nonce, threads as nat);
    let total = index + 1 + worker * longer + (threads - 1 - worker) * shorter;
    assert(0 <= total < threads * longer) by (nonlinear_arith)
        requires
            0 <= index < shorter,
            longer == shorter + 256,
            0 <= worker < threads,
            total == index + 1 + worker * longer + (threads - 1 - worker) * shorter,
    ;
    vstd::arithmetic::div_mod::lemma_small_mod(total as nat, nonce_count());
}

proof fn lemma_full_batches(threads: int, winner: u64, count: nat)
    requires
        0 < threads <= u64::MAX,
        count <= threads,
        threads * (256 * (winner as int / threads / 256 + 2)) <= nonce_count(),
    ensures
        ({
            let worker = winner as int % threads;
            let index = winner as int / threads;
            let longer = 256 * (index / 256 + 2);
            let shorter = 256 * (index / 256 + 1);
            hashed_by(threads, winner, count) == if count <= worker {
                count * longer
            } else {
                worker * longer + index + 1 + (count - 1 - worker) * shorter
            }
        }),
    decreases count,
{
    let worker = winner as int % threads;
    let index = winner as int / threads;
    let longer = 256 * (index / 256 + 2);
    let shorter = 256 * (index / 256 + 1);
    vstd::arithmetic::div_mod::lemma_div_pos_is_pos(winner as int, threads);
    vstd::arithmetic::div_mod::lemma_mod_bound(winner as int, threads);
    if count == 0 {
        assert(0 * longer == 0) by (nonlinear_arith);
    } else {
        let w = count - 1;
        lemma_full_batches(threads, winner, w as nat);
        let rest = u64::MAX - w;
        vstd::arithmetic::div_mod::lemma_fundamental_div_mod(rest, threads);
        let quotient = rest / threads;
        assert(quotient + 1 >= longer) by (nonlinear_arith)
            requires
                0 <= w < threads,
                rest == 0xffff_ffff_ffff_ffff - w,
                rest == threads * quotient + rest % threads,
                0 <= rest % threads < threads,
                threads * longer <= 0x1_0000_0000_0000_0000,
        ;
        assert(share(threads, w) >= longer > shorter);
        if count <= worker {
            assert(count * longer == w * longer + longer) by (nonlinear_arith)
                requires
                    count == w + 1,
            ;
        } else if w == worker {
            assert((count - 1 - worker) * shorter == 0) by (nonlinear_arith)
                requires
                    count - 1 - worker == 0,
            ;
        } else {
            assert((count - 1 - worker) * shorter == (w - 1 - worker) * shorter + shorter)
                by (nonlinear_arith)
                requires
                    count == w + 1,
            ;
        }
    }
}

/// A search in turns comes to a nonce only where none of an earlier turn wins, none of the same
/// turn with a worker of a smaller number, and no smaller one of the same worker.
pub proof fn no_earlier_turn_wins(request: MineRequest<'_>, nonce: u64, attempts: u64, other: u64)
    requires
        request.threads > 0,
        request.won_in_turns(nonce, attempts),
        1 <= request.prefix_len <= 8,
        request.target < vstd::arithmetic::power2::pow2(4 * request.prefix_len as nat),
        ({
            let threads = request.threads as int;
            let (turn, mine) = (other as int / threads / 256, nonce as int / threads / 256);
            let (worker, winner) = (other as int % threads, nonce as int % threads);
            turn < mine || (turn == mine && worker < winner) || (worker == winner && other < nonce)
        }),
    ensures
        !crate::target::prefix_text(request.target, request.prefix_len).is_prefix_of(
            oid_text(
                request.format,
                crate::prepared::nonce_message(request.object_prefix@, other),
            ),
        ),
{
    crate::hex::lemma_pow16_is_pow2(request.prefix_len as nat);
    winning_means_id_starts_with_prefix(
        request.format,
        request.object_prefix@,
        request.target,
        request.prefix_len,
        other,
    );
    assert(request.comes_before(other as int, nonce as int));
    assert(!request.wins(other as int));
}

} // verus!
