//! Hashes that are complete but for a nonce.

use vstd::prelude::*;

use crate::format::ObjectFormat;
use crate::hash::{compress_sha1, compress_sha256};
use crate::hex::encode_nonce;

verus! {

/// The object that a nonce completes: what stands before it, sixteen hexadecimal digits and a
/// newline.
pub open spec fn nonce_message(prefix: Seq<u8>, nonce: u64) -> Seq<u8> {
    prefix + crate::hex::hex_fixed(nonce as nat, 16) + seq![10u8]
}

/// The eight words that stand for the digest of a message: its own words, and zeros behind them.
pub open spec fn holds_digest(format: ObjectFormat, words: Seq<u32>, message: Seq<u8>) -> bool {
    &&& words.len() == 8
    &&& words.take(format.word_count() as int) == format.digest_words(message)
    &&& forall|i: int| format.word_count() <= i < 8 ==> #[trigger] words[i] == 0
}

/// Bytes in the complete 64-byte blocks of `prefix`.
pub open spec fn complete_len(prefix: Seq<u8>) -> int {
    (prefix.len() / 64 * 64) as int
}

/// Zero bytes.
pub open spec fn zeros(count: nat) -> Seq<u8> {
    Seq::new(count, |i: int| 0u8)
}

/// The bytes behind the nonce in its last blocks: the newline, the end marker, zeros and the
/// length in bits of the whole message.
pub open spec fn tail_end(offset: nat, prefix_len: nat) -> Seq<u8> {
    seq![10u8, 0x80u8] + Seq::new(crate::hash::zero_count(offset + 17), |i: int| 0u8)
        + crate::hash::be_fixed(8 * (prefix_len + 17), 8)
}

/// The one or two blocks that change with the nonce, padded ahead of time.
#[derive(Clone, Copy)]
pub struct PreparedTail {
    bytes: [u8; 128],
    block_count: usize,
    nonce_offset: usize,
}

impl PreparedTail {
    /// All 128 bytes, whether the second block is in use or not.
    pub closed spec fn bytes(self) -> Seq<u8> {
        self.bytes@
    }

    /// Bytes in the blocks that are in use.
    pub closed spec fn used_len(self) -> int {
        64 * self.block_count
    }

    /// Where the nonce starts.
    pub closed spec fn offset(self) -> int {
        self.nonce_offset as int
    }

    /// The nonce fits into the blocks in use.
    pub closed spec fn inv(self) -> bool {
        &&& self.nonce_offset < 64
        &&& self.block_count == 1 || self.block_count == 2
        &&& self.nonce_offset + 16 <= self.used_len()
    }

    /// The blocks hold `tail` and the padding of a message with `prefix_len` bytes ahead of the
    /// nonce.
    pub open spec fn prepared_for(self, tail: Seq<u8>, prefix_len: nat) -> bool {
        &&& self.inv()
        &&& self.offset() == tail.len()
        &&& self.bytes().len() == 128
        &&& self.used_len() == tail.len() + 16 + tail_end(tail.len(), prefix_len).len()
        &&& self.bytes().take(self.offset()) == tail
        &&& self.bytes().subrange(self.offset() + 16, self.used_len()) == tail_end(
            tail.len(),
            prefix_len,
        )
    }

    /// Lays out the last blocks of a message whose part ahead of the nonce has `prefix_len` bytes
    /// and ends in `prefix_tail`.
    pub fn new(prefix_tail: &[u8], prefix_len: usize) -> (prepared: PreparedTail)
        requires
            prefix_tail@.len() < 64,
            crate::hash::hashable((prefix_len + 17) as nat),
        ensures
            prepared.prepared_for(prefix_tail@, prefix_len as nat),
            prepared.bytes() == prefix_tail@ + zeros(16) + tail_end(
                prefix_tail@.len(),
                prefix_len as nat,
            ) + zeros((128 - prepared.used_len()) as nat),
    {
        let message_len: u64 = prefix_len as u64 + 17;
        let offset: usize = prefix_tail.len();
        let used: usize = offset + 17;
        let block_count: usize = if used + 9 <= 64 {
            1
        } else {
            2
        };
        let mut bytes: [u8; 128] = [0; 128];
        let mut i: usize = 0;
        while i < offset
            invariant
                i <= offset < 64,
                offset == prefix_tail@.len(),
                bytes@.take(i as int) == prefix_tail@.take(i as int),
                forall|j: int| i <= j < 128 ==> bytes@[j] == 0,
            decreases offset - i,
        {
            let ghost before = bytes@;
            bytes[i] = prefix_tail[i];
            assert(bytes@.take(i + 1) =~= before.take(i as int).push(prefix_tail@[i as int]));
            assert(prefix_tail@.take(i + 1) =~= prefix_tail@.take(i as int).push(
                prefix_tail@[i as int],
            ));
            i = i + 1;
        }
        assert(prefix_tail@.take(offset as int) =~= prefix_tail@);
        let ghost copied = bytes@;
        set_tail_byte(&mut bytes, offset + 16, 10);
        set_tail_byte(&mut bytes, used, 0x80);
        let ghost marked = bytes@;
        set_length_field(&mut bytes, block_count * 64 - 8, message_len * 8);
        let prepared: PreparedTail = PreparedTail { bytes, block_count, nonce_offset: offset };
        proof {
            crate::hash::lemma_be_fixed_len((message_len * 8) as nat, 8);
            assert(prepared.bytes().take(offset as int) =~= copied.take(offset as int));
            assert(prepared.bytes().subrange(offset + 16, 64 * block_count) =~= tail_end(
                offset as nat,
                prefix_len as nat,
            ));
            assert(prepared.bytes() =~= prefix_tail@ + zeros(16) + tail_end(
                offset as nat,
                prefix_len as nat,
            ) + zeros((128 - prepared.used_len()) as nat));
        }
        prepared
    }

    /// Writes the sixteen digits of a nonce, and nothing else.
    pub fn set_nonce(&mut self, nonce: u64)
        requires
            old(self).inv(),
        ensures
            final(self).inv(),
            final(self).offset() == old(self).offset(),
            final(self).used_len() == old(self).used_len(),
            final(self).bytes() == old(self).bytes().take(old(self).offset())
                + crate::hex::hex_fixed(nonce as nat, 16) + old(self).bytes().skip(
                old(self).offset() + 16,
            ),
    {
        let encoded: [u8; 16] = encode_nonce(nonce);
        let offset: usize = self.nonce_offset;
        let mut i: usize = 0;
        while i < 16
            invariant
                i <= 16,
                offset < 64,
                self.nonce_offset == offset,
                old(self).nonce_offset == offset,
                self.block_count == old(self).block_count,
                self.bytes@ == old(self).bytes@.take(offset as int) + encoded@.take(i as int)
                    + old(self).bytes@.skip(offset + i),
            decreases 16 - i,
        {
            let ghost before = self.bytes@;
            self.bytes[offset + i] = encoded[i];
            assert(self.bytes@ =~= old(self).bytes@.take(offset as int) + encoded@.take(i + 1)
                + old(self).bytes@.skip(offset + i + 1));
            i = i + 1;
        }
        assert(encoded@.take(16) =~= encoded@);
    }

    /// The blocks in use, one after the other.
    pub fn blocks_as_bytes(&self) -> (bytes: &[u8])
        requires
            self.inv(),
        ensures
            bytes@ == self.bytes().take(self.used_len()),
    {
        vstd::slice::slice_subrange(self.bytes.as_slice(), 0, self.block_count * 64)
    }
}

/// Sets one byte of the two tail blocks.
pub fn set_tail_byte(bytes: &mut [u8; 128], offset: usize, value: u8)
    requires
        offset < 128,
    ensures
        final(bytes)@ == old(bytes)@.update(offset as int, value),
{
    bytes[offset] = value;
}

/// Writes a big-endian length field of eight bytes.
fn set_length_field(bytes: &mut [u8; 128], offset: usize, value: u64)
    requires
        offset + 8 <= 128,
    ensures
        final(bytes)@ == old(bytes)@.take(offset as int) + crate::hash::be_fixed(value as nat, 8)
            + old(bytes)@.skip(offset + 8),
{
    let mut rest: u64 = value;
    let mut i: usize = 8;
    proof {
        crate::hash::lemma_be_fixed_len(value as nat, 8);
        assert(bytes@.subrange(offset + 8, offset + 8) =~= Seq::<u8>::empty());
    }
    while i > 0
        invariant
            i <= 8,
            offset + 8 <= 128,
            crate::hash::be_fixed(value as nat, 8) == crate::hash::be_fixed(rest as nat, i as nat)
                + bytes@.subrange(offset + i, offset + 8),
            bytes@.take(offset + i) == old(bytes)@.take(offset + i),
            bytes@.skip(offset + 8) == old(bytes)@.skip(offset + 8),
        decreases i,
    {
        let ghost before = bytes@;
        i = i - 1;
        bytes[offset + i] = (rest % 256) as u8;
        rest = rest / 256;
        assert(bytes@.subrange(offset + i, offset + 8) =~= seq![bytes@[offset + i]]
            + before.subrange(offset + i + 1, offset + 8));
        assert(bytes@.take(offset + i) =~= before.take(offset + i + 1).drop_last());
        assert(old(bytes)@.take(offset + i) =~= old(bytes)@.take(offset + i + 1).drop_last());
        assert(bytes@.skip(offset + 8) =~= before.skip(offset + 8));
    }
    assert(bytes@ =~= bytes@.take(offset as int) + bytes@.subrange(offset as int, offset + 8)
        + bytes@.skip(offset + 8));
}

/// The padded message is the complete blocks ahead of the nonce and the prepared tail.
proof fn lemma_padded_split(prefix: Seq<u8>, nonce: u64)
    ensures
        crate::hash::padded(nonce_message(prefix, nonce)) == prefix.take(complete_len(prefix)) + (
        prefix.skip(complete_len(prefix)) + crate::hex::hex_fixed(nonce as nat, 16) + tail_end(
            prefix.len() % 64,
            prefix.len(),
        )),
{
    crate::hex::lemma_hex_fixed_len(nonce as nat, 16);
    let message = nonce_message(prefix, nonce);
    assert(message.len() == prefix.len() + 17);
    assert(crate::hash::zero_count(message.len()) == crate::hash::zero_count(
        prefix.len() % 64 + 17,
    ));
    let complete = prefix.take(complete_len(prefix));
    let rest = prefix.skip(complete_len(prefix));
    let end = tail_end(prefix.len() % 64, prefix.len());
    assert(crate::hash::padded(message) =~= complete + (rest + crate::hex::hex_fixed(
        nonce as nat,
        16,
    ) + end));
}

/// With the nonce set, the blocks in use are the end of the padded message.
proof fn lemma_tail_with_nonce(
    before: PreparedTail,
    after: PreparedTail,
    tail: Seq<u8>,
    prefix_len: nat,
    nonce: u64,
)
    requires
        before.prepared_for(tail, prefix_len),
        after.offset() == before.offset(),
        after.used_len() == before.used_len(),
        after.inv(),
        after.bytes() == before.bytes().take(before.offset()) + crate::hex::hex_fixed(
            nonce as nat,
            16,
        ) + before.bytes().skip(before.offset() + 16),
    ensures
        after.prepared_for(tail, prefix_len),
        after.bytes().take(after.used_len()) == tail + crate::hex::hex_fixed(nonce as nat, 16)
            + tail_end(tail.len(), prefix_len),
{
    crate::hex::lemma_hex_fixed_len(nonce as nat, 16);
    let offset = before.offset();
    let used = before.used_len();
    assert(used <= 128);
    assert(after.bytes().take(offset) =~= tail);
    assert(after.bytes().subrange(offset + 16, used) =~= before.bytes().subrange(
        offset + 16,
        used,
    ));
    assert(after.bytes().take(used) =~= after.bytes().take(offset) + crate::hex::hex_fixed(
        nonce as nat,
        16,
    ) + after.bytes().subrange(offset + 16, used));
}

/// A hash of everything ahead of the nonce, ready to be finished for one nonce after another.
pub trait PreparedHash: Copy {
    /// The format whose digest comes out.
    spec fn format() -> ObjectFormat;

    /// The value is ready for use.
    spec fn inv(&self) -> bool;

    /// The bytes ahead of the nonce.
    spec fn prefix(&self) -> Seq<u8>;

    /// The words of the digest of the object with this nonce; unused words are zero.
    fn hash_nonce(&mut self, nonce: u64) -> (words: [u32; 8])
        requires
            old(self).inv(),
        ensures
            final(self).inv(),
            final(self).prefix() == old(self).prefix(),
            holds_digest(Self::format(), words@, nonce_message(old(self).prefix(), nonce)),
    ;
}

/// SHA-1 over everything ahead of the nonce.
#[derive(Clone, Copy)]
pub struct PreparedSha1 {
    state: [u32; 5],
    tail: PreparedTail,
    prefix: Ghost<Seq<u8>>,
}

impl PreparedSha1 {
    /// Compresses the complete blocks of `prefix` and lays out the rest.
    pub fn new(prefix: &[u8]) -> (prepared: PreparedSha1)
        requires
            crate::hash::hashable((prefix@.len() + 17) as nat),
        ensures
            prepared.inv(),
            prepared.prefix() == prefix@,
    {
        let mut state: [u32; 5] = [
            0x6745_2301,
            0xefcd_ab89,
            0x98ba_dcfe,
            0x1032_5476,
            0xc3d2_e1f0,
        ];
        assert(state@ =~= ObjectFormat::Sha1.initial_state());
        let complete: usize = prefix.len() / 64 * 64;
        compress_sha1(&mut state, vstd::slice::slice_subrange(prefix, 0, complete));
        let tail: PreparedTail = PreparedTail::new(
            vstd::slice::slice_subrange(prefix, complete, prefix.len()),
            prefix.len(),
        );
        PreparedSha1 { state, tail, prefix: Ghost(prefix@) }
    }
}

impl PreparedHash for PreparedSha1 {
    open spec fn format() -> ObjectFormat {
        ObjectFormat::Sha1
    }

    closed spec fn inv(&self) -> bool {
        &&& self.state@ == ObjectFormat::Sha1.chain(
            ObjectFormat::Sha1.initial_state(),
            self.prefix@.take(complete_len(self.prefix@)),
        )
        &&& self.tail.prepared_for(
            self.prefix@.skip(complete_len(self.prefix@)),
            self.prefix@.len(),
        )
    }

    closed spec fn prefix(&self) -> Seq<u8> {
        self.prefix@
    }

    fn hash_nonce(&mut self, nonce: u64) -> (words: [u32; 8]) {
        let ghost complete = self.prefix@.take(complete_len(self.prefix@));
        let ghost rest = self.prefix@.skip(complete_len(self.prefix@));
        self.tail.set_nonce(nonce);
        proof {
            lemma_tail_with_nonce(old(self).tail, self.tail, rest, self.prefix@.len(), nonce);
            lemma_padded_split(self.prefix@, nonce);
            crate::hash::lemma_chain_split(
                ObjectFormat::Sha1,
                ObjectFormat::Sha1.initial_state(),
                complete,
                self.tail.bytes().take(self.tail.used_len()),
            );
        }
        let mut state: [u32; 5] = self.state;
        compress_sha1(&mut state, self.tail.blocks_as_bytes());
        let output: [u32; 8] = [state[0], state[1], state[2], state[3], state[4], 0, 0, 0];
        assert(output@.take(5) =~= state@);
        output
    }
}

/// SHA-256 over everything ahead of the nonce.
#[derive(Clone, Copy)]
pub struct PreparedSha256 {
    state: [u32; 8],
    tail: PreparedTail,
    prefix: Ghost<Seq<u8>>,
}

impl PreparedSha256 {
    /// Compresses the complete blocks of `prefix` and lays out the rest.
    pub fn new(prefix: &[u8]) -> (prepared: PreparedSha256)
        requires
            crate::hash::hashable((prefix@.len() + 17) as nat),
        ensures
            prepared.inv(),
            prepared.prefix() == prefix@,
    {
        let mut state: [u32; 8] = [
            0x6a09_e667,
            0xbb67_ae85,
            0x3c6e_f372,
            0xa54f_f53a,
            0x510e_527f,
            0x9b05_688c,
            0x1f83_d9ab,
            0x5be0_cd19,
        ];
        assert(state@ =~= ObjectFormat::Sha256.initial_state());
        let complete: usize = prefix.len() / 64 * 64;
        compress_sha256(&mut state, vstd::slice::slice_subrange(prefix, 0, complete));
        let tail: PreparedTail = PreparedTail::new(
            vstd::slice::slice_subrange(prefix, complete, prefix.len()),
            prefix.len(),
        );
        PreparedSha256 { state, tail, prefix: Ghost(prefix@) }
    }
}

impl PreparedHash for PreparedSha256 {
    open spec fn format() -> ObjectFormat {
        ObjectFormat::Sha256
    }

    closed spec fn inv(&self) -> bool {
        &&& self.state@ == ObjectFormat::Sha256.chain(
            ObjectFormat::Sha256.initial_state(),
            self.prefix@.take(complete_len(self.prefix@)),
        )
        &&& self.tail.prepared_for(
            self.prefix@.skip(complete_len(self.prefix@)),
            self.prefix@.len(),
        )
    }

    closed spec fn prefix(&self) -> Seq<u8> {
        self.prefix@
    }

    fn hash_nonce(&mut self, nonce: u64) -> (words: [u32; 8]) {
        let ghost complete = self.prefix@.take(complete_len(self.prefix@));
        let ghost rest = self.prefix@.skip(complete_len(self.prefix@));
        self.tail.set_nonce(nonce);
        proof {
            lemma_tail_with_nonce(old(self).tail, self.tail, rest, self.prefix@.len(), nonce);
            lemma_padded_split(self.prefix@, nonce);
            crate::hash::lemma_chain_split(
                ObjectFormat::Sha256,
                ObjectFormat::Sha256.initial_state(),
                complete,
                self.tail.bytes().take(self.tail.used_len()),
            );
        }
        let mut state: [u32; 8] = self.state;
        compress_sha256(&mut state, self.tail.blocks_as_bytes());
        assert(state@.take(8) =~= state@);
        state
    }
}

/// The message that a nonce completes is what stands before it, sixteen digits that spell the
/// nonce, which are returned, and a newline.
pub proof fn nonce_completes_the_message(prefix: Seq<u8>, nonce: u64) -> (digits: Seq<u8>)
    ensures
        nonce_message(prefix, nonce) == prefix + digits + seq![10u8],
        digits.len() == 16,
        forall|i: int| 0 <= i < 16 ==> crate::hex::is_digit(#[trigger] digits[i]),
        crate::hex::hex_value(digits) == nonce,
{
    vstd::arithmetic::power2::lemma2_to64();
    crate::hex::digits_spell_the_number(nonce as nat, 16);
    let digits = crate::hex::hex_fixed(nonce as nat, 16);
    assert forall|i: int| 0 <= i < 16 implies crate::hex::is_digit(#[trigger] digits[i]) by {}
    digits
}

/// Words that hold a digest spell its bytes, four each, and are zero behind it.
pub proof fn words_spell_the_digest(
    format: ObjectFormat,
    words: Seq<u32>,
    message: Seq<u8>,
    i: int,
)
    requires
        holds_digest(format, words, message),
        0 <= i < 8,
    ensures
        4 * i < format.digest(message).len() ==> crate::target::be_value(
            format.digest(message).subrange(4 * i, 4 * i + 4),
        ) == words[i],
        4 * i >= format.digest(message).len() ==> words[i] == 0,
{
    let own = format.digest_words(message);
    crate::hash::lemma_digest_len(format, message);
    crate::hash::lemma_word_bytes_len(own);
    if 4 * i < format.digest(message).len() {
        crate::hash::four_bytes_spell_each_word(own, i);
        assert(words.take(format.word_count() as int)[i] == words[i]);
    }
}

} // verus!
