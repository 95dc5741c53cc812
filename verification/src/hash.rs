//! Digests: padding and chaining over the compression functions of SHA-1 and SHA-256.

use vstd::prelude::*;

use crate::format::ObjectFormat;

verus! {

/// The `width` lowest base-256 digits of `value`, the most significant first.
pub open spec fn be_fixed(value: nat, width: nat) -> Seq<u8>
    decreases width,
{
    if width == 0 {
        Seq::empty()
    } else {
        be_fixed(value / 256, (width - 1) as nat).push((value % 256) as u8)
    }
}

/// Four big-endian bytes for each word.
pub open spec fn word_bytes(words: Seq<u32>) -> Seq<u8>
    decreases words.len(),
{
    if words.len() == 0 {
        Seq::empty()
    } else {
        word_bytes(words.drop_last()) + be_fixed(words.last() as nat, 4)
    }
}

/// What `sha1::compress` makes of a state and one 64-byte block.
pub uninterp spec fn sha1_block(state: Seq<u32>, block: Seq<u8>) -> Seq<u32>;

/// What `sha2::compress256` makes of a state and one 64-byte block.
pub uninterp spec fn sha256_block(state: Seq<u32>, block: Seq<u8>) -> Seq<u32>;

impl ObjectFormat {
    /// Words in the digest of this format.
    pub open spec fn word_count(self) -> nat {
        match self {
            ObjectFormat::Sha1 => 5,
            ObjectFormat::Sha256 => 8,
        }
    }

    /// The state before the first block.
    pub open spec fn initial_state(self) -> Seq<u32> {
        match self {
            ObjectFormat::Sha1 => seq![
                0x6745_2301u32,
                0xefcd_ab89u32,
                0x98ba_dcfeu32,
                0x1032_5476u32,
                0xc3d2_e1f0u32,
            ],
            ObjectFormat::Sha256 => seq![
                0x6a09_e667u32,
                0xbb67_ae85u32,
                0x3c6e_f372u32,
                0xa54f_f53au32,
                0x510e_527fu32,
                0x9b05_688cu32,
                0x1f83_d9abu32,
                0x5be0_cd19u32,
            ],
        }
    }

    /// The state after one more 64-byte block.
    pub open spec fn block(self, state: Seq<u32>, block: Seq<u8>) -> Seq<u32> {
        match self {
            ObjectFormat::Sha1 => Seq::new(5, |i: int| sha1_block(state, block)[i]),
            ObjectFormat::Sha256 => Seq::new(8, |i: int| sha256_block(state, block)[i]),
        }
    }

    /// The state after every complete 64-byte block of `bytes`, in order.
    pub open spec fn chain(self, state: Seq<u32>, bytes: Seq<u8>) -> Seq<u32>
        decreases bytes.len(),
    {
        if bytes.len() < 64 {
            state
        } else {
            self.chain(self.block(state, bytes.take(64)), bytes.skip(64))
        }
    }

    /// The words of the digest of `message`.
    pub open spec fn digest_words(self, message: Seq<u8>) -> Seq<u32> {
        self.chain(self.initial_state(), padded(message))
    }

    /// The digest of `message`.
    pub open spec fn digest(self, message: Seq<u8>) -> Seq<u8> {
        word_bytes(self.digest_words(message))
    }
}

/// A message has a digest when its length in bits fits into the 64-bit length field.
pub open spec fn hashable(len: nat) -> bool {
    8 * len <= u64::MAX
}

/// Zero bytes between the end marker and the length field.
pub open spec fn zero_count(len: nat) -> nat {
    ((119 - len % 64) % 64) as nat
}

/// The message followed by the end marker, zeros up to a multiple of 64 bytes less eight, and its
/// length in bits.
pub open spec fn padded(message: Seq<u8>) -> Seq<u8> {
    message.push(0x80u8) + Seq::new(zero_count(message.len()), |i: int| 0u8) + be_fixed(
        8 * message.len(),
        8,
    )
}

pub proof fn lemma_be_fixed_len(value: nat, width: nat)
    ensures
        be_fixed(value, width).len() == width,
    decreases width,
{
    if width > 0 {
        lemma_be_fixed_len(value / 256, (width - 1) as nat);
    }
}

/// Blocks may be compressed in two goes: what the first leaves, the second takes up.
pub proof fn lemma_chain_split(
    format: ObjectFormat,
    state: Seq<u32>,
    first: Seq<u8>,
    second: Seq<u8>,
)
    requires
        first.len() % 64 == 0,
    ensures
        format.chain(state, first + second) == format.chain(format.chain(state, first), second),
    decreases first.len(),
{
    if first.len() == 0 {
        assert(first + second =~= second);
    } else {
        assert((first + second).take(64) =~= first.take(64));
        assert((first + second).skip(64) =~= first.skip(64) + second);
        lemma_chain_split(
            format,
            format.block(state, first.take(64)),
            first.skip(64),
            second,
        );
    }
}

pub proof fn lemma_word_bytes_len(words: Seq<u32>)
    ensures
        word_bytes(words).len() == 4 * words.len(),
    decreases words.len(),
{
    if words.len() > 0 {
        lemma_word_bytes_len(words.drop_last());
        lemma_be_fixed_len(words.last() as nat, 4);
    }
}

/// The bytes of the first word come first.
pub proof fn lemma_word_bytes_first(words: Seq<u32>)
    requires
        words.len() > 0,
    ensures
        word_bytes(words).take(4) == be_fixed(words[0] as nat, 4),
    decreases words.len(),
{
    lemma_be_fixed_len(words.last() as nat, 4);
    lemma_word_bytes_len(words.drop_last());
    if words.len() == 1 {
        assert(word_bytes(words.drop_last()) =~= Seq::<u8>::empty());
        assert(word_bytes(words).take(4) =~= be_fixed(words[0] as nat, 4));
    } else {
        lemma_word_bytes_first(words.drop_last());
        assert(word_bytes(words).take(4) =~= word_bytes(words.drop_last()).take(4));
    }
}

proof fn lemma_chain_len(format: ObjectFormat, state: Seq<u32>, bytes: Seq<u8>)
    requires
        state.len() == format.word_count(),
    ensures
        format.chain(state, bytes).len() == format.word_count(),
    decreases bytes.len(),
{
    if bytes.len() >= 64 {
        lemma_chain_len(format, format.block(state, bytes.take(64)), bytes.skip(64));
    }
}

/// A digest has half as many bytes as an object ID has digits.
pub proof fn lemma_digest_len(format: ObjectFormat, message: Seq<u8>)
    ensures
        format.digest_words(message).len() == format.word_count(),
        2 * format.digest(message).len() == format.hex_len(),
{
    lemma_chain_len(format, format.initial_state(), padded(message));
    lemma_word_bytes_len(format.digest_words(message));
}

/// Calls `sha1::compress` on one block. The result is named, not described: it is the SHA-1
/// compression function, which depends on the state and the block alone.
#[verifier::external_body]
fn sha1_compress_block(state: &mut [u32; 5], block: &[u8])
    requires
        block@.len() == 64,
    ensures
        final(state)@ == sha1_block(old(state)@, block@),
{
    let block = sha1::digest::core_api::Block::<sha1::Sha1Core>::from_slice(block);
    sha1::compress(state, std::slice::from_ref(block));
}

/// Calls `sha2::compress256` on one block. The result is named, not described: it is the SHA-256
/// compression function, which depends on the state and the block alone.
#[verifier::external_body]
fn sha256_compress_block(state: &mut [u32; 8], block: &[u8])
    requires
        block@.len() == 64,
    ensures
        final(state)@ == sha256_block(old(state)@, block@),
{
    let block = sha2::digest::core_api::Block::<sha2::Sha256VarCore>::from_slice(block);
    sha2::compress256(state, std::slice::from_ref(block));
}

/// Calls `sha1::Sha1::digest`. The hasher starts from the SHA-1 initial state, runs
/// `sha1::compress` over the padded message and gives the words in big-endian order.
#[verifier::external_body]
fn sha1_digest(message: &[u8]) -> (digest: Vec<u8>)
    requires
        hashable(message@.len()),
    ensures
        digest@ == ObjectFormat::Sha1.digest(message@),
{
    <sha1::Sha1 as sha1::Digest>::digest(message).to_vec()
}

/// Calls `sha2::Sha256::digest`. The hasher starts from the SHA-256 initial state, runs
/// `sha2::compress256` over the padded message and gives the words in big-endian order.
#[verifier::external_body]
fn sha256_digest(message: &[u8]) -> (digest: Vec<u8>)
    requires
        hashable(message@.len()),
    ensures
        digest@ == ObjectFormat::Sha256.digest(message@),
{
    <sha2::Sha256 as sha2::Digest>::digest(message).to_vec()
}

/// Whether a message of `len` bytes, and so many more, has a digest.
pub fn can_be_hashed(len: usize, extra: u64) -> (r: bool)
    ensures
        r == hashable((len + extra) as nat),
{
    match (len as u64).checked_add(extra) {
        Some(total) => total <= u64::MAX / 8,
        None => false,
    }
}

/// The digest of a whole message in one call.
pub fn digest(format: ObjectFormat, message: &[u8]) -> (digest: Vec<u8>)
    requires
        hashable(message@.len()),
    ensures
        digest@ == format.digest(message@),
        2 * digest@.len() == format.hex_len(),
{
    proof {
        lemma_digest_len(format, message@);
    }
    match format {
        ObjectFormat::Sha1 => sha1_digest(message),
        ObjectFormat::Sha256 => sha256_digest(message),
    }
}

/// Runs the SHA-1 compression function over complete blocks.
pub fn compress_sha1(state: &mut [u32; 5], bytes: &[u8])
    requires
        bytes@.len() % 64 == 0,
    ensures
        final(state)@ == ObjectFormat::Sha1.chain(old(state)@, bytes@),
{
    let mut done: usize = 0;
    assert(bytes@.skip(0) =~= bytes@);
    while done < bytes.len()
        invariant
            done <= bytes@.len(),
            done % 64 == 0,
            bytes@.len() % 64 == 0,
            ObjectFormat::Sha1.chain(old(state)@, bytes@) == ObjectFormat::Sha1.chain(
                state@,
                bytes@.skip(done as int),
            ),
        decreases bytes@.len() - done,
    {
        let ghost rest = bytes@.skip(done as int);
        let ghost before = state@;
        sha1_compress_block(state, vstd::slice::slice_subrange(bytes, done, done + 64));
        assert(rest.take(64) =~= bytes@.subrange(done as int, done + 64));
        assert(state@ =~= ObjectFormat::Sha1.block(before, rest.take(64)));
        assert(rest.skip(64) =~= bytes@.skip(done + 64));
        done = done + 64;
    }
}

/// Runs the SHA-256 compression function over complete blocks.
pub fn compress_sha256(state: &mut [u32; 8], bytes: &[u8])
    requires
        bytes@.len() % 64 == 0,
    ensures
        final(state)@ == ObjectFormat::Sha256.chain(old(state)@, bytes@),
{
    let mut done: usize = 0;
    assert(bytes@.skip(0) =~= bytes@);
    while done < bytes.len()
        invariant
            done <= bytes@.len(),
            done % 64 == 0,
            bytes@.len() % 64 == 0,
            ObjectFormat::Sha256.chain(old(state)@, bytes@) == ObjectFormat::Sha256.chain(
                state@,
                bytes@.skip(done as int),
            ),
        decreases bytes@.len() - done,
    {
        let ghost rest = bytes@.skip(done as int);
        let ghost before = state@;
        sha256_compress_block(state, vstd::slice::slice_subrange(bytes, done, done + 64));
        assert(rest.take(64) =~= bytes@.subrange(done as int, done + 64));
        assert(state@ =~= ObjectFormat::Sha256.block(before, rest.take(64)));
        assert(rest.skip(64) =~= bytes@.skip(done + 64));
        done = done + 64;
    }
}

/// The big-endian bytes of a word.
pub fn push_word(bytes: &mut Vec<u8>, word: u32)
    ensures
        final(bytes)@ == old(bytes)@ + be_fixed(word as nat, 4),
{
    bytes.push((word / 0x100_0000) as u8);
    bytes.push((word / 0x1_0000 % 0x100) as u8);
    bytes.push((word / 0x100 % 0x100) as u8);
    bytes.push((word % 0x100) as u8);
    proof {
        reveal_with_fuel(be_fixed, 5);
        assert(word / 0x100 / 0x100 == word / 0x1_0000);
        assert(word / 0x100 / 0x100 / 0x100 == word / 0x100_0000);
        assert(word / 0x100_0000 < 256);
        assert(be_fixed(word as nat, 4) =~= seq![
            (word / 0x100_0000) as u8,
            (word / 0x1_0000 % 0x100) as u8,
            (word / 0x100 % 0x100) as u8,
            (word % 0x100) as u8,
        ]);
    }
    assert(bytes@ =~= old(bytes)@ + be_fixed(word as nat, 4));
}

/// The digest bytes of a word array whose unused words are ignored.
pub fn words_to_bytes(words: &[u32; 8], format: ObjectFormat) -> (bytes: Vec<u8>)
    ensures
        bytes@ == word_bytes(words@.take(format.word_count() as int)),
{
    let word_count: usize = match format {
        ObjectFormat::Sha1 => 5,
        ObjectFormat::Sha256 => 8,
    };
    let mut bytes: Vec<u8> = Vec::with_capacity(word_count * 4);
    let mut i: usize = 0;
    while i < word_count
        invariant
            i <= word_count <= 8,
            bytes@ == word_bytes(words@.take(i as int)),
        decreases word_count - i,
    {
        push_word(&mut bytes, words[i]);
        assert(words@.take(i + 1).drop_last() =~= words@.take(i as int));
        i = i + 1;
    }
    bytes
}

/// A padded message is the message, the end marker, fewer than 64 zeros and the length of the
/// message in bits, in eight bytes, and fills 64-byte blocks.
pub proof fn padding_says_the_length(message: Seq<u8>)
    requires
        8 * message.len() < 0x1_0000_0000_0000_0000,
    ensures
        ({
            let bytes = padded(message);
            &&& bytes.len() % 64 == 0
            &&& message.len() + 9 <= bytes.len() < message.len() + 9 + 64
            &&& bytes.take(message.len() as int) == message
            &&& bytes[message.len() as int] == 0x80
            &&& forall|i: int|
                message.len() < i < bytes.len() - 8 ==> #[trigger] bytes[i] == 0
            &&& crate::target::be_value(bytes.skip(bytes.len() - 8)) == 8 * message.len()
        }),
{
    let bytes = padded(message);
    let field = be_fixed(8 * message.len(), 8);
    lemma_be_fixed_len(8 * message.len(), 8);
    vstd::arithmetic::power2::lemma2_to64();
    crate::target::bytes_spell_the_number(8 * message.len(), 8);
    assert(bytes.take(message.len() as int) =~= message);
    assert(bytes.skip(bytes.len() - 8) =~= field);
    assert(bytes.len() == message.len() + 1 + zero_count(message.len()) + 8);
}

/// Each word has the four bytes that spell it, at four times its place.
pub proof fn four_bytes_spell_each_word(words: Seq<u32>, i: int)
    requires
        0 <= i < words.len(),
    ensures
        word_bytes(words).len() == 4 * words.len(),
        crate::target::be_value(word_bytes(words).subrange(4 * i, 4 * i + 4)) == words[i],
    decreases words.len(),
{
    let front = words.drop_last();
    let last = be_fixed(words.last() as nat, 4);
    lemma_word_bytes_len(words);
    lemma_word_bytes_len(front);
    lemma_be_fixed_len(words.last() as nat, 4);
    vstd::arithmetic::power2::lemma2_to64();
    crate::target::bytes_spell_the_number(words.last() as nat, 4);
    if i < front.len() {
        four_bytes_spell_each_word(front, i);
        assert(word_bytes(words).subrange(4 * i, 4 * i + 4) =~= word_bytes(front).subrange(
            4 * i,
            4 * i + 4,
        ));
    } else {
        assert(word_bytes(words).subrange(4 * i, 4 * i + 4) =~= last);
    }
}

/// Blocks are taken in one after the other, from the first to the last, and nothing else is.
pub proof fn blocks_are_taken_in_order(
    format: ObjectFormat,
    state: Seq<u32>,
    block: Seq<u8>,
    rest: Seq<u8>,
)
    requires
        block.len() == 64,
    ensures
        format.chain(state, Seq::empty()) == state,
        format.chain(state, block + rest) == format.chain(format.block(state, block), rest),
{
    assert((block + rest).take(64) =~= block);
    assert((block + rest).skip(64) =~= rest);
}

/// A digest has a word for each eight digits of an object ID.
pub proof fn digests_fill_object_ids(format: ObjectFormat, message: Seq<u8>)
    ensures
        2 * format.digest(message).len() == format.hex_len(),
        format.hex_len() == match format {
            ObjectFormat::Sha1 => 40,
            ObjectFormat::Sha256 => 64int,
        },
{
    lemma_digest_len(format, message);
    lemma_word_bytes_len(format.digest_words(message));
}

/// A message can be hashed if and only if its length in bits fits into eight bytes.
pub proof fn long_messages_cannot_be_hashed(len: nat)
    ensures
        hashable(len) <==> 8 * len < vstd::arithmetic::power2::pow2(64),
{
    vstd::arithmetic::power2::lemma2_to64();
}

} // verus!
