//! The digits that a commit's ID is to start with.

use vstd::prelude::*;
use vstd::slice::slice_to_vec;

use crate::format::ObjectFormat;
use crate::hash::digest;
use crate::hex::digit;
use crate::path::append_bytes;

verus! {

/// The number that the first `prefix_len` hexadecimal digits of a word spell.
pub open spec fn leading_digits(word: u32, prefix_len: u8) -> nat {
    word as nat / crate::hex::pow16((8 - prefix_len) as nat)
}

/// A number of `prefix_len` hexadecimal digits is below sixteen to that power.
pub proof fn lemma_leading_bound(word: u32, prefix_len: u8)
    requires
        1 <= prefix_len <= 8,
    ensures
        leading_digits(word, prefix_len) < crate::hex::pow16(prefix_len as nat),
{
    let kept = prefix_len as nat;
    let dropped = (8 - prefix_len) as nat;
    crate::hex::lemma_pow16_is_pow2(dropped);
    crate::hex::lemma_pow16_is_pow2(kept);
    vstd::arithmetic::power2::lemma_pow2_adds(4 * dropped, 4 * kept);
    vstd::arithmetic::power2::lemma2_to64();
    crate::hex::lemma_pow16_positive(dropped);
    assert(word < crate::hex::pow16(dropped) * crate::hex::pow16(kept));
    vstd::arithmetic::div_mod::lemma_multiply_divide_lt(
        word as int,
        crate::hex::pow16(dropped) as int,
        crate::hex::pow16(kept) as int,
    );
}

/// The first `prefix_len` hexadecimal digits of a word.
pub fn leading_part(word: u32, prefix_len: u8) -> (leading: u32)
    requires
        1 <= prefix_len <= 8,
    ensures
        leading == leading_digits(word, prefix_len),
        leading < crate::hex::pow16(prefix_len as nat),
{
    let shift: u32 = 32 - prefix_len as u32 * 4;
    proof {
        vstd::bits::lemma_u32_shr_is_div(word, shift);
        crate::hex::lemma_pow16_is_pow2((8 - prefix_len) as nat);
        lemma_leading_bound(word, prefix_len);
    }
    word >> shift
}

/// The digits of a target, as text.
pub open spec fn prefix_text(target: u32, prefix_len: u8) -> Seq<char> {
    crate::hex::as_chars(crate::hex::hex_fixed(target as nat, prefix_len as nat))
}

/// The seed that a commit's targets come from.
pub open spec fn seed_bytes(
    parent: Option<Seq<char>>,
    message: Seq<char>,
    nanos: u128,
    process: u32,
) -> Seq<u8> {
    let start = match parent {
        Some(oid) => oid,
        None => "root"@,
    };
    vstd::utf8::encode_utf8(start) + seq![0u8] + vstd::utf8::encode_utf8(message)
        + crate::hash::be_fixed(nanos as nat, 16) + crate::hash::be_fixed(process as nat, 4)
}

/// The target that a seed and a salt give: the leading digits of the SHA-256 of both.
pub open spec fn derived_target(seed: Seq<u8>, salt: u64, prefix_len: u8) -> nat {
    let message = seed + crate::hash::be_fixed(salt as nat, 8);
    leading_digits(ObjectFormat::Sha256.digest_words(message)[0], prefix_len)
}

/// The number that four big-endian bytes spell.
pub open spec fn be_value(bytes: Seq<u8>) -> nat
    decreases bytes.len(),
{
    if bytes.len() == 0 {
        0
    } else {
        256 * be_value(bytes.drop_last()) + bytes.last() as nat
    }
}

/// A number in big-endian bytes can be read back.
pub proof fn bytes_spell_the_number(value: nat, width: nat)
    requires
        value < vstd::arithmetic::power2::pow2(8 * width),
    ensures
        be_value(crate::hash::be_fixed(value, width)) == value,
    decreases width,
{
    vstd::arithmetic::power2::lemma2_to64();
    if width > 0 {
        let narrower = (width - 1) as nat;
        vstd::arithmetic::power2::lemma_pow2_adds(8, 8 * narrower);
        bytes_spell_the_number(value / 256, narrower);
        assert(crate::hash::be_fixed(value, width).drop_last() =~= crate::hash::be_fixed(
            value / 256,
            narrower,
        ));
    }
}

/// Big-endian bytes of a number.
pub fn be_bytes(value: u128, width: usize) -> (bytes: Vec<u8>)
    ensures
        bytes@ == crate::hash::be_fixed(value as nat, width as nat),
{
    let mut bytes: Vec<u8> = vec![0; width];
    let mut rest: u128 = value;
    let mut i: usize = width;
    assert(bytes@.skip(width as int) =~= Seq::<u8>::empty());
    while i > 0
        invariant
            i <= width == bytes@.len(),
            crate::hash::be_fixed(value as nat, width as nat) == crate::hash::be_fixed(
                rest as nat,
                i as nat,
            ) + bytes@.skip(i as int),
        decreases i,
    {
        let ghost before = bytes@;
        i = i - 1;
        bytes.set(i, (rest % 256) as u8);
        rest = rest / 256;
        assert(bytes@.skip(i as int) =~= seq![bytes@[i as int]] + before.skip(i + 1));
    }
    assert(bytes@.skip(0) =~= bytes@);
    bytes
}

/// The seed of a commit: its parent, its message, the time and the process that makes it.
pub fn target_seed(parent: Option<&str>, message: &str, nanos: u128, process: u32) -> (seed: Vec<
    u8,
>)
    ensures
        seed@ == seed_bytes(
            match parent {
                Some(oid) => Some(oid@),
                None => None,
            },
            message@,
            nanos,
            process,
        ),
{
    let start: &str = match parent {
        Some(oid) => oid,
        None => "root",
    };
    let mut seed: Vec<u8> = slice_to_vec(start.as_bytes());
    seed.push(0);
    append_bytes(&mut seed, message.as_bytes());
    append_bytes(&mut seed, be_bytes(nanos, 16).as_slice());
    append_bytes(&mut seed, be_bytes(process as u128, 4).as_slice());
    assert(seed@ =~= seed_bytes(
        match parent {
            Some(oid) => Some(oid@),
            None => None,
        },
        message@,
        nanos,
        process,
    ));
    seed
}

/// The target that a digest gives: the leading digits of its first word.
pub fn target_of_digest(digest: &[u8], prefix_len: u8) -> (target: u32)
    requires
        digest@.len() >= 4,
        1 <= prefix_len <= 8,
    ensures
        target == be_value(digest@.take(4)) / crate::hex::pow16((8 - prefix_len) as nat),
        target < crate::hex::pow16(prefix_len as nat),
{
    let first: u32 = 0x100_0000 * digest[0] as u32 + 0x1_0000 * digest[1] as u32 + 0x100
        * digest[2] as u32 + digest[3] as u32;
    proof {
        let bytes = digest@.take(4);
        assert(bytes.drop_last() =~= digest@.take(3));
        assert(bytes.drop_last().drop_last() =~= digest@.take(2));
        assert(bytes.drop_last().drop_last().drop_last() =~= digest@.take(1));
        assert(bytes.drop_last().drop_last().drop_last().drop_last() =~= Seq::<u8>::empty());
        reveal_with_fuel(be_value, 5);
        assert(be_value(bytes) == first);
    }
    leading_part(first, prefix_len)
}

/// The target that a seed and a salt give.
pub fn derive_target(seed: &[u8], salt: u64, prefix_len: u8) -> (target: u32)
    requires
        1 <= prefix_len <= 8,
        crate::hash::hashable((seed@.len() + 8) as nat),
    ensures
        target == derived_target(seed@, salt, prefix_len),
        target < crate::hex::pow16(prefix_len as nat),
{
    let mut message: Vec<u8> = slice_to_vec(seed);
    append_bytes(&mut message, be_bytes(salt as u128, 8).as_slice());
    proof {
        crate::hash::lemma_be_fixed_len(salt as nat, 8);
    }
    let hashed: Vec<u8> = digest(ObjectFormat::Sha256, message.as_slice());
    proof {
        let words = ObjectFormat::Sha256.digest_words(message@);
        crate::hash::lemma_digest_len(ObjectFormat::Sha256, message@);
        crate::hash::lemma_word_bytes_first(words);
        vstd::arithmetic::power2::lemma2_to64();
        bytes_spell_the_number(words[0] as nat, 4);
    }
    target_of_digest(hashed.as_slice(), prefix_len)
}

/// Writes a target with exactly `prefix_len` digits.
pub fn target_text(target: u32, prefix_len: u8) -> (text: String)
    requires
        1 <= prefix_len <= 8,
        target < crate::hex::pow16(prefix_len as nat),
    ensures
        text@ == prefix_text(target, prefix_len),
{
    let mut text: String = String::new();
    let mut left: u8 = prefix_len;
    proof {
        crate::hex::lemma_hex_fixed_len(target as nat, prefix_len as nat);
    }
    while left > 0
        invariant
            left <= prefix_len <= 8,
            text@ == prefix_text(target, prefix_len).take(prefix_len - left),
            crate::hex::hex_fixed(target as nat, prefix_len as nat).len() == prefix_len,
        decreases left,
    {
        left = left - 1;
        let shift: u32 = left as u32 * 4;
        let nibble: u8 = ((target >> shift) % 16) as u8;
        proof {
            let kept = (prefix_len - left) as nat;
            vstd::bits::lemma_u32_shr_is_div(target, shift);
            crate::hex::lemma_pow16_is_pow2(left as nat);
            crate::hex::lemma_hex_fixed_leading(target as nat, prefix_len as nat, left as nat);
            let digits = crate::hex::hex_fixed(target as nat, prefix_len as nat);
            assert(digits[kept - 1] == digits.take(kept as int).last());
            assert(prefix_text(target, prefix_len).take(kept as int) =~= prefix_text(
                target,
                prefix_len,
            ).take(kept - 1).push(digits[kept - 1] as char));
        }
        text.push(digit(nibble) as char);
    }
    assert(prefix_text(target, prefix_len).take(prefix_len as int) =~= prefix_text(
        target,
        prefix_len,
    ));
    text
}

/// What the search for a target asks for next.
#[derive(Debug)]
pub enum Selection {
    /// Find out whether an object ID with this prefix exists.
    Probe { prefix: String },
    /// Use this target.
    Chosen { target: u32, prefix: String },
    /// Every salt gives a prefix that is in use.
    Exhausted,
}

/// Where the search for a target stands behind an answer.
pub enum Decision {
    /// Ask about the candidate of this salt.
    Probe { salt: u64 },
    /// Use the candidate of this salt.
    Choose { salt: u64 },
    /// Give up: no salt is left.
    GiveUp,
}

/// Where a search at `salt` stands once it is known whether that candidate's prefix is in use,
/// or before anything is known. Git looks up no prefix of fewer than four digits, so the first of
/// those is as good as any.
pub open spec fn decided(prefix_len: u8, salt: u64, in_use: Option<bool>) -> Decision {
    match in_use {
        Some(true) if salt == u64::MAX => Decision::GiveUp,
        Some(true) if prefix_len < 4 => Decision::Choose { salt: (salt + 1) as u64 },
        Some(true) => Decision::Probe { salt: (salt + 1) as u64 },
        Some(false) => Decision::Choose { salt },
        None if prefix_len < 4 => Decision::Choose { salt },
        None => Decision::Probe { salt },
    }
}

/// The salt that a whole search comes to where `taken` answers its questions.
pub open spec fn settled(
    prefix_len: u8,
    salt: u64,
    in_use: Option<bool>,
    taken: spec_fn(u64) -> bool,
) -> Option<u64>
    decreases
            u64::MAX - salt,
            if in_use is None {
                1int
            } else {
                0
            },
{
    match decided(prefix_len, salt, in_use) {
        Decision::GiveUp => None,
        Decision::Choose { salt: chosen } => Some(chosen),
        Decision::Probe { salt: next } => settled(prefix_len, next, Some(taken(next)), taken),
    }
}

proof fn lemma_settled_from(
    prefix_len: u8,
    from: u64,
    salt: u64,
    taken: spec_fn(u64) -> bool,
)
    requires
        prefix_len >= 4,
        from <= salt,
        !taken(salt),
        forall|earlier: u64| from <= earlier < salt ==> #[trigger] taken(earlier),
    ensures
        settled(prefix_len, from, Some(taken(from)), taken) == Some(salt),
    decreases salt - from,
{
    if from < salt {
        lemma_settled_from(prefix_len, (from + 1) as u64, salt, taken);
    }
}

/// A search for a target of four or more digits settles on the first salt whose prefix is not in
/// use. With fewer digits it settles on the first salt there is.
pub proof fn first_free_target_is_chosen(
    prefix_len: u8,
    salt: u64,
    taken: spec_fn(u64) -> bool,
)
    requires
        prefix_len >= 4 ==> !taken(salt) && forall|earlier: u64|
            earlier < salt ==> #[trigger] taken(earlier),
    ensures
        settled(prefix_len, 0, None, taken) == if prefix_len < 4 {
            Some(0u64)
        } else {
            Some(salt)
        },
{
    if prefix_len >= 4 {
        lemma_settled_from(prefix_len, 0, salt, taken);
        assert(decided(prefix_len, 0, None) == Decision::Probe { salt: 0 });
    }
}

/// A search for a target whose digits no object ID starts with.
pub struct TargetSearch {
    seed: Vec<u8>,
    prefix_len: u8,
    salt: u64,
}

impl TargetSearch {
    /// The seed of all candidates.
    pub closed spec fn seed(&self) -> Seq<u8> {
        self.seed@
    }

    /// Digits in a candidate.
    pub closed spec fn prefix_len(&self) -> u8 {
        self.prefix_len
    }

    /// The salt of the current candidate.
    pub closed spec fn salt(&self) -> u64 {
        self.salt
    }

    pub open spec fn inv(&self) -> bool {
        &&& 1 <= self.prefix_len() <= 8
        &&& crate::hash::hashable((self.seed().len() + 8) as nat)
    }

    /// The current candidate.
    pub open spec fn candidate(&self) -> u32 {
        derived_target(self.seed(), self.salt(), self.prefix_len()) as u32
    }

    /// The current candidate's digits.
    pub open spec fn candidate_text(&self) -> Seq<char> {
        prefix_text(self.candidate(), self.prefix_len())
    }

    /// Starts at salt zero.
    pub fn new(seed: Vec<u8>, prefix_len: u8) -> (search: TargetSearch)
        requires
            1 <= prefix_len <= 8,
            crate::hash::hashable((seed@.len() + 8) as nat),
        ensures
            search.inv(),
            search.seed() == seed@,
            search.prefix_len() == prefix_len,
            search.salt() == 0,
    {
        TargetSearch { seed, prefix_len, salt: 0 }
    }

    /// Takes in whether the last probed prefix is in use, and says what comes next. The first
    /// call has no answer to give. Prefixes of fewer than four digits are never probed: Git does
    /// not look them up.
    pub fn select_target(&mut self, in_use: Option<bool>) -> (selection: Selection)
        requires
            old(self).inv(),
        ensures
            final(self).inv(),
            final(self).seed() == old(self).seed(),
            final(self).prefix_len() == old(self).prefix_len(),
            match (decided(old(self).prefix_len(), old(self).salt(), in_use), selection) {
                (Decision::Probe { salt }, Selection::Probe { prefix }) => {
                    &&& final(self).salt() == salt
                    &&& prefix@ == final(self).candidate_text()
                },
                (Decision::Choose { salt }, Selection::Chosen { target, prefix }) => {
                    &&& final(self).salt() == salt
                    &&& target == final(self).candidate()
                    &&& target < crate::hex::pow16(final(self).prefix_len() as nat)
                    &&& prefix@ == final(self).candidate_text()
                },
                (Decision::GiveUp, Selection::Exhausted) => final(self).salt() == old(self).salt(),
                _ => false,
            },
    {
        if let Some(true) = in_use {
            if self.salt == u64::MAX {
                return Selection::Exhausted;
            }
            self.salt = self.salt + 1;
        }
        let target: u32 = derive_target(self.seed.as_slice(), self.salt, self.prefix_len);
        let prefix: String = target_text(target, self.prefix_len);
        let answered: bool = match in_use {
            Some(false) => true,
            _ => false,
        };
        if self.prefix_len < 4 || answered {
            Selection::Chosen { target, prefix }
        } else {
            Selection::Probe { prefix }
        }
    }
}

/// Bytes are the big-endian bytes of the number that they spell.
proof fn lemma_be_fixed_of_be_value(bytes: Seq<u8>)
    ensures
        crate::hash::be_fixed(be_value(bytes), bytes.len()) == bytes,
    decreases bytes.len(),
{
    if bytes.len() > 0 {
        let front = bytes.drop_last();
        lemma_be_fixed_of_be_value(front);
        let low = bytes.last() as nat;
        assert(be_value(bytes) / 256 == be_value(front));
        assert(be_value(bytes) % 256 == low);
        assert(crate::hash::be_fixed(be_value(bytes), bytes.len()) =~= front.push(bytes.last()));
        assert(front.push(bytes.last()) =~= bytes);
    } else {
        assert(crate::hash::be_fixed(be_value(bytes), bytes.len()) =~= bytes);
    }
}

/// The digits of a target are as many as asked for, are hexadecimal digits, and spell the target.
pub proof fn prefix_spells_the_target(target: u32, prefix_len: u8)
    requires
        target < vstd::arithmetic::power2::pow2(4 * prefix_len as nat),
    ensures
        prefix_text(target, prefix_len).len() == prefix_len,
        forall|i: int|
            0 <= i < prefix_len ==> '0' <= #[trigger] prefix_text(target, prefix_len)[i] <= '9'
                || 'a' <= prefix_text(target, prefix_len)[i] <= 'f',
        crate::hex::hex_value(
            prefix_text(target, prefix_len).map_values(|c: char| c as u8),
        ) == target,
{
    let digits = crate::hex::hex_fixed(target as nat, prefix_len as nat);
    let text = prefix_text(target, prefix_len);
    crate::hex::digits_spell_the_number(target as nat, prefix_len as nat);
    assert forall|i: int| 0 <= i < prefix_len implies '0' <= #[trigger] text[i] <= '9' || 'a'
        <= text[i] <= 'f' by {
        assert(48 <= digits[i] <= 57 || 97 <= digits[i] <= 102);
    }
    let bytes = text.map_values(|c: char| c as u8);
    assert forall|i: int| 0 <= i < prefix_len implies #[trigger] bytes[i] == digits[i] by {
        assert(48 <= digits[i] <= 57 || 97 <= digits[i] <= 102);
    }
    assert(bytes =~= digits);
}

/// The target of a seed and a salt, in digits, is what the SHA-256 of the seed and the eight
/// big-endian bytes of the salt starts with.
pub proof fn target_is_the_start_of_a_digest(
    seed: Seq<u8>,
    salt: u64,
    salt_bytes: Seq<u8>,
    prefix_len: u8,
)
    requires
        1 <= prefix_len <= 8,
        salt_bytes.len() == 8,
        be_value(salt_bytes) == salt,
    ensures
        prefix_text(derived_target(seed, salt, prefix_len) as u32, prefix_len)
            == crate::hex::as_chars(
            crate::hex::hex_bytes(ObjectFormat::Sha256.digest(seed + salt_bytes)),
        ).take(prefix_len as int),
{
    let message = seed + salt_bytes;
    lemma_be_fixed_of_be_value(salt_bytes);
    let words = ObjectFormat::Sha256.digest_words(message);
    let bytes = ObjectFormat::Sha256.digest(message);
    crate::hash::lemma_digest_len(ObjectFormat::Sha256, message);
    crate::hash::lemma_word_bytes_len(words);
    crate::hash::lemma_word_bytes_first(words);
    crate::hex::lemma_hex_bytes_len(bytes);
    crate::hex::lemma_hex_bytes_take(bytes, 4);
    crate::hex::lemma_hex_of_be(words[0] as nat, 4);
    let all = crate::hex::hex_fixed(words[0] as nat, 8);
    crate::hex::lemma_hex_fixed_len(words[0] as nat, 8);
    crate::hex::lemma_hex_fixed_leading(words[0] as nat, 8, (8 - prefix_len) as nat);
    lemma_leading_bound(words[0], prefix_len);
    crate::hex::lemma_pow16_is_pow2((8 - prefix_len) as nat);
    crate::hex::lemma_pow16_positive((8 - prefix_len) as nat);
    let leading = leading_digits(words[0], prefix_len);
    assert(leading <= words[0]) by {
        vstd::arithmetic::div_mod::lemma_div_is_ordered_by_denominator(
            words[0] as int,
            1,
            crate::hex::pow16((8 - prefix_len) as nat) as int,
        );
    }
    let hex = crate::hex::hex_bytes(bytes);
    assert(hex.take(8) =~= all);
    assert(all.take(prefix_len as int) =~= hex.take(prefix_len as int));
    assert(crate::hex::as_chars(hex).take(prefix_len as int) =~= crate::hex::as_chars(
        hex.take(prefix_len as int),
    ));
}

/// A seed holds the parent, or the word `root`, up to a zero byte, then the message, and in its
/// last twenty bytes the time and the process.
pub proof fn seed_holds_what_it_is_made_of(
    parent: Option<Seq<char>>,
    message: Seq<char>,
    nanos: u128,
    process: u32,
) -> (at: int)
    ensures
        ({
            let seed = seed_bytes(parent, message, nanos, process);
            &&& 0 <= at < seed.len() - 20
            &&& vstd::utf8::decode_utf8(seed.take(at)) == match parent {
                Some(oid) => oid,
                None => "root"@,
            }
            &&& seed[at] == 0
            &&& vstd::utf8::decode_utf8(seed.subrange(at + 1, seed.len() - 20)) == message
            &&& be_value(seed.subrange(seed.len() - 20, seed.len() - 4)) == nanos
            &&& be_value(seed.skip(seed.len() - 4)) == process
        }),
{
    let seed = seed_bytes(parent, message, nanos, process);
    let start = match parent {
        Some(oid) => oid,
        None => "root"@,
    };
    let at = vstd::utf8::encode_utf8(start).len() as int;
    vstd::utf8::encode_utf8_decode_utf8(start);
    vstd::utf8::encode_utf8_decode_utf8(message);
    crate::hash::lemma_be_fixed_len(nanos as nat, 16);
    crate::hash::lemma_be_fixed_len(process as nat, 4);
    vstd::arithmetic::power2::lemma2_to64();
    vstd::arithmetic::power2::lemma_pow2_adds(64, 64);
    assert(0x1_0000_0000_0000_0000 * 0x1_0000_0000_0000_0000
        == 0x1_0000_0000_0000_0000_0000_0000_0000_0000int);
    bytes_spell_the_number(nanos as nat, 16);
    bytes_spell_the_number(process as nat, 4);
    assert(seed.take(at) =~= vstd::utf8::encode_utf8(start));
    assert(seed.subrange(at + 1, seed.len() - 20) =~= vstd::utf8::encode_utf8(message));
    assert(seed.subrange(seed.len() - 20, seed.len() - 4) =~= crate::hash::be_fixed(
        nanos as nat,
        16,
    ));
    assert(seed.skip(seed.len() - 4) =~= crate::hash::be_fixed(process as nat, 4));
    at
}

/// A search for a target of four or more digits gives up where every prefix is in use.
pub proof fn search_gives_up_without_a_free_target(
    prefix_len: u8,
    taken: spec_fn(u64) -> bool,
)
    requires
        prefix_len >= 4,
        forall|salt: u64| #[trigger] taken(salt),
    ensures
        settled(prefix_len, 0, None, taken) is None,
{
    lemma_settled_nowhere(prefix_len, 0, taken);
}

proof fn lemma_settled_nowhere(prefix_len: u8, from: u64, taken: spec_fn(u64) -> bool)
    requires
        prefix_len >= 4,
        forall|salt: u64| #[trigger] taken(salt),
    ensures
        settled(prefix_len, from, Some(taken(from)), taken) is None,
    decreases u64::MAX - from,
{
    if from < u64::MAX {
        lemma_settled_nowhere(prefix_len, (from + 1) as u64, taken);
    }
}

/// The leading digits of a word are the first of its eight digits.
pub proof fn leading_digits_come_first(word: u32, prefix_len: u8)
    requires
        1 <= prefix_len <= 8,
    ensures
        crate::hex::hex_fixed(leading_digits(word, prefix_len), prefix_len as nat)
            == crate::hex::hex_fixed(word as nat, 8).take(prefix_len as int),
        leading_digits(word, prefix_len) < vstd::arithmetic::power2::pow2(4 * prefix_len as nat),
        leading_digits(word, 8) == word,
{
    crate::hex::lemma_hex_fixed_leading(word as nat, 8, (8 - prefix_len) as nat);
    lemma_leading_bound(word, prefix_len);
    crate::hex::lemma_pow16_is_pow2(prefix_len as nat);
    assert(word as nat / 1 == word);
}

} // verus!
