//! Hexadecimal digits.

use vstd::prelude::*;

verus! {

/// The lower-case hexadecimal digit for a value below sixteen.
pub open spec fn hex_digit(value: int) -> u8 {
    if value < 10 {
        (48 + value) as u8
    } else {
        (87 + value) as u8
    }
}

/// The `width` lowest hexadecimal digits of `value`, the most significant first.
pub open spec fn hex_fixed(value: nat, width: nat) -> Seq<u8>
    decreases width,
{
    if width == 0 {
        Seq::empty()
    } else {
        hex_fixed(value / 16, (width - 1) as nat).push(hex_digit((value % 16) as int))
    }
}

/// Sixteen to the given power.
pub open spec fn pow16(exponent: nat) -> nat
    decreases exponent,
{
    if exponent == 0 {
        1
    } else {
        16 * pow16((exponent - 1) as nat)
    }
}

/// Two hexadecimal digits for each byte.
pub open spec fn hex_bytes(bytes: Seq<u8>) -> Seq<u8>
    decreases bytes.len(),
{
    if bytes.len() == 0 {
        Seq::empty()
    } else {
        hex_bytes(bytes.drop_last()) + hex_fixed(bytes.last() as nat, 2)
    }
}

/// Bytes read as characters with the same code points.
pub open spec fn as_chars(bytes: Seq<u8>) -> Seq<char> {
    Seq::new(bytes.len(), |i: int| bytes[i] as char)
}

/// `String::push` appends one character.
pub assume_specification[ String::push ](s: &mut String, c: char)
    ensures
        final(s)@ == old(s)@.push(c),
;

pub proof fn lemma_hex_fixed_len(value: nat, width: nat)
    ensures
        hex_fixed(value, width).len() == width,
    decreases width,
{
    if width > 0 {
        lemma_hex_fixed_len(value / 16, (width - 1) as nat);
    }
}

pub proof fn lemma_pow16_positive(exponent: nat)
    ensures
        pow16(exponent) > 0,
    decreases exponent,
{
    if exponent > 0 {
        lemma_pow16_positive((exponent - 1) as nat);
    }
}

pub proof fn lemma_pow16_is_pow2(exponent: nat)
    ensures
        pow16(exponent) == vstd::arithmetic::power2::pow2(4 * exponent),
    decreases exponent,
{
    if exponent == 0 {
        vstd::arithmetic::power2::lemma2_to64();
    } else {
        lemma_pow16_is_pow2((exponent - 1) as nat);
        vstd::arithmetic::power2::lemma2_to64();
        vstd::arithmetic::power2::lemma_pow2_adds(4, (4 * (exponent - 1)) as nat);
    }
}

/// The leading digits of a number are the digits of its leading part.
pub proof fn lemma_hex_fixed_leading(value: nat, width: nat, dropped: nat)
    requires
        dropped <= width,
    ensures
        hex_fixed(value, width).take(width - dropped) == hex_fixed(
            value / pow16(dropped),
            (width - dropped) as nat,
        ),
    decreases dropped,
{
    lemma_hex_fixed_len(value, width);
    if dropped == 0 {
        assert(hex_fixed(value, width).take(width as int) =~= hex_fixed(value, width));
        assert(value / 1 == value);
    } else {
        let shorter = (dropped - 1) as nat;
        lemma_hex_fixed_len(value / 16, (width - 1) as nat);
        lemma_hex_fixed_leading(value / 16, (width - 1) as nat, shorter);
        assert(hex_fixed(value, width).take(width - dropped) =~= hex_fixed(
            value / 16,
            (width - 1) as nat,
        ).take(width - dropped));
        lemma_pow16_positive(shorter);
        vstd::arithmetic::div_mod::lemma_div_denominator(value as int, 16, pow16(shorter) as int);
    }
}

/// Numbers of at most `width` digits differ when their digits differ.
pub proof fn lemma_hex_fixed_injective(first: nat, second: nat, width: nat)
    requires
        first < pow16(width),
        second < pow16(width),
        hex_fixed(first, width) == hex_fixed(second, width),
    ensures
        first == second,
    decreases width,
{
    if width > 0 {
        let narrower = (width - 1) as nat;
        let a = hex_fixed(first, width);
        let b = hex_fixed(second, width);
        assert(a.drop_last() =~= hex_fixed(first / 16, narrower));
        assert(b.drop_last() =~= hex_fixed(second / 16, narrower));
        assert(a.last() == b.last());
        lemma_hex_fixed_injective(first / 16, second / 16, narrower);
    }
}

pub proof fn lemma_hex_bytes_len(bytes: Seq<u8>)
    ensures
        hex_bytes(bytes).len() == 2 * bytes.len(),
    decreases bytes.len(),
{
    if bytes.len() > 0 {
        lemma_hex_bytes_len(bytes.drop_last());
        lemma_hex_fixed_len(bytes.last() as nat, 2);
    }
}

/// A lower-case hexadecimal digit.
pub open spec fn is_digit(byte: u8) -> bool {
    48 <= byte <= 57 || 97 <= byte <= 102
}

pub proof fn lemma_hex_fixed_digits(value: nat, width: nat)
    ensures
        forall|i: int|
            0 <= i < hex_fixed(value, width).len() ==> is_digit(
                #[trigger] hex_fixed(value, width)[i],
            ),
    decreases width,
{
    if width > 0 {
        let front = hex_fixed(value / 16, (width - 1) as nat);
        lemma_hex_fixed_digits(value / 16, (width - 1) as nat);
        assert forall|i: int| 0 <= i < hex_fixed(value, width).len() implies is_digit(
            #[trigger] hex_fixed(value, width)[i],
        ) by {
            if i < front.len() {
                assert(is_digit(front[i]));
            }
        }
    }
}

pub proof fn lemma_hex_bytes_digits(bytes: Seq<u8>)
    ensures
        forall|i: int| 0 <= i < hex_bytes(bytes).len() ==> is_digit(#[trigger] hex_bytes(bytes)[i]),
    decreases bytes.len(),
{
    if bytes.len() > 0 {
        let front = hex_bytes(bytes.drop_last());
        let back = hex_fixed(bytes.last() as nat, 2);
        lemma_hex_bytes_digits(bytes.drop_last());
        lemma_hex_fixed_digits(bytes.last() as nat, 2);
        assert forall|i: int| 0 <= i < hex_bytes(bytes).len() implies is_digit(
            #[trigger] hex_bytes(bytes)[i],
        ) by {
            if i < front.len() {
                assert(is_digit(front[i]));
            } else {
                assert(is_digit(back[i - front.len()]));
            }
        }
    }
}

/// The digits of the leading bytes come first.
pub proof fn lemma_hex_bytes_take(bytes: Seq<u8>, count: int)
    requires
        0 <= count <= bytes.len(),
    ensures
        hex_bytes(bytes).take(2 * count) == hex_bytes(bytes.take(count)),
    decreases bytes.len(),
{
    lemma_hex_bytes_len(bytes);
    if count == bytes.len() {
        assert(bytes.take(count) =~= bytes);
        assert(hex_bytes(bytes).take(2 * count) =~= hex_bytes(bytes));
    } else {
        lemma_hex_bytes_len(bytes.drop_last());
        lemma_hex_bytes_take(bytes.drop_last(), count);
        assert(bytes.drop_last().take(count) =~= bytes.take(count));
        assert(hex_bytes(bytes).take(2 * count) =~= hex_bytes(bytes.drop_last()).take(2 * count));
    }
}

/// Hexadecimal digits by way of big-endian bytes.
pub proof fn lemma_hex_of_be(value: nat, width: nat)
    ensures
        hex_bytes(crate::hash::be_fixed(value, width)) == hex_fixed(value, 2 * width),
    decreases width,
{
    if width > 0 {
        let narrower = (width - 1) as nat;
        lemma_hex_of_be(value / 256, narrower);
        let bytes = crate::hash::be_fixed(value, width);
        let low = value % 256;
        assert(bytes.drop_last() =~= crate::hash::be_fixed(value / 256, narrower));
        assert(value / 16 / 16 == value / 256);
        assert(low % 16 == value % 16);
        assert(low / 16 % 16 == value / 16 % 16);
        reveal_with_fuel(hex_fixed, 3);
        assert(hex_fixed(low, 2) =~= seq![
            hex_digit((value / 16 % 16) as int),
            hex_digit((value % 16) as int),
        ]);
        assert(hex_fixed(value, 2 * width) =~= hex_fixed(value / 256, 2 * narrower) + hex_fixed(
            low,
            2,
        ));
    }
}

/// The digit for a value below sixteen.
pub fn digit(value: u8) -> (d: u8)
    requires
        value < 16,
    ensures
        d == hex_digit(value as int),
{
    if value < 10 {
        48 + value
    } else {
        87 + value
    }
}

/// Sixteen hexadecimal digits, whatever the nonce.
pub fn encode_nonce(nonce: u64) -> (encoded: [u8; 16])
    ensures
        encoded@ == hex_fixed(nonce as nat, 16),
{
    let mut encoded: [u8; 16] = [0; 16];
    let mut rest: u64 = nonce;
    let mut i: usize = 16;
    proof {
        assert(encoded@.subrange(16, 16) =~= Seq::<u8>::empty());
    }
    while i > 0
        invariant
            0 <= i <= 16,
            hex_fixed(nonce as nat, 16) == hex_fixed(rest as nat, i as nat) + encoded@.subrange(
                i as int,
                16,
            ),
        decreases i,
    {
        let ghost before = encoded@;
        i = i - 1;
        encoded[i] = digit((rest % 16) as u8);
        rest = rest / 16;
        assert(encoded@.subrange(i as int, 16) =~= seq![encoded@[i as int]] + before.subrange(
            i + 1,
            16,
        ));
    }
    assert(encoded@.subrange(0, 16) =~= encoded@);
    encoded
}

/// The lower-case hexadecimal text of a byte string.
pub fn hex_encode(bytes: &[u8]) -> (encoded: String)
    ensures
        encoded@ == as_chars(hex_bytes(bytes@)),
{
    let mut encoded: String = String::new();
    let mut i: usize = 0;
    while i < bytes.len()
        invariant
            i <= bytes@.len(),
            encoded@ == as_chars(hex_bytes(bytes@.take(i as int))),
        decreases bytes@.len() - i,
    {
        let byte: u8 = bytes[i];
        encoded.push(digit(byte / 16) as char);
        encoded.push(digit(byte % 16) as char);
        proof {
            assert(bytes@.take(i + 1).drop_last() =~= bytes@.take(i as int));
            reveal_with_fuel(hex_fixed, 3);
        }
        i = i + 1;
    }
    assert(bytes@.take(bytes@.len() as int) =~= bytes@);
    encoded
}

/// The number that a digit stands for.
pub open spec fn digit_value(digit: u8) -> nat {
    if 48 <= digit <= 57 {
        (digit - 48) as nat
    } else if 97 <= digit <= 102 {
        (digit - 87) as nat
    } else {
        0
    }
}

/// The number that hexadecimal digits spell.
pub open spec fn hex_value(digits: Seq<u8>) -> nat
    decreases digits.len(),
{
    if digits.len() == 0 {
        0
    } else {
        16 * hex_value(digits.drop_last()) + digit_value(digits.last())
    }
}

/// A number in hexadecimal digits can be read back: they are as many as asked for, they are digits
/// in lower case, and they spell the number.
pub proof fn digits_spell_the_number(value: nat, width: nat)
    requires
        value < vstd::arithmetic::power2::pow2(4 * width),
    ensures
        hex_fixed(value, width).len() == width,
        forall|i: int|
            0 <= i < width ==> 48 <= #[trigger] hex_fixed(value, width)[i] <= 57 || 97
                <= hex_fixed(value, width)[i] <= 102,
        hex_value(hex_fixed(value, width)) == value,
    decreases width,
{
    lemma_hex_fixed_len(value, width);
    lemma_hex_fixed_digits(value, width);
    assert forall|i: int| 0 <= i < width implies 48 <= #[trigger] hex_fixed(value, width)[i] <= 57
        || 97 <= hex_fixed(value, width)[i] <= 102 by {
        assert(is_digit(hex_fixed(value, width)[i]));
    }
    vstd::arithmetic::power2::lemma2_to64();
    if width > 0 {
        let narrower = (width - 1) as nat;
        vstd::arithmetic::power2::lemma_pow2_adds(4, 4 * narrower);
        digits_spell_the_number(value / 16, narrower);
        assert(hex_fixed(value, width).drop_last() =~= hex_fixed(value / 16, narrower));
    }
}

/// Each byte has the two digits that spell it, at twice its place.
pub proof fn two_digits_spell_each_byte(bytes: Seq<u8>, i: int)
    requires
        0 <= i < bytes.len(),
    ensures
        hex_bytes(bytes).len() == 2 * bytes.len(),
        hex_value(hex_bytes(bytes).subrange(2 * i, 2 * i + 2)) == bytes[i],
        is_digit(hex_bytes(bytes)[2 * i]),
        is_digit(hex_bytes(bytes)[2 * i + 1]),
    decreases bytes.len(),
{
    let front = bytes.drop_last();
    let last = hex_fixed(bytes.last() as nat, 2);
    lemma_hex_bytes_len(bytes);
    lemma_hex_bytes_len(front);
    lemma_hex_bytes_digits(bytes);
    vstd::arithmetic::power2::lemma2_to64();
    digits_spell_the_number(bytes.last() as nat, 2);
    if i < front.len() {
        two_digits_spell_each_byte(front, i);
        assert(hex_bytes(bytes).subrange(2 * i, 2 * i + 2) =~= hex_bytes(front).subrange(
            2 * i,
            2 * i + 2,
        ));
    } else {
        assert(hex_bytes(bytes).subrange(2 * i, 2 * i + 2) =~= last);
    }
}

/// A byte below 128 and the character that it is read as have the same code.
pub proof fn characters_have_the_codes_of_their_bytes(bytes: Seq<u8>, i: int)
    requires
        0 <= i < bytes.len(),
    ensures
        as_chars(bytes).len() == bytes.len(),
        as_chars(bytes)[i] as u32 == bytes[i] as u32,
{
}

} // verus!
