use crate::decimal::{decimal_digits, fixed_point_text, place_decimal_point};
use crate::word::{
    lemma_complement_value, lemma_sign_bit, lemma_word_fits, sign_weight, word_modulus, Word256,
};
use vstd::prelude::*;

verus! {

/// Whether a 256-bit word, read as a two's-complement number, is negative.
pub open spec fn is_negative(value: nat) -> bool {
    value >= sign_weight()
}

/// The absolute value of the two's-complement number that a 256-bit word
/// holds: the word itself where it is not negative, else 2^256 less the word.
pub open spec fn magnitude(value: nat) -> nat {
    if is_negative(value) {
        (word_modulus() - value) as nat
    } else {
        value
    }
}

/// Whether `amount`, read as a two's-complement number, is negative: whether
/// its most significant bit is set.
pub fn u256_is_negative(amount: Word256) -> (negative: bool)
    ensures
        negative == is_negative(amount@),
{
    proof {
        lemma_word_fits(amount);
        lemma_sign_bit(amount@);
    }
    amount.bit(255)
}

/// Each byte of `bytes` with all of its bits inverted.
fn invert_bytes(bytes: &[u8; 32]) -> (inverted: [u8; 32])
    ensures
        forall|i: int| 0 <= i < 32 ==> inverted@[i] == 255 - bytes@[i],
{
    let mut inverted: [u8; 32] = *bytes;
    let mut i: usize = 0;
    while i < 32
        invariant
            i <= 32,
            forall|j: int| 0 <= j < i ==> inverted@[j] == 255 - bytes@[j],
            forall|j: int| i <= j < 32 ==> inverted@[j] == bytes@[j],
        decreases 32 - i,
    {
        let byte: u8 = inverted[i];
        assert(!byte == 255 - byte) by (bit_vector);
        inverted[i] = !byte;
        i += 1;
    }
    inverted
}

/// The absolute value of `amount`, read as a two's-complement number. A
/// negative word is negated by inverting its bits and adding one.
pub fn u256_magnitude(amount: Word256) -> (absolute: Word256)
    ensures
        absolute@ == magnitude(amount@),
{
    if u256_is_negative(amount) {
        let bytes = amount.to_big_endian();
        let inverted = invert_bytes(&bytes);
        proof {
            lemma_complement_value(bytes@, inverted@);
        }
        let mut absolute = Word256::from_big_endian(&inverted);
        absolute.increase(Word256::one());
        absolute
    } else {
        amount
    }
}

/// The decimal numeral of the absolute value of `amount`, with the point set
/// `decimals` places from the right.
pub fn u256_to_string(amount: Word256, decimals: usize) -> (text: String)
    ensures
        text@ == fixed_point_text(decimal_digits(magnitude(amount@)), decimals as nat),
{
    let absolute = u256_magnitude(amount);
    let digits = absolute.to_decimal_string();
    place_decimal_point(digits.as_str(), decimals)
}

/// Decodes a two's-complement amount: its sign, and the fixed-point numeral of
/// its absolute value with `decimals` places after the point.
pub fn decode(raw: Word256, decimals: usize) -> (decoded: (bool, String))
    ensures
        decoded.0 == is_negative(raw@),
        decoded.1@ == fixed_point_text(decimal_digits(magnitude(raw@)), decimals as nat),
{
    (u256_is_negative(raw), u256_to_string(raw, decimals))
}

/// Negation is undone by taking the magnitude: the word that holds `-amount`
/// for a positive `amount` of at most 2^255 is negative, and its magnitude is
/// `amount` again.
pub proof fn lemma_magnitude_undoes_negation(amount: nat)
    requires
        0 < amount <= sign_weight(),
    ensures
        is_negative((word_modulus() - amount) as nat),
        magnitude((word_modulus() - amount) as nat) == amount,
{
}

/// The magnitude of a word that is not negative is the word, and no magnitude
/// is above 2^255.
pub proof fn lemma_magnitude_range(value: nat)
    requires
        value < word_modulus(),
    ensures
        !is_negative(value) ==> magnitude(value) == value,
        is_negative(value) ==> magnitude(value) + value == word_modulus(),
        magnitude(value) <= sign_weight(),
{
}

} // verus!
