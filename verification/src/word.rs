use crate::decimal::decimal_digits;
use vstd::arithmetic::power2::{lemma2_to64, lemma2_to64_rest, lemma_pow2_adds, pow2};
use vstd::prelude::*;

verus! {

/// The base of one limb, 2^64.
pub open spec fn limb_base() -> nat {
    0x1_0000_0000_0000_0000nat
}

/// 2^255: the weight of the sign bit of a 256-bit two's-complement word.
pub open spec fn sign_weight() -> nat {
    0x8000_0000_0000_0000_0000_0000_0000_0000_0000_0000_0000_0000_0000_0000_0000_0000nat
}

/// 2^256: the number of values a 256-bit word can hold.
pub open spec fn word_modulus() -> nat {
    0x1_0000_0000_0000_0000_0000_0000_0000_0000_0000_0000_0000_0000_0000_0000_0000_0000nat
}

/// The number that a byte string spells when read most significant byte first.
pub open spec fn big_endian_value(bytes: Seq<u8>) -> nat
    decreases bytes.len(),
{
    if bytes.len() == 0 {
        0
    } else {
        big_endian_value(bytes.drop_last()) * 256 + bytes.last() as nat
    }
}

/// A 256-bit word, held as four 64-bit limbs, least significant limb first.
#[derive(Clone, Copy, Debug, PartialEq, Eq)]
pub struct Word256 {
    pub limbs: [u64; 4],
}

impl View for Word256 {
    type V = nat;

    /// The unsigned number that the word holds.
    open spec fn view(&self) -> nat {
        (self.limbs[0] as nat) + (self.limbs[1] as nat) * limb_base() + (self.limbs[2] as nat)
            * limb_base() * limb_base() + (self.limbs[3] as nat) * limb_base() * limb_base()
            * limb_base()
    }
}

impl Word256 {
    /// The word that holds the number one.
    pub fn one() -> (word: Word256)
        ensures
            word@ == 1,
    {
        Word256 { limbs: [1, 0, 0, 0] }
    }

    /// Whether bit `index` of the word is set, bit 0 being the least significant.
    ///
    /// Calls `U256::bit`, which reads the bit from the limb that holds it and
    /// panics for an index past the word's width.
    #[verifier::external_body]
    pub(crate) fn bit(&self, index: usize) -> (set: bool)
        requires
            index < 256,
        ensures
            set == ((self@ / pow2(index as nat)) % 2 == 1),
    {
        web3::types::U256(self.limbs).bit(index)
    }

    /// The 32 bytes of the word, most significant byte first.
    ///
    /// Calls `U256::to_big_endian`, which writes the limbs from the most
    /// significant to the least, each as eight big-endian bytes.
    #[verifier::external_body]
    pub(crate) fn to_big_endian(&self) -> (bytes: [u8; 32])
        ensures
            big_endian_value(bytes@) == self@,
    {
        let mut bytes = [0u8; 32];
        web3::types::U256(self.limbs).to_big_endian(&mut bytes);
        bytes
    }

    /// The word that 32 bytes spell, most significant byte first.
    ///
    /// Calls `U256::from_big_endian`, which reads each limb from eight
    /// big-endian bytes, the most significant limb first.
    #[verifier::external_body]
    pub(crate) fn from_big_endian(bytes: &[u8; 32]) -> (word: Word256)
        ensures
            word@ == big_endian_value(bytes@),
    {
        Word256 { limbs: web3::types::U256::from_big_endian(bytes).0 }
    }

    /// Adds `by` to the word.
    ///
    /// Calls the `+=` of `U256`, which adds limb by limb with carry and panics
    /// when the sum does not fit in 256 bits; those sums are left out here.
    #[verifier::external_body]
    pub(crate) fn increase(&mut self, by: Word256)
        requires
            old(self)@ + by@ < word_modulus(),
        ensures
            final(self)@ == old(self)@ + by@,
    {
        let mut sum = web3::types::U256(self.limbs);
        sum += web3::types::U256(by.limbs);
        self.limbs = sum.0;
    }

    /// The decimal numeral of the word.
    ///
    /// Calls `to_string` on a `U256`, whose `Display` writes `0` for zero and
    /// otherwise the decimal digits, most significant first, without padding.
    #[verifier::external_body]
    pub(crate) fn to_decimal_string(&self) -> (digits: String)
        ensures
            digits@ == decimal_digits(self@),
    {
        web3::types::U256(self.limbs).to_string()
    }
}

/// 256 to the power `count`: the number of values that `count` bytes can hold.
pub open spec fn byte_span(count: nat) -> nat
    decreases count,
{
    if count == 0 {
        1
    } else {
        256 * byte_span((count - 1) as nat)
    }
}

/// Every word holds a number below 2^256.
pub proof fn lemma_word_fits(word: Word256)
    ensures
        word@ < word_modulus(),
{
}

/// Bit 255 of a number below 2^256 is set exactly when the number is 2^255 or
/// more.
pub proof fn lemma_sign_bit(value: nat)
    requires
        value < word_modulus(),
    ensures
        ((value / pow2(255)) % 2 == 1) == (value >= sign_weight()),
{
    lemma2_to64();
    lemma2_to64_rest();
    lemma_pow2_adds(64, 64);
    lemma_pow2_adds(128, 64);
    lemma_pow2_adds(192, 63);
    let p63 = pow2(63);
    let p64 = pow2(64);
    let p128 = pow2(128);
    let p192 = pow2(192);
    assert(p128 == 0x1_0000_0000_0000_0000_0000_0000_0000_0000nat) by (nonlinear_arith)
        requires
            p128 == p64 * p64,
            p64 == 0x1_0000_0000_0000_0000nat,
    ;
    assert(p192 == 0x1_0000_0000_0000_0000_0000_0000_0000_0000_0000_0000_0000_0000nat)
        by (nonlinear_arith)
        requires
            p192 == p128 * p64,
            p128 == 0x1_0000_0000_0000_0000_0000_0000_0000_0000nat,
            p64 == 0x1_0000_0000_0000_0000nat,
    ;
    assert(pow2(255) == sign_weight()) by (nonlinear_arith)
        requires
            pow2(255) == p192 * p63,
            p192 == 0x1_0000_0000_0000_0000_0000_0000_0000_0000_0000_0000_0000_0000nat,
            p63 == 0x8000_0000_0000_0000nat,
    ;
    let quotient = value
        / 0x8000_0000_0000_0000_0000_0000_0000_0000_0000_0000_0000_0000_0000_0000_0000_0000nat;
    assert(quotient == value / pow2(255));
    assert(quotient == if value >= sign_weight() { 1nat } else { 0nat });
}

/// Thirty-two bytes hold 2^256 values.
pub proof fn lemma_word_span()
    ensures
        byte_span(32) == word_modulus(),
{
    reveal_with_fuel(byte_span, 33);
}

/// A byte string and the string of its inverted bytes spell two numbers that
/// add up to the largest that strings of their length can spell.
pub proof fn lemma_inverted_value(bytes: Seq<u8>, inverted: Seq<u8>)
    requires
        inverted.len() == bytes.len(),
        forall|i: int| 0 <= i < bytes.len() ==> inverted[i] == 255 - bytes[i],
    ensures
        big_endian_value(bytes) + big_endian_value(inverted) + 1 == byte_span(bytes.len()),
    decreases bytes.len(),
{
    if bytes.len() > 0 {
        lemma_inverted_value(bytes.drop_last(), inverted.drop_last());
    }
}

/// Inverting the 32 bytes of a word gives the word that is 2^256 - 1 less the
/// first.
pub proof fn lemma_complement_value(bytes: Seq<u8>, inverted: Seq<u8>)
    requires
        bytes.len() == 32,
        inverted.len() == 32,
        forall|i: int| 0 <= i < 32 ==> inverted[i] == 255 - bytes[i],
    ensures
        big_endian_value(bytes) + big_endian_value(inverted) + 1 == word_modulus(),
{
    lemma_inverted_value(bytes, inverted);
    lemma_word_span();
}

} // verus!
