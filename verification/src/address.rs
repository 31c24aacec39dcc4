use vstd::prelude::*;
use vstd::string::*;

verus! {

/// The lowercase hexadecimal digit of a number from 0 to 15.
pub open spec fn hex_digit(nibble: nat) -> char {
    if nibble < 10 {
        ((nibble + 48) as u8) as char
    } else {
        ((nibble + 87) as u8) as char
    }
}

/// The lowercase hexadecimal text of `bytes`: two digits for each byte, the
/// high half of the byte first.
pub open spec fn hex_text(bytes: Seq<u8>) -> Seq<char> {
    Seq::new(
        2 * bytes.len(),
        |i: int|
            if i % 2 == 0 {
                hex_digit(bytes[i / 2] as nat / 16)
            } else {
                hex_digit(bytes[i / 2] as nat % 16)
            },
    )
}

/// Whether `c` is one of the characters `0` to `9` and `a` to `f`.
pub open spec fn is_lower_hex(c: char) -> bool {
    ('0' as u32 <= c as u32 <= '9' as u32) || ('a' as u32 <= c as u32 <= 'f' as u32)
}

/// How an account is written: `0x` and the hexadecimal text of its bytes.
pub open spec fn address_text(address: Seq<u8>) -> Seq<char> {
    seq!['0', 'x'] + hex_text(address)
}

/// The lowercase hexadecimal text of `bytes`.
///
/// Calls `hex::encode`, which writes each byte as two lowercase hexadecimal
/// digits, the high half first.
#[verifier::external_body]
fn hex_encode(bytes: &[u8]) -> (text: String)
    ensures
        text@ == hex_text(bytes@),
{
    hex::encode(bytes)
}

/// Writes an account as `0x` and forty lowercase hexadecimal digits.
pub fn address_to_string(address: &[u8; 20]) -> (text: String)
    ensures
        text@ == address_text(address@),
{
    proof {
        reveal_strlit("0x");
    }
    let digits = hex_encode(address.as_slice());
    let mut text = String::from_str("0x");
    text.append(digits.as_str());
    assert(text@ =~= address_text(address@));
    text
}

/// An account is written as `0x` and two lowercase hexadecimal digits for
/// each of its bytes: forty-two characters for the twenty bytes of an address.
pub proof fn lemma_address_shape(address: Seq<u8>)
    ensures
        address_text(address).len() == 2 + 2 * address.len(),
        address_text(address)[0] == '0',
        address_text(address)[1] == 'x',
        forall|i: int|
            2 <= i < address_text(address).len() ==> is_lower_hex(
                #[trigger] address_text(address)[i],
            ),
{
    let text = address_text(address);
    assert forall|i: int| 2 <= i < text.len() implies is_lower_hex(#[trigger] text[i]) by {
        assert(text[i] == hex_text(address)[i - 2]);
    }
}

} // verus!
