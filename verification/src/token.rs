//! Session tokens: fresh random bytes, rendered as hex.

use vstd::prelude::*;
use rand::TryRngCore;

verus! {

/// The lowercase hex digit for a nibble value below 16.
pub open spec fn hex_digit(v: u8) -> char {
    if v < 10 {
        (v + 0x30) as char
    } else {
        (v + 0x57) as char
    }
}

/// The lowercase hex rendering of a byte string: two digits per byte, high
/// nibble first.
pub open spec fn hex_of(bytes: Seq<u8>) -> Seq<char> {
    Seq::new(
        2 * bytes.len(),
        |i: int|
            if i % 2 == 0 {
                hex_digit(bytes[i / 2] >> 4)
            } else {
                hex_digit(bytes[i / 2] & 0xF)
            },
    )
}

/// `c` is one of the sixteen lowercase hex digits.
pub open spec fn is_lower_hex_digit(c: char) -> bool {
    ('0' <= c && c <= '9') || ('a' <= c && c <= 'f')
}

/// Every character of a hex rendering is a lowercase hex digit.
pub proof fn lemma_hex_of_digits(bytes: Seq<u8>)
    ensures
        hex_of(bytes).len() == 2 * bytes.len(),
        forall|i: int| 0 <= i < hex_of(bytes).len() ==> is_lower_hex_digit(#[trigger] hex_of(bytes)[i]),
{
    assert forall|i: int| 0 <= i < hex_of(bytes).len()
        implies is_lower_hex_digit(#[trigger] hex_of(bytes)[i]) by {
        let b = bytes[i / 2];
        assert(b >> 4 < 16 && b & 0xF < 16) by (bit_vector);
    }
}

/// Relies on hex::encode: two lowercase digits for each byte, high nibble
/// first, depending on the bytes alone.
#[verifier::external_body]
fn hex_encode(bytes: &Vec<u8>) -> (r: String)
    ensures
        r@ == hex_of(bytes@),
{
    hex::encode(bytes.as_slice())
}

/// Relies on the operating-system generator behind rand's OsRng: it fills
/// the buffer or reports an error; nothing is promised about the values.
#[verifier::external_body]
fn os_random_bytes() -> (r: Result<Vec<u8>, String>)
    ensures
        r matches Ok(b) ==> b@.len() == 32,
{
    let mut bytes = [0u8; 32];
    match rand::rngs::OsRng.try_fill_bytes(&mut bytes) {
        Ok(()) => Ok(bytes.to_vec()),
        Err(e) => Err(format!("{e}")),
    }
}

/// A fresh session token: 32 random bytes from the operating system,
/// rendered as their 64 lowercase hex digits.
pub fn generate_session_token() -> (r: Result<String, String>)
    ensures
        r matches Ok(t) ==> {
            &&& t@.len() == 64
            &&& forall|i: int| 0 <= i < t@.len() ==> is_lower_hex_digit(#[trigger] t@[i])
            &&& exists|b: Seq<u8>| b.len() == 32 && t@ == hex_of(b)
        },
{
    let bytes = match os_random_bytes() {
        Ok(b) => b,
        Err(e) => {
            return Err(e);
        }
    };
    let token = hex_encode(&bytes);
    proof {
        lemma_hex_of_digits(bytes@);
        assert(bytes@.len() == 32 && token@ == hex_of(bytes@));
    }
    Ok(token)
}

} // verus!
