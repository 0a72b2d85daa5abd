//! How the bytes of a log entry are written as text: addresses and hashes in
//! hexadecimal, amounts in decimal.

use vstd::prelude::*;
use ethers::types::{H160, H256, U256};
use crate::decimal::nat_decimal;

verus! {

/// The number that a sequence of bytes denotes, most significant byte first.
pub open spec fn be_value(bytes: Seq<u8>) -> nat
    decreases bytes.len(),
{
    if bytes.len() == 0 {
        0
    } else {
        256 * be_value(bytes.drop_last()) + bytes.last() as nat
    }
}

/// The lowercase hexadecimal digit for `n`, for `n` below sixteen.
pub open spec fn hex_char(n: nat) -> char {
    if n < 10 {
        ('0' as int + n) as char
    } else {
        ('a' as int + n - 10) as char
    }
}

/// Two lowercase hexadecimal digits for each byte, in order.
pub open spec fn hex_digits(bytes: Seq<u8>) -> Seq<char> {
    Seq::new(
        2 * bytes.len(),
        |i: int|
            if i % 2 == 0 {
                hex_char((bytes[i / 2] / 16) as nat)
            } else {
                hex_char((bytes[i / 2] % 16) as nat)
            },
    )
}

/// The hexadecimal notation of a sequence of bytes, after the prefix `0x`.
pub open spec fn hex_prefixed(bytes: Seq<u8>) -> Seq<char> {
    seq!['0', 'x'] + hex_digits(bytes)
}

/// Writes a 20-byte address in hexadecimal.
///
/// Trusted: builds an `ethers::types::H160` from the bytes with `from_slice`
/// and formats it with `{:?}`. That writes `0x` and then every byte as two
/// lowercase hexadecimal digits. `from_slice` panics on any other length
/// than 20, which the precondition excludes.
#[verifier::external_body]
pub(crate) fn address_hex(bytes: &[u8]) -> (s: String)
    requires
        bytes@.len() == 20,
    ensures
        s@ == hex_prefixed(bytes@),
{
    format!("{:?}", H160::from_slice(bytes))
}

/// Writes a 32-byte hash in hexadecimal.
///
/// Trusted: builds an `ethers::types::H256` from the bytes with `from_slice`
/// and formats it with `{:#x}`. That writes `0x` and then every byte as two
/// lowercase hexadecimal digits. `from_slice` panics on any other length
/// than 32, which the precondition excludes.
#[verifier::external_body]
pub(crate) fn hash_hex(bytes: &[u8]) -> (s: String)
    requires
        bytes@.len() == 32,
    ensures
        s@ == hex_prefixed(bytes@),
{
    format!("{:#x}", H256::from_slice(bytes))
}

/// Writes in decimal the unsigned integer that up to 32 bytes denote, most
/// significant byte first.
///
/// Trusted: reads the bytes with `ethers::types::U256::from_big_endian` and
/// writes the number with its `Display` form, which is plain decimal without
/// leading zeros, and `0` for zero. `from_big_endian` panics on more than 32
/// bytes, which the precondition excludes.
#[verifier::external_body]
pub(crate) fn amount_decimal(bytes: &[u8]) -> (s: String)
    requires
        bytes@.len() <= 32,
    ensures
        s@ == nat_decimal(be_value(bytes@)),
{
    U256::from_big_endian(bytes).to_string()
}

/// The value of a hexadecimal digit given as a byte, in either letter case.
pub open spec fn hex_value(b: u8) -> Option<u8> {
    if '0' as u8 <= b <= '9' as u8 {
        Some((b - '0' as u8) as u8)
    } else if 'a' as u8 <= b <= 'f' as u8 {
        Some((b - 'a' as u8 + 10) as u8)
    } else if 'A' as u8 <= b <= 'F' as u8 {
        Some((b - 'A' as u8 + 10) as u8)
    } else {
        None
    }
}

/// Whether `text` is hexadecimal notation for a sequence of bytes: an even
/// number of hexadecimal digits.
pub open spec fn is_hex(text: Seq<u8>) -> bool {
    text.len() % 2 == 0 && forall|i: int| 0 <= i < text.len() ==> hex_value(#[trigger] text[i]) is Some
}

/// The bytes that hexadecimal notation denotes, two digits to a byte.
pub open spec fn hex_decoded(text: Seq<u8>) -> Seq<u8> {
    Seq::new(
        text.len() / 2,
        |i: int| (16 * hex_value(text[2 * i])->0 + hex_value(text[2 * i + 1])->0) as u8,
    )
}

/// The error of `hex::decode`. Nothing is read from it.
#[verifier::external_type_specification]
#[verifier::external_body]
pub struct ExFromHexError(hex::FromHexError);

/// Reads bytes from hexadecimal notation.
///
/// Trusted: calls `hex::decode`. It fails on an odd number of digits and on
/// any byte that is no hexadecimal digit, lowercase or uppercase; otherwise
/// each pair of digits gives one byte, the first digit being the high half.
#[verifier::external_body]
pub(crate) fn hex_decode(text: &[u8]) -> (r: Result<Vec<u8>, hex::FromHexError>)
    ensures
        r is Ok <==> is_hex(text@),
        r matches Ok(v) ==> v@ == hex_decoded(text@),
{
    hex::decode(text)
}

} // verus!
