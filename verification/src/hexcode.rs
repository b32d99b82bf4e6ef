//! Text in hexadecimal: two digits for each byte, the high four bits first.

use vstd::prelude::*;

verus! {

/// `hex::FromHexError`, the failure of `hex::decode`; nothing is read from it.
#[verifier::external_type_specification]
#[verifier::external_body]
pub struct ExFromHexError(hex::FromHexError);

/// The lowercase hexadecimal digit for a value in `0..16`.
pub open spec fn hex_digit(value: int) -> char
    recommends
        0 <= value < 16,
{
    if value < 10 {
        ('0' as int + value) as char
    } else {
        ('a' as int + value - 10) as char
    }
}

/// The lowercase hexadecimal text of `bytes`.
pub open spec fn hex_encoded(bytes: Seq<u8>) -> Seq<char> {
    Seq::new(
        2 * bytes.len(),
        |i: int|
            if i % 2 == 0 {
                hex_digit(bytes[i / 2] as int / 16)
            } else {
                hex_digit(bytes[i / 2] as int % 16)
            },
    )
}

/// The value of a byte read as a hexadecimal digit of either case, or -1
/// where it is no such digit.
pub open spec fn hex_value(digit: u8) -> int {
    if '0' as int <= digit as int <= '9' as int {
        digit as int - '0' as int
    } else if 'a' as int <= digit as int <= 'f' as int {
        digit as int - 'a' as int + 10
    } else if 'A' as int <= digit as int <= 'F' as int {
        digit as int - 'A' as int + 10
    } else {
        -1
    }
}

/// Whether `data` is hexadecimal text: an even number of bytes, each of them
/// a digit.
pub open spec fn is_hex(data: Seq<u8>) -> bool {
    &&& data.len() % 2 == 0
    &&& forall|i: int| 0 <= i < data.len() ==> hex_value(#[trigger] data[i]) >= 0
}

/// The bytes that hexadecimal text stands for.
pub open spec fn hex_decoded(data: Seq<u8>) -> Seq<u8>
    recommends
        is_hex(data),
{
    Seq::new(
        data.len() / 2,
        |i: int| (16 * hex_value(data[2 * i]) + hex_value(data[2 * i + 1])) as u8,
    )
}

/// `hex::encode` writes each byte as two lowercase digits, the high four bits
/// first.
#[verifier::external_body]
pub(crate) fn encode_hex(bytes: &[u8]) -> (text: String)
    ensures
        text@ == hex_encoded(bytes@),
{
    hex::encode(bytes)
}

/// `hex::decode` accepts an even number of digits of either case and gives the
/// byte of each pair; on anything else it fails.
#[verifier::external_body]
pub(crate) fn decode_hex(data: &[u8]) -> (r: Result<Vec<u8>, hex::FromHexError>)
    ensures
        r is Ok <==> is_hex(data@),
        r matches Ok(bytes) ==> bytes@ == hex_decoded(data@),
{
    hex::decode(data)
}

} // verus!
