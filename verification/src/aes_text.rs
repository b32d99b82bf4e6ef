//! AES-128-CBC on text: UTF-8 in, hexadecimal ciphertext out, and back.

use vstd::prelude::*;
use vstd::utf8::{
    decode_utf8, encode_utf8, encode_utf8_decode_utf8, encode_utf8_valid_utf8, is_ascii_chars,
    is_ascii_chars_encode_utf8, valid_utf8,
};
use vstd::string::StringSliceAdditionalSpecFns;
use crate::block::{aes_decrypt, aes_encrypt, opened, sealed, DecryptError};
use crate::hexcode::{
    decode_hex, encode_hex, hex_decoded, hex_digit, hex_encoded, hex_value, is_hex,
};

verus! {

/// The hexadecimal ciphertext of `text`.
pub open spec fn encrypted_text(key: Seq<u8>, iv: Seq<u8>, text: Seq<char>) -> Seq<char> {
    hex_encoded(sealed(key, iv, encode_utf8(text)))
}

/// What decrypting `text` gives: the plaintext, or the stage that failed. The
/// stages are, in order: reading `text` as hexadecimal, decrypting and
/// unpadding, reading the result as UTF-8.
pub open spec fn decrypted_text(key: Seq<u8>, iv: Seq<u8>, text: Seq<char>) -> Result<
    Seq<char>,
    DecryptError,
> {
    let data = encode_utf8(text);
    if !is_hex(data) {
        Err(DecryptError::MalformedHex)
    } else {
        match opened(key, iv, hex_decoded(data)) {
            None => Err(DecryptError::BadPadding),
            Some(bytes) => if valid_utf8(bytes) {
                Ok(decode_utf8(bytes))
            } else {
                Err(DecryptError::NotUtf8)
            },
        }
    }
}

/// Hexadecimal text is ASCII, reads as hexadecimal, and stands for the bytes
/// it was made from.
pub proof fn lemma_hex_round_trip(bytes: Seq<u8>)
    ensures
        is_ascii_chars(hex_encoded(bytes)),
        is_hex(encode_utf8(hex_encoded(bytes))),
        hex_decoded(encode_utf8(hex_encoded(bytes))) == bytes,
{
    let text = hex_encoded(bytes);
    assert forall|v: int| 0 <= v < 16 implies '\0' <= #[trigger] hex_digit(v) <= '\u{7f}'
        && hex_value(hex_digit(v) as u8) == v by {}
    assert(is_ascii_chars(text));
    is_ascii_chars_encode_utf8(text);
    let data = encode_utf8(text);
    assert forall|i: int| 0 <= i < data.len() implies hex_value(#[trigger] data[i]) >= 0 by {
        assert(data[i] == text[i] as u8);
    }
    assert forall|i: int| 0 <= i < bytes.len() implies #[trigger] hex_decoded(data)[i]
        == bytes[i] by {
        assert(data[2 * i] == text[2 * i] as u8);
        assert(data[2 * i + 1] == text[2 * i + 1] as u8);
        assert(hex_value(data[2 * i]) == bytes[i] as int / 16);
        assert(hex_value(data[2 * i + 1]) == bytes[i] as int % 16);
    }
    assert(hex_decoded(data) =~= bytes);
}

/// Encrypts `text` and writes the ciphertext in lowercase hexadecimal.
/// Decrypting the result under the same key and initialization vector gives
/// `text` back.
pub fn aes_encrypt_text(key: &[u8], iv: &[u8], text: &str) -> (out: String)
    requires
        key@.len() == 16,
        iv@.len() == 16,
        text.spec_bytes().len() + 16 <= isize::MAX,
    ensures
        out@ == encrypted_text(key@, iv@, text@),
        decrypted_text(key@, iv@, out@) == Ok::<Seq<char>, DecryptError>(text@),
{
    let ciphertext = aes_encrypt(key, iv, text.as_bytes());
    proof {
        lemma_hex_round_trip(ciphertext@);
        encode_utf8_valid_utf8(text@);
        encode_utf8_decode_utf8(text@);
    }
    encode_hex(ciphertext.as_slice())
}

/// Decrypts hexadecimal ciphertext into text, or says which stage failed:
/// `MalformedHex` where `text` is not hexadecimal, `BadPadding` where the
/// decrypted blocks are not well-formed, `NotUtf8` where the plaintext is not
/// UTF-8.
pub fn aes_decrypt_text(key: &[u8], iv: &[u8], text: &str) -> (r: Result<String, DecryptError>)
    requires
        key@.len() == 16,
        iv@.len() == 16,
    ensures
        match decrypted_text(key@, iv@, text@) {
            Ok(plain) => r matches Ok(s) && s@ == plain,
            Err(e) => r matches Err(f) && f == e,
        },
{
    let data = match decode_hex(text.as_bytes()) {
        Ok(data) => data,
        Err(_) => {
            return Err(DecryptError::MalformedHex);
        },
    };
    let bytes = match aes_decrypt(key, iv, data.as_slice()) {
        Ok(bytes) => bytes,
        Err(e) => {
            return Err(e);
        },
    };
    match String::from_utf8(bytes) {
        Ok(plain) => Ok(plain),
        Err(_) => Err(DecryptError::NotUtf8),
    }
}

} // verus!
