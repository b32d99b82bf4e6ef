//! AES-128 in CBC mode with PKCS#7 padding, on byte buffers.
//!
//! The padding is stated here in full. What the block cipher does to padded
//! data is not: `cbc_encrypt_blocks` and `cbc_decrypt_blocks` only name it.

use vstd::prelude::*;
use cbc::cipher::block_padding::{Pkcs7, UnpadError};
use cbc::cipher::{BlockDecryptMut, BlockEncryptMut, KeyIvInit};

verus! {

/// `UnpadError` of the cipher's padding, the failure of a padded decryption;
/// nothing is read from it.
#[verifier::external_type_specification]
#[verifier::external_body]
pub struct ExUnpadError(UnpadError);

/// Bytes in one cipher block, and in a key and in an initialization vector.
pub const BLOCK_LEN: usize = 16;

/// Why a ciphertext could not be turned back into text.
#[derive(Debug, Clone, Copy, PartialEq, Eq, Structural)]
pub enum DecryptError {
    /// The input is not hexadecimal text.
    MalformedHex,
    /// The decrypted blocks do not end in well-formed padding: the key, the
    /// initialization vector or the ciphertext is wrong.
    BadPadding,
    /// The decrypted bytes are not UTF-8.
    NotUtf8,
}

impl DecryptError {
    /// The message that reports this failure to a user.
    pub open spec fn message_text(self) -> Seq<char> {
        match self {
            DecryptError::MalformedHex => "Error: Input for decryption is not a valid hex string."@,
            DecryptError::BadPadding => "Error: Decryption failed. Check your key, IV, and ciphertext."@,
            DecryptError::NotUtf8 => "Error: Decrypted data is not valid UTF-8"@,
        }
    }

    /// Writes the message that reports this failure to a user.
    pub fn message(&self) -> (text: String)
        ensures
            text@ == self.message_text(),
    {
        match self {
            DecryptError::MalformedHex => "Error: Input for decryption is not a valid hex string.".to_owned(),
            DecryptError::BadPadding => "Error: Decryption failed. Check your key, IV, and ciphertext.".to_owned(),
            DecryptError::NotUtf8 => "Error: Decrypted data is not valid UTF-8".to_owned(),
        }
    }
}

/// How many bytes PKCS#7 appends to data of length `len`: between 1 and 16,
/// so that the whole is a multiple of 16.
pub open spec fn pad_len(len: nat) -> int {
    16 - (len as int) % 16
}

/// `data` followed by its PKCS#7 padding: `n` bytes of value `n`.
pub open spec fn pkcs7_padded(data: Seq<u8>) -> Seq<u8> {
    data + Seq::new(pad_len(data.len()) as nat, |i: int| pad_len(data.len()) as u8)
}

/// Whether `blocks` ends in well-formed PKCS#7 padding: its last byte `n` is
/// between 1 and 16, and each of its last `n` bytes is `n`.
pub open spec fn pkcs7_well_formed(blocks: Seq<u8>) -> bool {
    &&& blocks.len() >= 16
    &&& 1 <= blocks.last() <= 16
    &&& forall|i: int|
        blocks.len() - blocks.last() <= i < blocks.len() ==> #[trigger] blocks[i] == blocks.last()
}

/// `blocks` without its padding.
pub open spec fn pkcs7_stripped(blocks: Seq<u8>) -> Seq<u8>
    recommends
        pkcs7_well_formed(blocks),
{
    blocks.take(blocks.len() - blocks.last())
}

/// The AES-128-CBC encryption of whole blocks under a key and an
/// initialization vector.
pub uninterp spec fn cbc_encrypt_blocks(key: Seq<u8>, iv: Seq<u8>, blocks: Seq<u8>) -> Seq<u8>;

/// The AES-128-CBC decryption of whole blocks under a key and an
/// initialization vector.
pub uninterp spec fn cbc_decrypt_blocks(key: Seq<u8>, iv: Seq<u8>, blocks: Seq<u8>) -> Seq<u8>;

/// The ciphertext of `plaintext`: its padded form, encrypted.
pub open spec fn sealed(key: Seq<u8>, iv: Seq<u8>, plaintext: Seq<u8>) -> Seq<u8> {
    cbc_encrypt_blocks(key, iv, pkcs7_padded(plaintext))
}

/// The plaintext of `ciphertext`, if there is one: the ciphertext must be a
/// positive number of whole blocks that decrypt to well-formed padding.
pub open spec fn opened(key: Seq<u8>, iv: Seq<u8>, ciphertext: Seq<u8>) -> Option<Seq<u8>> {
    let blocks = cbc_decrypt_blocks(key, iv, ciphertext);
    if ciphertext.len() > 0 && ciphertext.len() % 16 == 0 && pkcs7_well_formed(blocks) {
        Some(pkcs7_stripped(blocks))
    } else {
        None
    }
}

/// `encrypt_padded_vec_mut` of `cbc::Encryptor<aes::Aes128>` with `Pkcs7`: it
/// pads the message, encrypts the padded blocks and returns them. The result
/// is as long as the padded message, and decrypting it under the same key and
/// initialization vector gives the padded message back.
#[verifier::external_body]
fn encrypt_padded(key: &[u8], iv: &[u8], plaintext: &[u8]) -> (ciphertext: Vec<u8>)
    requires
        key@.len() == 16,
        iv@.len() == 16,
        plaintext@.len() + 16 <= isize::MAX,
    ensures
        ciphertext@ == cbc_encrypt_blocks(key@, iv@, pkcs7_padded(plaintext@)),
        ciphertext@.len() == pkcs7_padded(plaintext@).len(),
        cbc_decrypt_blocks(key@, iv@, ciphertext@) == pkcs7_padded(plaintext@),
{
    let cipher = cbc::Encryptor::<aes::Aes128>::new(key.into(), iv.into());
    cipher.encrypt_padded_vec_mut::<Pkcs7>(plaintext)
}

/// `decrypt_padded_vec_mut` of `cbc::Decryptor<aes::Aes128>` with `Pkcs7`: it
/// fails unless the input is a positive number of whole blocks; it decrypts
/// them, fails unless they end in well-formed padding, and returns them
/// without it.
#[verifier::external_body]
fn decrypt_padded(key: &[u8], iv: &[u8], ciphertext: &[u8]) -> (r: Result<Vec<u8>, UnpadError>)
    requires
        key@.len() == 16,
        iv@.len() == 16,
    ensures
        r is Ok <==> opened(key@, iv@, ciphertext@) is Some,
        r matches Ok(plaintext) ==> Some(plaintext@) == opened(key@, iv@, ciphertext@),
{
    let cipher = cbc::Decryptor::<aes::Aes128>::new(key.into(), iv.into());
    cipher.decrypt_padded_vec_mut::<Pkcs7>(ciphertext)
}

/// Stripping the padding from padded data gives the data back.
pub proof fn lemma_pkcs7_round_trip(data: Seq<u8>)
    ensures
        pkcs7_padded(data).len() == data.len() + pad_len(data.len()),
        1 <= pad_len(data.len()) <= 16,
        pkcs7_padded(data).len() % 16 == 0,
        pkcs7_well_formed(pkcs7_padded(data)),
        pkcs7_stripped(pkcs7_padded(data)) == data,
{
    let padded = pkcs7_padded(data);
    let n = pad_len(data.len());
    assert(padded.last() == n as u8);
    assert(pkcs7_stripped(padded) =~= data);
}

/// Encrypts `plaintext` under a 16-byte key and initialization vector.
///
/// The plaintext is padded to whole blocks of 16 bytes and encrypted block by
/// block, each block chained to the ciphertext before it. Decrypting the
/// result under the same key and initialization vector gives `plaintext` back.
pub fn aes_encrypt(key: &[u8], iv: &[u8], plaintext: &[u8]) -> (ciphertext: Vec<u8>)
    requires
        key@.len() == 16,
        iv@.len() == 16,
        plaintext@.len() + 16 <= isize::MAX,
    ensures
        ciphertext@ == sealed(key@, iv@, plaintext@),
        ciphertext@.len() == plaintext@.len() + pad_len(plaintext@.len()),
        opened(key@, iv@, ciphertext@) == Some(plaintext@),
{
    proof {
        lemma_pkcs7_round_trip(plaintext@);
    }
    encrypt_padded(key, iv, plaintext)
}

/// Decrypts `ciphertext` under a 16-byte key and initialization vector and
/// removes the padding. It fails where the ciphertext is not a positive number
/// of whole blocks or the decrypted blocks do not end in well-formed padding.
pub fn aes_decrypt(key: &[u8], iv: &[u8], ciphertext: &[u8]) -> (r: Result<Vec<u8>, DecryptError>)
    requires
        key@.len() == 16,
        iv@.len() == 16,
    ensures
        match opened(key@, iv@, ciphertext@) {
            Some(plaintext) => r matches Ok(bytes) && bytes@ == plaintext,
            None => r == Err::<Vec<u8>, DecryptError>(DecryptError::BadPadding),
        },
{
    match decrypt_padded(key, iv, ciphertext) {
        Ok(plaintext) => Ok(plaintext),
        Err(_) => Err(DecryptError::BadPadding),
    }
}

} // verus!
