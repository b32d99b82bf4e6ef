//! The engine: one of four cipher strategies, chosen with its parameters, and
//! applied to a text.

use vstd::prelude::*;
use vstd::string::StringSliceAdditionalSpecFns;
use crate::aes_text::{aes_decrypt_text, aes_encrypt_text, decrypted_text, encrypted_text};
use crate::caesar::{caesar_cipher, caesar_text};
use crate::cracker::{crack_caesar, is_cracked};
use crate::vigenere::{vigenere_cipher, vigenere_text};

verus! {

/// A cipher strategy with its parameters.
#[derive(Debug, Clone)]
pub enum Cipher {
    /// The Caesar cipher with a shift.
    Caesar(i16),
    /// The Vigenere cipher with a keyword, encrypting or decrypting.
    Vigenere { keyword: String, decrypt: bool },
    /// Recovery of an unknown Caesar shift.
    CrackCaesar,
    /// AES-128-CBC with a key and an initialization vector, encrypting or
    /// decrypting.
    Aes { key: [u8; 16], iv: [u8; 16], decrypt: bool },
}

/// What a cipher made of a text.
#[derive(Debug, Clone)]
pub struct Outcome {
    /// The transformed text, or the message of a failed AES decryption.
    pub text: String,
    /// The shift that the cracker recovered; `None` for every other strategy.
    pub recovered_shift: Option<i16>,
}

impl Cipher {
    /// Whether `text` can be processed: memory must hold an AES ciphertext of it.
    pub open spec fn accepts(&self, text: &str) -> bool {
        self matches Cipher::Aes { decrypt: false, .. } ==> text.spec_bytes().len() + 16
            <= isize::MAX
    }

    /// Whether `outcome` is what this cipher makes of `text`.
    pub open spec fn yields(&self, text: Seq<char>, outcome: Outcome) -> bool {
        match *self {
            Cipher::Caesar(shift) => {
                &&& outcome.text@ == caesar_text(text, shift as int)
                &&& outcome.recovered_shift is None
            },
            Cipher::Vigenere { keyword, decrypt } => {
                &&& outcome.text@ == vigenere_text(text, keyword@, decrypt)
                &&& outcome.recovered_shift is None
            },
            Cipher::CrackCaesar => {
                &&& outcome.recovered_shift matches Some(shift)
                &&& is_cracked(text, outcome.text@, shift as int)
            },
            Cipher::Aes { key, iv, decrypt } => {
                &&& outcome.recovered_shift is None
                &&& outcome.text@ == if decrypt {
                    match decrypted_text(key@, iv@, text) {
                        Ok(plain) => plain,
                        Err(e) => e.message_text(),
                    }
                } else {
                    encrypted_text(key@, iv@, text)
                }
            },
        }
    }

    /// Applies this cipher to `text`.
    ///
    /// The outcome holds the output of the chosen strategy, unchanged. A failed
    /// AES decryption gives the message of the failure in place of the output.
    /// The cracker also reports the shift it recovered.
    pub fn process(&self, text: &str) -> (outcome: Outcome)
        requires
            self.accepts(text),
        ensures
            self.yields(text@, outcome),
    {
        match self {
            Cipher::Caesar(shift) => Outcome {
                text: caesar_cipher(text, *shift),
                recovered_shift: None,
            },
            Cipher::Vigenere { keyword, decrypt } => Outcome {
                text: vigenere_cipher(text, keyword.as_str(), *decrypt),
                recovered_shift: None,
            },
            Cipher::CrackCaesar => {
                let (plain, shift) = crack_caesar(text);
                Outcome { text: plain, recovered_shift: Some(shift) }
            },
            Cipher::Aes { key, iv, decrypt } => {
                if *decrypt {
                    let plain = match aes_decrypt_text(key.as_slice(), iv.as_slice(), text) {
                        Ok(plain) => plain,
                        Err(e) => e.message(),
                    };
                    Outcome { text: plain, recovered_shift: None }
                } else {
                    Outcome {
                        text: aes_encrypt_text(key.as_slice(), iv.as_slice(), text),
                        recovered_shift: None,
                    }
                }
            },
        }
    }
}

} // verus!
