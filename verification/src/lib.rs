//! A text transformation engine with four cipher strategies: the Caesar shift,
//! the Vigenere keyword cipher, a frequency-based Caesar cracker, and AES-128 in
//! CBC mode with PKCS#7 padding over hex-encoded text.

pub mod aes_text;
pub mod alphabet;
pub mod bignat;
pub mod block;
pub mod caesar;
pub mod cracker;
pub mod engine;
pub mod frequency;
pub mod hexcode;
pub mod strings;
pub mod vigenere;
