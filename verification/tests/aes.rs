use cipher_engine::aes_text::{aes_decrypt_text, aes_encrypt_text};
use cipher_engine::block::{aes_decrypt, aes_encrypt, DecryptError};

const KEY: &[u8; 16] = b"0123456789abcdef";
const IV: &[u8; 16] = b"fedcba9876543210";

#[test]
fn aes_matches_the_published_vector() {
    let key = hex::decode("2b7e151628aed2a6abf7158809cf4f3c").unwrap();
    let iv = hex::decode("000102030405060708090a0b0c0d0e0f").unwrap();
    let block = hex::decode("6bc1bee22e409f96e93d7e117393172a").unwrap();
    let ciphertext = aes_encrypt(&key, &iv, &block);
    assert_eq!(
        hex::encode(&ciphertext),
        "7649abac8119b246cee98e9b12e9197d8964e0b149c10b7b682e6e39aaeb731c"
    );
    assert_eq!(aes_decrypt(&key, &iv, &ciphertext), Ok(block));
}

#[test]
fn aes_known_ciphertexts() {
    assert_eq!(hex::encode(aes_encrypt(KEY, IV, b"")), "3c492cedd954cc383f3d3ee93e728484");
    assert_eq!(
        hex::encode(aes_encrypt(KEY, IV, b"Hello, World!")),
        "f50747844105cb294517b02d8e571933"
    );
    assert_eq!(
        hex::encode(aes_encrypt(KEY, IV, &[b'C'; 17])),
        "b53dc104ea0f02af491065084ace2187e0e86423bb1579bec90398ddfde40ee6"
    );
}

#[test]
fn aes_round_trip_at_the_padding_boundary() {
    for len in [0usize, 1, 15, 16, 17, 31, 32, 33, 100] {
        let plaintext: Vec<u8> = (0..len).map(|i| (i * 7 + 3) as u8).collect();
        let ciphertext = aes_encrypt(KEY, IV, &plaintext);
        assert_eq!(ciphertext.len(), len + 16 - len % 16);
        assert_eq!(ciphertext.len() % 16, 0);
        assert_eq!(aes_decrypt(KEY, IV, &ciphertext), Ok(plaintext));
    }
}

#[test]
fn aes_pads_a_full_block_with_a_whole_block() {
    assert_eq!(aes_encrypt(KEY, IV, &[0u8; 15]).len(), 16);
    assert_eq!(aes_encrypt(KEY, IV, &[0u8; 16]).len(), 32);
}

#[test]
fn aes_round_trip_keeps_bytes_that_look_like_padding() {
    let plaintext = vec![3u8, 3, 3];
    let ciphertext = aes_encrypt(KEY, IV, &plaintext);
    assert_eq!(aes_decrypt(KEY, IV, &ciphertext), Ok(plaintext));
    let plaintext = vec![16u8; 16];
    let ciphertext = aes_encrypt(KEY, IV, &plaintext);
    assert_eq!(aes_decrypt(KEY, IV, &ciphertext), Ok(plaintext));
}

#[test]
fn aes_encryption_depends_on_key_and_iv() {
    let a = aes_encrypt(KEY, IV, b"same text");
    let b = aes_encrypt(IV, IV, b"same text");
    let c = aes_encrypt(KEY, KEY, b"same text");
    assert_ne!(a, b);
    assert_ne!(a, c);
    assert_ne!(a, b"same text".to_vec());
}

#[test]
fn aes_tampered_ciphertext_fails_the_padding_check() {
    let ciphertext = aes_encrypt(KEY, IV, b"Hello, World!");
    for i in 0..ciphertext.len() {
        let mut tampered = ciphertext.clone();
        tampered[i] ^= 1;
        assert_eq!(aes_decrypt(KEY, IV, &tampered), Err(DecryptError::BadPadding));
    }
}

#[test]
fn aes_wrong_key_fails_the_padding_check() {
    let ciphertext = aes_encrypt(KEY, IV, b"Hello, World!");
    assert_eq!(aes_decrypt(IV, IV, &ciphertext), Err(DecryptError::BadPadding));
}

#[test]
fn aes_decrypt_rejects_partial_blocks() {
    assert_eq!(aes_decrypt(KEY, IV, &[]), Err(DecryptError::BadPadding));
    assert_eq!(aes_decrypt(KEY, IV, &[0u8; 15]), Err(DecryptError::BadPadding));
    assert_eq!(aes_decrypt(KEY, IV, &[0u8; 17]), Err(DecryptError::BadPadding));
    let ciphertext = aes_encrypt(KEY, IV, &[b'B'; 16]);
    assert_eq!(aes_decrypt(KEY, IV, &ciphertext[..31]), Err(DecryptError::BadPadding));
}

#[test]
fn aes_decrypt_rejects_blocks_without_padding() {
    // These 16 zero bytes decrypt to blocks that end in 0xcc.
    assert_eq!(aes_decrypt(KEY, IV, &[0u8; 16]), Err(DecryptError::BadPadding));
}

#[test]
fn aes_text_is_lowercase_hex() {
    let out = aes_encrypt_text(KEY, IV, "Hello, World!");
    assert_eq!(out, "f50747844105cb294517b02d8e571933");
    let out = aes_encrypt_text(KEY, IV, "h\u{e9}llo w\u{f6}rld \u{2713}");
    assert_eq!(out, "c7b646d4874860bf6177154f6f6ea705151e02e0153761fc64e0ca20787fbab6");
    assert!(out.chars().all(|c| c.is_ascii_digit() || ('a'..='f').contains(&c)));
    assert_eq!(aes_encrypt_text(KEY, IV, ""), "3c492cedd954cc383f3d3ee93e728484");
}

#[test]
fn aes_text_round_trip() {
    for text in ["", "a", "Hello, World!", "exactly sixteen!", "h\u{e9}llo w\u{f6}rld \u{2713}"] {
        let hex_text = aes_encrypt_text(KEY, IV, text);
        assert_eq!(aes_decrypt_text(KEY, IV, &hex_text), Ok(text.to_string()));
    }
}

#[test]
fn aes_text_decrypt_reads_hex_of_either_case() {
    assert_eq!(
        aes_decrypt_text(KEY, IV, "F50747844105CB294517B02D8E571933"),
        Ok("Hello, World!".to_string())
    );
    assert_eq!(
        aes_decrypt_text(KEY, IV, "f50747844105CB294517b02d8e571933"),
        Ok("Hello, World!".to_string())
    );
}

#[test]
fn aes_text_decrypt_rejects_what_is_not_hex() {
    assert_eq!(aes_decrypt_text(KEY, IV, "zz"), Err(DecryptError::MalformedHex));
    assert_eq!(aes_decrypt_text(KEY, IV, "abc"), Err(DecryptError::MalformedHex));
    assert_eq!(aes_decrypt_text(KEY, IV, "f5 07"), Err(DecryptError::MalformedHex));
    assert_eq!(aes_decrypt_text(KEY, IV, "0x1234"), Err(DecryptError::MalformedHex));
    assert_eq!(aes_decrypt_text(KEY, IV, "\u{e9}\u{e9}"), Err(DecryptError::MalformedHex));
    assert_eq!(
        aes_decrypt_text(KEY, IV, "f50747844105cb294517b02d8e57193g"),
        Err(DecryptError::MalformedHex)
    );
}

#[test]
fn aes_text_decrypt_reports_bad_padding() {
    assert_eq!(aes_decrypt_text(KEY, IV, ""), Err(DecryptError::BadPadding));
    assert_eq!(aes_decrypt_text(KEY, IV, "00"), Err(DecryptError::BadPadding));
    assert_eq!(
        aes_decrypt_text(KEY, IV, "f50747844105cb294517b02d8e571932"),
        Err(DecryptError::BadPadding)
    );
    assert_eq!(
        aes_decrypt_text(KEY, IV, "00000000000000000000000000000000"),
        Err(DecryptError::BadPadding)
    );
}

#[test]
fn aes_text_decrypt_reports_bytes_that_are_not_utf8() {
    let ciphertext = aes_encrypt(KEY, IV, &[0xff, 0xfe]);
    assert_eq!(hex::encode(&ciphertext), "c9cdae7ecdf91949fdaa2c0a95ffbdbb");
    assert_eq!(
        aes_decrypt_text(KEY, IV, "c9cdae7ecdf91949fdaa2c0a95ffbdbb"),
        Err(DecryptError::NotUtf8)
    );
}

#[test]
fn decrypt_error_messages() {
    assert_eq!(
        DecryptError::MalformedHex.message(),
        "Error: Input for decryption is not a valid hex string."
    );
    assert_eq!(
        DecryptError::BadPadding.message(),
        "Error: Decryption failed. Check your key, IV, and ciphertext."
    );
    assert_eq!(DecryptError::NotUtf8.message(), "Error: Decrypted data is not valid UTF-8");
}
