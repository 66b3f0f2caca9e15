use aes_codec::codec::{decode, derive_key, encode};
use aes_codec::ecb::{decrypt, encrypt};
use aes_codec::error::CodecError;
use aes_codec::hexcode::{from_hex, to_hex};

const KEY: &str = "01234567890123456789012345678901";

fn fips_key() -> Vec<u8> {
    (0u8..32).collect()
}

#[test]
fn hello_encodes_to_one_block_and_back() {
    let hex = encode(KEY, "hello").unwrap();
    assert_eq!(hex.len(), 32);
    assert!(hex.chars().all(|c| c.is_ascii_hexdigit() && !c.is_ascii_uppercase()));
    assert_eq!(decode(KEY, &hex).unwrap(), "hello");
}

#[test]
fn decode_odd_length_hex_fails() {
    assert_eq!(decode(KEY, "abc"), Err(CodecError::InvalidHexEncoding));
}

#[test]
fn decode_non_hex_fails() {
    assert_eq!(decode(KEY, "zz"), Err(CodecError::InvalidHexEncoding));
    assert_eq!(decode(KEY, "00 11"), Err(CodecError::InvalidHexEncoding));
}

#[test]
fn decode_fifteen_bytes_fails_on_length() {
    let input = "00".repeat(15);
    assert_eq!(decode(KEY, &input), Err(CodecError::InvalidCiphertextLength));
}

#[test]
fn decode_empty_fails_on_length() {
    assert_eq!(decode(KEY, ""), Err(CodecError::InvalidCiphertextLength));
}

#[test]
fn decode_under_wrong_key_fails_on_padding() {
    let hex = encode(KEY, "hello").unwrap();
    let other = "abcdefghijklmnopqrstuvwxyz012345";
    assert_eq!(decode(other, &hex), Err(CodecError::PaddingError));
}

#[test]
fn short_and_long_keys_are_refused() {
    assert_eq!(encode("short", "hello"), Err(CodecError::InvalidKeyLength));
    assert_eq!(decode("short", "00"), Err(CodecError::InvalidKeyLength));
    let long = "0123456789012345678901234567890123";
    assert_eq!(encode(long, "hello"), Err(CodecError::InvalidKeyLength));
    assert_eq!(derive_key(long), Err(CodecError::InvalidKeyLength));
    assert_eq!(derive_key(KEY).unwrap(), KEY.as_bytes().to_vec());
}

#[test]
fn key_length_counts_utf8_bytes() {
    // sixteen two-byte characters make 32 bytes
    let key = "é".repeat(16);
    assert_eq!(derive_key(&key).unwrap().len(), 32);
    let hex = encode(&key, "text").unwrap();
    assert_eq!(decode(&key, &hex).unwrap(), "text");
}

#[test]
fn aes256_known_answer_first_block() {
    let key = fips_key();
    let plain = from_hex("00112233445566778899aabbccddeeff").unwrap();
    let c = encrypt(&key, &plain).unwrap();
    assert_eq!(c.len(), 32);
    assert_eq!(to_hex(&c[..16]), "8ea2b7ca516745bfeafc49904b496089");
}

#[test]
fn aligned_plaintext_gets_a_full_padding_block() {
    let key = fips_key();
    let plain = [7u8; 16];
    let c = encrypt(&key, &plain).unwrap();
    assert_eq!(c.len(), 32);
    let pad_only = encrypt(&key, &[]).unwrap();
    assert_eq!(pad_only.len(), 16);
    // ECB: the trailing padding block encrypts the same way on its own
    assert_eq!(&c[16..], &pad_only[..]);
}

#[test]
fn ciphertext_length_is_whole_blocks() {
    let key = fips_key();
    for n in 0..50usize {
        let plain = vec![0x41u8; n];
        let c = encrypt(&key, &plain).unwrap();
        assert_eq!(c.len() % 16, 0);
        assert!(c.len() >= 16);
        assert_eq!(c.len(), (n / 16 + 1) * 16);
    }
}

#[test]
fn encrypt_then_decrypt_round_trips() {
    let key = fips_key();
    for n in [0usize, 1, 15, 16, 17, 31, 32, 100] {
        let plain: Vec<u8> = (0..n).map(|i| (i * 37 % 256) as u8).collect();
        let c = encrypt(&key, &plain).unwrap();
        assert_eq!(decrypt(&key, &c).unwrap(), plain);
    }
}

#[test]
fn encryption_is_deterministic() {
    let key = fips_key();
    let a = encrypt(&key, b"same input").unwrap();
    let b = encrypt(&key, b"same input").unwrap();
    assert_eq!(a, b);
    assert_eq!(encode(KEY, "same").unwrap(), encode(KEY, "same").unwrap());
}

#[test]
fn flipped_bits_never_give_back_the_plaintext() {
    let key = fips_key();
    let plain = b"attack at dawn, bring snacks".to_vec();
    let c = encrypt(&key, &plain).unwrap();
    for byte in [0usize, 5, 15, 16, 31] {
        for bit in 0..8 {
            let mut t = c.clone();
            t[byte] ^= 1 << bit;
            assert_ne!(decrypt(&key, &t), Ok(plain.clone()));
        }
    }
}

#[test]
fn decrypt_rejects_bad_lengths_and_keys() {
    let key = fips_key();
    assert_eq!(decrypt(&key, &[]), Err(CodecError::InvalidCiphertextLength));
    assert_eq!(decrypt(&key, &[0u8; 17]), Err(CodecError::InvalidCiphertextLength));
    assert_eq!(decrypt(&key[..16], &[0u8; 16]), Err(CodecError::InvalidKeyLength));
    assert_eq!(encrypt(&key[..31], b"x"), Err(CodecError::InvalidKeyLength));
}

#[test]
fn bad_padding_byte_is_refused() {
    let key = fips_key();
    // a block whose plaintext ends in 0 or in 17 carries no valid padding
    let mut zero_end = [1u8; 16];
    zero_end[15] = 0;
    let mut big_end = [17u8; 16];
    big_end[0] = 17;
    for block in [zero_end, big_end] {
        let c = encrypt(&key, &block).unwrap();
        assert_eq!(decrypt(&key, &c[..16]), Err(CodecError::PaddingError));
    }
}

#[test]
fn non_utf8_plaintext_is_reported() {
    let key_bytes = KEY.as_bytes();
    let c = encrypt(key_bytes, &[0xff, 0xfe]).unwrap();
    assert_eq!(decode(KEY, &to_hex(&c)), Err(CodecError::InvalidUtf8Output));
}

#[test]
fn hex_round_trip_and_case() {
    let bytes: Vec<u8> = (0u8..=255).collect();
    let text = to_hex(&bytes);
    assert_eq!(text.len(), 512);
    assert_eq!(from_hex(&text).unwrap(), bytes);
    assert_eq!(to_hex(&[0x00, 0xff, 0x1a]), "00ff1a");
    assert_eq!(from_hex("FFa0").unwrap(), vec![0xff, 0xa0]);
    assert_eq!(from_hex("").unwrap(), Vec::<u8>::new());
}

#[test]
fn hex_rejects_malformed_text() {
    assert_eq!(from_hex("abc"), Err(CodecError::InvalidHexEncoding));
    assert_eq!(from_hex("zz"), Err(CodecError::InvalidHexEncoding));
    assert_eq!(from_hex("éé"), Err(CodecError::InvalidHexEncoding));
}

#[test]
fn error_messages_are_distinct() {
    let all = [
        CodecError::InvalidKeyLength,
        CodecError::InvalidHexEncoding,
        CodecError::InvalidCiphertextLength,
        CodecError::PaddingError,
        CodecError::InvalidUtf8Output,
    ];
    for (i, a) in all.iter().enumerate() {
        for b in &all[i + 1..] {
            assert_ne!(a.message(), b.message());
        }
    }
}
