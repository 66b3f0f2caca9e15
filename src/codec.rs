use vstd::prelude::*;
use vstd::utf8::{decode_utf8, encode_utf8, valid_utf8};
use crate::ecb::{
    decrypt, ecb_decrypt_blocks, ecb_encrypt, encrypt, has_valid_padding, strip_padding,
    valid_ciphertext_len, KEY_SIZE,
};
use crate::error::CodecError;
use crate::hexcode::{from_hex, hex_bytes, hex_chars, is_hex_text, lemma_hex_round_trip, to_hex};

verus! {

/// The UTF-8 bytes of a string.
pub open spec fn utf8_bytes(s: Seq<char>) -> Seq<u8> {
    encode_utf8(s)
}

/// The bytes that `decode` decrypts: those that its hexadecimal input stands for.
pub open spec fn decoded_plain(key: Seq<u8>, text: Seq<char>) -> Seq<u8> {
    strip_padding(ecb_decrypt_blocks(key, hex_bytes(text)))
}

/// Relies on String::from_utf8: it accepts exactly the valid UTF-8 byte sequences, and the
/// string then holds the characters that they encode.
#[verifier::external_body]
fn text_from_utf8(v: Vec<u8>) -> (r: Option<String>)
    ensures
        r is Some <==> valid_utf8(v@),
        r is Some ==> r->Some_0@ == decode_utf8(v@),
{
    String::from_utf8(v).ok()
}

/// The key bytes: the UTF-8 bytes of `key`, which must be exactly 32.
pub fn derive_key(key: &str) -> (r: Result<Vec<u8>, CodecError>)
    ensures
        r is Ok <==> utf8_bytes(key@).len() == 32,
        r is Ok ==> r->Ok_0@ == utf8_bytes(key@),
        r is Err ==> r->Err_0 == CodecError::InvalidKeyLength,
{
    let bytes = key.as_bytes();
    if bytes.len() != KEY_SIZE {
        return Err(CodecError::InvalidKeyLength);
    }
    Ok(vstd::slice::slice_to_vec(bytes))
}

/// Encrypts the UTF-8 bytes of `input` under the key made from `key`, as lowercase hex text.
pub fn encode(key: &str, input: &str) -> (r: Result<String, CodecError>)
    requires
        utf8_bytes(input@).len() + 16 <= usize::MAX,
    ensures
        r is Ok <==> utf8_bytes(key@).len() == 32,
        r is Err ==> r->Err_0 == CodecError::InvalidKeyLength,
        r is Ok ==> r->Ok_0@ == hex_chars(ecb_encrypt(utf8_bytes(key@), utf8_bytes(input@))),
{
    let k = match derive_key(key) {
        Ok(k) => k,
        Err(e) => {
            return Err(e);
        },
    };
    match encrypt(k.as_slice(), input.as_bytes()) {
        Ok(c) => Ok(to_hex(c.as_slice())),
        Err(e) => Err(e),
    }
}

/// Decodes the hex text `input`, decrypts it under the key made from `key`, and reads the
/// result as UTF-8 text. Each failure is reported under its own kind, checked in that order.
pub fn decode(key: &str, input: &str) -> (r: Result<String, CodecError>)
    ensures
        ({
            let k = utf8_bytes(key@);
            let c = hex_bytes(input@);
            let p = decoded_plain(k, input@);
            &&& r == Err::<String, CodecError>(CodecError::InvalidKeyLength) <==> k.len() != 32
            &&& r == Err::<String, CodecError>(CodecError::InvalidHexEncoding) <==> k.len() == 32
                && !is_hex_text(input@)
            &&& r == Err::<String, CodecError>(CodecError::InvalidCiphertextLength) <==> k.len()
                == 32 && is_hex_text(input@) && !valid_ciphertext_len(c.len())
            &&& r == Err::<String, CodecError>(CodecError::PaddingError) <==> k.len() == 32
                && is_hex_text(input@) && valid_ciphertext_len(c.len()) && !has_valid_padding(
                ecb_decrypt_blocks(k, c),
            )
            &&& r == Err::<String, CodecError>(CodecError::InvalidUtf8Output) <==> k.len() == 32
                && is_hex_text(input@) && valid_ciphertext_len(c.len()) && has_valid_padding(
                ecb_decrypt_blocks(k, c),
            ) && !valid_utf8(p)
            &&& r is Ok ==> r->Ok_0@ == decode_utf8(p)
            &&& k.len() == 32 ==> forall|t: Seq<char>| #[trigger]
                hex_chars(ecb_encrypt(k, utf8_bytes(t))) == input@ ==> r is Ok && r->Ok_0@ == t
        }),
{
    let k = match derive_key(key) {
        Ok(k) => k,
        Err(e) => {
            return Err(e);
        },
    };
    proof {
        assert forall|t: Seq<char>| #[trigger]
            hex_chars(ecb_encrypt(k@, utf8_bytes(t))) == input@ implies is_hex_text(input@)
            && hex_bytes(input@) == ecb_encrypt(k@, utf8_bytes(t)) by {
            lemma_hex_round_trip(ecb_encrypt(k@, utf8_bytes(t)));
        }
    }
    let c = match from_hex(input) {
        Ok(c) => c,
        Err(e) => {
            return Err(e);
        },
    };
    let p = match decrypt(k.as_slice(), c.as_slice()) {
        Ok(p) => p,
        Err(e) => {
            return Err(e);
        },
    };
    proof {
        assert forall|t: Seq<char>| #[trigger]
            hex_chars(ecb_encrypt(k@, utf8_bytes(t))) == input@ implies valid_utf8(p@)
            && decode_utf8(p@) == t by {
            vstd::utf8::encode_utf8_valid_utf8(t);
            vstd::utf8::encode_utf8_decode_utf8(t);
        }
    }
    match text_from_utf8(p) {
        Some(s) => Ok(s),
        None => Err(CodecError::InvalidUtf8Output),
    }
}

} // verus!
