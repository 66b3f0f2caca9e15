use vstd::prelude::*;

verus! {

/// The ways in which an encode or a decode can fail.
#[derive(Debug, Clone, Copy, PartialEq, Eq, Structural)]
pub enum CodecError {
    /// The key's bytes are not exactly as many as the cipher needs.
    InvalidKeyLength,
    /// The text to decode is not well-formed hexadecimal.
    InvalidHexEncoding,
    /// The ciphertext is empty or not a whole number of blocks.
    InvalidCiphertextLength,
    /// The padding of the last decrypted block is not valid.
    PaddingError,
    /// The decrypted bytes are not UTF-8 text.
    InvalidUtf8Output,
}

impl CodecError {
    /// A short human-readable account of the failure.
    pub fn message(&self) -> &'static str {
        match self {
            CodecError::InvalidKeyLength => "the key must be exactly 32 bytes of UTF-8",
            CodecError::InvalidHexEncoding => "the input is not well-formed hexadecimal text",
            CodecError::InvalidCiphertextLength => "the ciphertext is not a positive whole number of 16-byte blocks",
            CodecError::PaddingError => "the padding of the decrypted data is invalid (wrong key or damaged input)",
            CodecError::InvalidUtf8Output => "the decrypted data is not UTF-8 text",
        }
    }
}

} // verus!
