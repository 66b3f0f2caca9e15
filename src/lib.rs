//! A symmetric codec: AES-256 in electronic-codebook mode with PKCS padding,
//! with ciphertext carried as lowercase hexadecimal text.
pub mod error;
pub mod hexcode;
pub mod ecb;
pub mod codec;
