//! A reversible word-substitution cipher for mnemonic seed phrases.
//!
//! A one-time key is a sequence of shift values, one per word position.
//! Encrypting moves each word forward in its wordlist by the shift at its
//! position, modulo the wordlist size; decrypting moves it back.  The key
//! itself travels as a compact, checksummed, base64-encoded token.

use vstd::prelude::*;

mod cipher;
mod error;
pub mod key;
mod words;

pub use cipher::EncryptedMessage;
pub use cipher::decrypt;
pub use cipher::encrypt;
pub use error::OtpError;
pub use words::Language;
pub use words::WordIndex;
pub use words::wordlist;

verus! {

} // verus!
