use vstd::prelude::*;

verus! {

/// Every failure the library can report.
///
/// `ChecksumMismatch` carries the recomputed checksum and the one found in
/// the token, so a caller can show both for diagnostics.  `UnknownWord`
/// carries the offending input word.
#[derive(Debug)]
pub enum OtpError {
    /// The requested key capacity does not fit the 16-bit capacity field.
    InvalidCapacity,
    /// The token is not valid unpadded URL-safe base64, or its byte layout
    /// is structurally wrong.
    MalformedEncoding,
    /// The decoded token holds fewer bytes than the smallest valid key.
    TooShort,
    /// The token's trailing checksum does not match the recomputed one.
    ChecksumMismatch { expected: Vec<u8>, found: Vec<u8> },
    /// The requested language is not available.
    UnsupportedLanguage,
    /// More input words than the key has capacity for.
    TooManyWords,
    /// An input word that does not occur in the chosen wordlist.
    UnknownWord(String),
}

} // verus!
