use base64::Engine;
use base64::engine::general_purpose::URL_SAFE_NO_PAD;
use seed_otp::OtpError;
use seed_otp::key;
use sha2::Digest;
use sha2::Sha256;

fn token_bytes_for(capacity: u16, shifts: &[u16]) -> Vec<u8> {
    let mut bytes = Vec::new();
    bytes.extend_from_slice(&capacity.to_be_bytes());
    for shift in shifts {
        bytes.extend_from_slice(&shift.to_be_bytes());
    }
    let digest = Sha256::digest(&bytes);
    bytes.extend_from_slice(&digest[..4]);
    bytes
}

#[test]
fn encode_matches_token_layout() {
    let token = key::encode(2, &vec![5, 1029]);
    let expected = URL_SAFE_NO_PAD.encode(token_bytes_for(2, &[5, 1029]));
    assert_eq!(token, expected);
}

#[test]
fn decode_inverts_encode() {
    let token = key::encode(3, &vec![0, 2047, 911]);
    let (capacity, shifts) = key::decode(&token).unwrap();
    assert_eq!(capacity, 3);
    assert_eq!(shifts, vec![0, 2047, 911]);
}

#[test]
fn decode_reads_capacity_independently_of_shift_count() {
    let token = key::encode(5, &vec![1, 2]);
    let (capacity, shifts) = key::decode(&token).unwrap();
    assert_eq!(capacity, 5);
    assert_eq!(shifts, vec![1, 2]);
}

#[test]
fn generate_then_decode_is_deterministic() {
    let token = key::generate(24).unwrap();
    let (capacity, shifts) = key::decode(&token).unwrap();
    assert_eq!(capacity, 24);
    assert_eq!(shifts.len(), 24);
    for shift in shifts {
        assert!(shift < 2048);
    }
}

#[test]
fn generate_empty_key() {
    let token = key::generate(0).unwrap();
    let (capacity, shifts) = key::decode(&token).unwrap();
    assert_eq!(capacity, 0);
    assert!(shifts.is_empty());
}

#[test]
fn generate_rejects_oversized_capacity() {
    assert!(matches!(key::generate(65536), Err(OtpError::InvalidCapacity)));
    assert!(key::generate(65535).is_ok());
}

#[test]
fn decode_rejects_bad_base64() {
    assert!(matches!(
        key::decode("!!!not a token!!!"),
        Err(OtpError::MalformedEncoding)
    ));
}

#[test]
fn decode_uses_the_url_safe_alphabet() {
    assert!(matches!(key::decode("++++++++"), Err(OtpError::MalformedEncoding)));
    assert!(matches!(key::decode("a/b/c/d/"), Err(OtpError::MalformedEncoding)));
}

#[test]
fn decode_rejects_padded_base64() {
    assert!(matches!(key::decode("AAAA=="), Err(OtpError::MalformedEncoding)));
}

#[test]
fn decode_rejects_short_tokens() {
    let token = URL_SAFE_NO_PAD.encode([0u8, 1, 2, 3, 4]);
    assert!(matches!(key::decode(&token), Err(OtpError::TooShort)));
}

#[test]
fn decode_rejects_odd_shift_bytes() {
    // Capacity, one stray byte, then a checksum that is itself correct.
    let mut bytes = vec![0u8, 1, 7];
    let digest = Sha256::digest(&bytes);
    bytes.extend_from_slice(&digest[..4]);
    let token = URL_SAFE_NO_PAD.encode(&bytes);
    assert!(matches!(key::decode(&token), Err(OtpError::MalformedEncoding)));
}

#[test]
fn decode_reports_both_checksums_on_mismatch() {
    let mut bytes = token_bytes_for(1, &[44]);
    let n = bytes.len();
    bytes[n - 1] ^= 0xff;
    let claimed = bytes[n - 4..].to_vec();
    let recomputed = Sha256::digest(&bytes[..n - 4])[..4].to_vec();
    let token = URL_SAFE_NO_PAD.encode(&bytes);
    match key::decode(&token) {
        Err(OtpError::ChecksumMismatch { expected, found }) => {
            assert_eq!(expected, recomputed);
            assert_eq!(found, claimed);
        }
        other => panic!("expected a checksum mismatch, got {:?}", other),
    }
}

#[test]
fn flipping_one_payload_bit_fails_the_checksum() {
    let token = key::encode(2, &vec![17, 1200]);
    let decoded = URL_SAFE_NO_PAD.decode(&token).unwrap();
    for byte in 0..decoded.len() - 4 {
        for bit in 0..8 {
            let mut corrupted = decoded.clone();
            corrupted[byte] ^= 1u8 << bit;
            let bad_token = URL_SAFE_NO_PAD.encode(&corrupted);
            assert!(matches!(
                key::decode(&bad_token),
                Err(OtpError::ChecksumMismatch { .. })
            ));
        }
    }
}

#[test]
fn decode_bytes_accepts_a_well_formed_layout() {
    let bytes = token_bytes_for(4, &[9, 0, 2047, 1]);
    let (capacity, shifts) = key::decode_bytes(&bytes).unwrap();
    assert_eq!(capacity, 4);
    assert_eq!(shifts, vec![9, 0, 2047, 1]);
}
