//! The key codec: random shift values serialized as a compact,
//! checksum-protected, base64-encoded token.
//!
//! Token layout, before base64: two big-endian bytes of key capacity, then
//! two big-endian bytes per shift value, then the first four bytes of the
//! SHA-256 digest of everything before them.

use vstd::prelude::*;

use base64::Engine;
use sha2::Digest;

use crate::error::OtpError;

verus! {

/// The text that base64's URL-safe, unpadded engine produces for a byte
/// sequence.  Named rather than spelled out; the engine's source defines it.
pub uninterp spec fn base64_chars(bytes: Seq<u8>) -> Seq<char>;

/// The SHA-256 digest of a byte sequence, a function of the bytes alone.
pub uninterp spec fn sha256_digest(bytes: Seq<u8>) -> Seq<u8>;

/// The two big-endian bytes of a 16-bit value.
pub open spec fn be_bytes(v: u16) -> Seq<u8> {
    seq![(v / 256) as u8, (v % 256) as u8]
}

/// The 16-bit value read from two big-endian bytes.
pub open spec fn be_value(hi: u8, lo: u8) -> u16 {
    (hi * 256 + lo) as u16
}

/// A sequence of shift values, each as two big-endian bytes.
pub open spec fn shift_bytes(shifts: Seq<u16>) -> Seq<u8>
    decreases shifts.len(),
{
    if shifts.len() == 0 {
        Seq::<u8>::empty()
    } else {
        shift_bytes(shifts.drop_last()) + be_bytes(shifts.last())
    }
}

/// The shift values read from a byte sequence, two big-endian bytes each;
/// a trailing odd byte is ignored.
pub open spec fn parsed_shifts(bytes: Seq<u8>) -> Seq<u16> {
    Seq::new((bytes.len() / 2) as nat, |i: int| be_value(bytes[2 * i], bytes[2 * i + 1]))
}

/// The bytes of a key before the checksum: the capacity, then the shifts.
pub open spec fn payload_bytes(capacity: u16, shifts: Seq<u16>) -> Seq<u8> {
    be_bytes(capacity) + shift_bytes(shifts)
}

/// The token's four checksum bytes: the front of the payload's SHA-256
/// digest.  Written so that its length is four whatever is assumed of the
/// digest's length.
pub open spec fn checksum_bytes(payload: Seq<u8>) -> Seq<u8> {
    Seq::new(4, |i: int|
        if i < sha256_digest(payload).len() {
            sha256_digest(payload)[i]
        } else {
            0
        }
    )
}

/// The full byte layout of a key token, before base64.
pub open spec fn token_bytes(capacity: u16, shifts: Seq<u16>) -> Seq<u8> {
    payload_bytes(capacity, shifts) + checksum_bytes(payload_bytes(capacity, shifts))
}

/// The key token text for a capacity and its shift values.
pub open spec fn token_chars(capacity: u16, shifts: Seq<u16>) -> Seq<char> {
    base64_chars(token_bytes(capacity, shifts))
}

/// Whether a decoded byte sequence carries the checksum of its own payload.
/// Meaningful once the sequence holds at least the four checksum bytes.
pub open spec fn checksum_ok(bytes: Seq<u8>) -> bool {
    bytes.skip(bytes.len() - 4) == checksum_bytes(bytes.take(bytes.len() - 4))
}

/// What decoding owes for each byte sequence a token can decode to:
/// too few bytes fail, a wrong checksum fails with both checksums reported,
/// an odd run of shift bytes fails, and otherwise the capacity and every
/// shift value are read back exactly.
pub open spec fn decoded_bytes_post(bytes: Seq<u8>, r: Result<(u16, Vec<u16>), OtpError>) -> bool {
    &&& bytes.len() < 6 ==> r == Err::<(u16, Vec<u16>), OtpError>(OtpError::TooShort)
    &&& bytes.len() >= 6 && !checksum_ok(bytes) ==> {
        &&& r is Err
        &&& r->Err_0 matches OtpError::ChecksumMismatch { expected, found }
            && expected@ == checksum_bytes(bytes.take(bytes.len() - 4))
            && found@ == bytes.skip(bytes.len() - 4)
    }
    &&& bytes.len() >= 6 && checksum_ok(bytes) && (bytes.len() - 6) % 2 != 0 ==> r == Err::<
        (u16, Vec<u16>),
        OtpError,
    >(OtpError::MalformedEncoding)
    &&& bytes.len() >= 6 && checksum_ok(bytes) && (bytes.len() - 6) % 2 == 0 ==> {
        &&& r is Ok
        &&& r->Ok_0.0 == be_value(bytes[0], bytes[1])
        &&& r->Ok_0.1@ == parsed_shifts(bytes.subrange(2, bytes.len() - 4))
    }
}

/// What decoding owes for a token text: text that no byte sequence encodes
/// to is malformed, and otherwise the result is settled by the bytes the
/// text encodes.
pub open spec fn decode_post(token: Seq<char>, r: Result<(u16, Vec<u16>), OtpError>) -> bool {
    &&& forall|bytes: Seq<u8>| #[trigger] base64_chars(bytes) == token ==> decoded_bytes_post(
        bytes,
        r,
    )
    &&& (forall|bytes: Seq<u8>| base64_chars(bytes) != token) ==> r == Err::<
        (u16, Vec<u16>),
        OtpError,
    >(OtpError::MalformedEncoding)
}

#[verifier::external_type_specification]
#[verifier::external_body]
pub struct ExDecodeError(base64::DecodeError);

/// Relies on sha2's `Sha256`: the 32-byte digest of the input, a function of
/// the input bytes alone.
#[verifier::external_body]
fn sha256(bytes: &Vec<u8>) -> (digest: Vec<u8>)
    ensures
        digest@ == sha256_digest(bytes@),
        digest@.len() == 32,
{
    sha2::Sha256::digest(bytes.as_slice()).to_vec()
}

/// Relies on base64's `URL_SAFE_NO_PAD` engine: the unpadded URL-safe base64
/// text of the bytes, a function of the bytes alone.
#[verifier::external_body]
fn base64_encode(bytes: &Vec<u8>) -> (text: String)
    ensures
        text@ == base64_chars(bytes@),
{
    base64::engine::general_purpose::URL_SAFE_NO_PAD.encode(bytes.as_slice())
}

/// Relies on base64's `URL_SAFE_NO_PAD` engine: it decodes exactly the
/// canonical unpadded encodings (the engine refuses padding and non-zero
/// trailing bits), returning the one byte sequence the text encodes.
#[verifier::external_body]
fn base64_decode(text: &str) -> (r: Result<Vec<u8>, base64::DecodeError>)
    ensures
        match r {
            Ok(bytes) => base64_chars(bytes@) == text@ && forall|other: Seq<u8>|
                #[trigger] base64_chars(other) == text@ ==> other == bytes@,
            Err(_) => forall|bytes: Seq<u8>| #[trigger] base64_chars(bytes) != text@,
        },
{
    base64::engine::general_purpose::URL_SAFE_NO_PAD.decode(text)
}

/// Relies on rand's `random_range`: a shift value drawn from [0, 2048).
/// Nothing is assumed about which one.
#[verifier::external_body]
fn get_next() -> (shift: u16)
    ensures
        shift < 2048,
{
    rand::random_range(0u16..2048)
}

/// Serializes a capacity and its shift values as a key token.
pub fn encode(num_keys: u16, key_list: &Vec<u16>) -> (token: String)
    ensures
        token@ == token_chars(num_keys, key_list@),
{
    let mut bytes: Vec<u8> = Vec::new();
    bytes.push((num_keys / 256) as u8);
    bytes.push((num_keys % 256) as u8);
    let mut i: usize = 0;
    while i < key_list.len()
        invariant
            i <= key_list@.len(),
            bytes@ == payload_bytes(num_keys, key_list@.take(i as int)),
        decreases key_list@.len() - i,
    {
        let k = key_list[i];
        bytes.push((k / 256) as u8);
        bytes.push((k % 256) as u8);
        proof {
            assert(key_list@.take(i + 1).drop_last() =~= key_list@.take(i as int));
            assert(bytes@ =~= payload_bytes(num_keys, key_list@.take(i + 1)));
        }
        i = i + 1;
    }
    proof {
        assert(key_list@.take(key_list@.len() as int) =~= key_list@);
    }
    let digest = sha256(&bytes);
    bytes.push(digest[0]);
    bytes.push(digest[1]);
    bytes.push(digest[2]);
    bytes.push(digest[3]);
    proof {
        assert(bytes@ =~= token_bytes(num_keys, key_list@));
    }
    base64_encode(&bytes)
}

/// Generates a key token able to cover `num_words` words: that many shift
/// values drawn from [0, 2048), serialized with the capacity and checksum.
pub fn generate(num_words: usize) -> (r: Result<String, OtpError>)
    ensures
        num_words > 0xffff ==> r == Err::<String, OtpError>(OtpError::InvalidCapacity),
        num_words <= 0xffff ==> r is Ok && exists|shifts: Seq<u16>|
            {
                &&& shifts.len() == num_words
                &&& (forall|i: int| 0 <= i < shifts.len() ==> shifts[i] < 2048)
                &&& r->Ok_0@ == #[trigger] token_chars(num_words as u16, shifts)
            },
{
    if num_words > 0xffff {
        return Err(OtpError::InvalidCapacity);
    }
    let mut key_list: Vec<u16> = Vec::new();
    let mut i: usize = 0;
    while i < num_words
        invariant
            i <= num_words,
            key_list@.len() == i,
            forall|j: int| 0 <= j < key_list@.len() ==> key_list@[j] < 2048,
        decreases num_words - i,
    {
        key_list.push(get_next());
        i = i + 1;
    }
    let token = encode(num_words as u16, &key_list);
    Ok(token)
}

/// Splits decoded token bytes into capacity and shift values, verifying the
/// trailing checksum first.  Decoding a token is this, after base64.
pub fn decode_bytes(bytes: &Vec<u8>) -> (r: Result<(u16, Vec<u16>), OtpError>)
    ensures
        decoded_bytes_post(bytes@, r),
{
    let n = bytes.len();
    if n < 6 {
        return Err(OtpError::TooShort);
    }
    let mut payload: Vec<u8> = Vec::new();
    let mut i: usize = 0;
    while i < n - 4
        invariant
            n == bytes@.len(),
            6 <= n,
            i <= n - 4,
            payload@ == bytes@.take(i as int),
        decreases n - 4 - i,
    {
        payload.push(bytes[i]);
        proof {
            assert(payload@ =~= bytes@.take(i + 1));
        }
        i = i + 1;
    }
    let digest = sha256(&payload);
    let checksum_matches = bytes[n - 4] == digest[0] && bytes[n - 3] == digest[1] && bytes[n - 2]
        == digest[2] && bytes[n - 1] == digest[3];
    proof {
        let cb = checksum_bytes(bytes@.take(n - 4));
        let claimed = bytes@.skip(n - 4);
        assert(cb[0] == digest@[0] && cb[1] == digest@[1] && cb[2] == digest@[2] && cb[3]
            == digest@[3]);
        assert(claimed[0] == bytes@[n - 4] && claimed[1] == bytes@[n - 3] && claimed[2] == bytes@[n
            - 2] && claimed[3] == bytes@[n - 1]);
        if checksum_matches {
            assert(claimed =~= cb);
        }
        if claimed == cb {
            assert(checksum_matches);
        }
        assert(checksum_matches == checksum_ok(bytes@));
    }
    if !checksum_matches {
        let mut expected: Vec<u8> = Vec::new();
        expected.push(digest[0]);
        expected.push(digest[1]);
        expected.push(digest[2]);
        expected.push(digest[3]);
        let mut found: Vec<u8> = Vec::new();
        found.push(bytes[n - 4]);
        found.push(bytes[n - 3]);
        found.push(bytes[n - 2]);
        found.push(bytes[n - 1]);
        proof {
            assert(expected@ =~= checksum_bytes(bytes@.take(n - 4)));
            assert(found@ =~= bytes@.skip(n - 4));
        }
        return Err(OtpError::ChecksumMismatch { expected, found });
    }
    if (n - 6) % 2 != 0 {
        return Err(OtpError::MalformedEncoding);
    }
    let capacity = (bytes[0] as u16) * 256 + (bytes[1] as u16);
    let count = (n - 6) / 2;
    let mut shifts: Vec<u16> = Vec::new();
    let mut k: usize = 0;
    while k < count
        invariant
            n == bytes@.len(),
            6 <= n,
            count == (n - 6) / 2,
            (n - 6) % 2 == 0,
            k <= count,
            shifts@.len() == k,
            forall|j: int| 0 <= j < k ==> shifts@[j] == be_value(bytes@[2 + 2 * j], bytes@[3 + 2
                * j]),
        decreases count - k,
    {
        let hi = bytes[2 + 2 * k];
        let lo = bytes[3 + 2 * k];
        shifts.push((hi as u16) * 256 + (lo as u16));
        k = k + 1;
    }
    proof {
        assert(shifts@ =~= parsed_shifts(bytes@.subrange(2, n - 4)));
    }
    Ok((capacity, shifts))
}

/// Decodes a key token: base64, then the byte layout with its checksum.
pub fn decode(key_string: &str) -> (r: Result<(u16, Vec<u16>), OtpError>)
    ensures
        decode_post(key_string@, r),
{
    match base64_decode(key_string) {
        Err(_) => Err(OtpError::MalformedEncoding),
        Ok(bytes) => decode_bytes(&bytes),
    }
}

proof fn lemma_shift_bytes_len(shifts: Seq<u16>)
    ensures
        shift_bytes(shifts).len() == 2 * shifts.len(),
    decreases shifts.len(),
{
    if shifts.len() > 0 {
        lemma_shift_bytes_len(shifts.drop_last());
    }
}

proof fn lemma_shift_bytes_index(shifts: Seq<u16>, i: int)
    requires
        0 <= i < shifts.len(),
    ensures
        shift_bytes(shifts)[2 * i] == be_bytes(shifts[i])[0],
        shift_bytes(shifts)[2 * i + 1] == be_bytes(shifts[i])[1],
    decreases shifts.len(),
{
    lemma_shift_bytes_len(shifts.drop_last());
    if i < shifts.len() - 1 {
        lemma_shift_bytes_index(shifts.drop_last(), i);
    }
}

proof fn lemma_be_round_trip(v: u16)
    ensures
        be_value(be_bytes(v)[0], be_bytes(v)[1]) == v,
{
    vstd::arithmetic::div_mod::lemma_fundamental_div_mod(v as int, 256);
}

proof fn lemma_parsed_shifts_round_trip(shifts: Seq<u16>)
    ensures
        parsed_shifts(shift_bytes(shifts)) == shifts,
{
    lemma_shift_bytes_len(shifts);
    assert forall|i: int| 0 <= i < shifts.len() implies parsed_shifts(shift_bytes(shifts))[i]
        == shifts[i] by {
        lemma_shift_bytes_index(shifts, i);
        lemma_be_round_trip(shifts[i]);
    }
    assert(parsed_shifts(shift_bytes(shifts)) =~= shifts);
}

/// Decoding is the inverse of encoding: whatever capacity and shift values a
/// token was built from, decoding that token returns exactly them.  With the
/// contract of `generate`, decoding a generated token always yields the
/// requested capacity and as many shift values, each below 2048.
pub proof fn lemma_decode_inverts_encode(
    capacity: u16,
    shifts: Seq<u16>,
    r: Result<(u16, Vec<u16>), OtpError>,
)
    requires
        decode_post(token_chars(capacity, shifts), r),
    ensures
        r is Ok,
        r->Ok_0.0 == capacity,
        r->Ok_0.1@ == shifts,
{
    let payload = payload_bytes(capacity, shifts);
    let tb = token_bytes(capacity, shifts);
    lemma_shift_bytes_len(shifts);
    assert(tb.len() == 6 + 2 * shifts.len());
    assert(base64_chars(tb) == token_chars(capacity, shifts));
    assert(decoded_bytes_post(tb, r));
    assert(tb.take(tb.len() - 4) =~= payload);
    assert(tb.skip(tb.len() - 4) =~= checksum_bytes(payload));
    assert(checksum_ok(tb));
    vstd::arithmetic::div_mod::lemma_mod_multiples_basic(shifts.len() as int, 2);
    assert((tb.len() - 6) % 2 == 0);
    assert(r is Ok);
    lemma_be_round_trip(capacity);
    assert(r->Ok_0.0 == capacity);
    assert(tb.subrange(2, tb.len() - 4) =~= shift_bytes(shifts));
    lemma_parsed_shifts_round_trip(shifts);
    assert(r->Ok_0.1@ == shifts);
}

/// Decoding a generated token: whatever shift values `generate` drew for a
/// requested capacity, decoding its token yields exactly that capacity, that
/// many shift values, and every one below 2048.
pub proof fn lemma_decode_of_generated(
    num_words: usize,
    token: Seq<char>,
    r: Result<(u16, Vec<u16>), OtpError>,
)
    requires
        num_words <= 0xffff,
        exists|shifts: Seq<u16>|
            {
                &&& shifts.len() == num_words
                &&& (forall|i: int| 0 <= i < shifts.len() ==> shifts[i] < 2048)
                &&& token == #[trigger] token_chars(num_words as u16, shifts)
            },
        decode_post(token, r),
    ensures
        r is Ok,
        r->Ok_0.0 == num_words,
        r->Ok_0.1@.len() == num_words,
        forall|i: int| 0 <= i < num_words ==> r->Ok_0.1@[i] < 2048,
{
    let shifts = choose|shifts: Seq<u16>|
        {
            &&& shifts.len() == num_words
            &&& (forall|i: int| 0 <= i < shifts.len() ==> shifts[i] < 2048)
            &&& token == #[trigger] token_chars(num_words as u16, shifts)
        };
    lemma_decode_inverts_encode(num_words as u16, shifts, r);
}

} // verus!
