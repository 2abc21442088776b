//! SHA-256 and RIPEMD-160 digests, and the hexadecimal form of a digest.

use vstd::prelude::*;
use vstd::utf8::*;
use crate::codec::string_from_utf8;
use crate::error::Error;

verus! {

/// SHA-256 and RIPEMD-160 take messages of fewer than 2^61 bytes.
pub const DIGEST_INPUT_LIMIT: u64 = 0x2000_0000_0000_0000;

/// Whether `data` is short enough to be hashed.
pub open spec fn hashable(data: Seq<u8>) -> bool {
    data.len() < DIGEST_INPUT_LIMIT
}

/// The SHA-256 digest of `data`.
pub uninterp spec fn sha256_digest(data: Seq<u8>) -> Seq<u8>;

/// The RIPEMD-160 digest of `data`.
pub uninterp spec fn ripemd160_digest(data: Seq<u8>) -> Seq<u8>;

/// `crypto::sha2::Sha256`, fed `data` once and asked for its result: the
/// digest of `data`, which is 32 bytes long.
#[verifier::external_body]
fn sha256_raw(data: &[u8]) -> (digest: Vec<u8>)
    requires
        hashable(data@),
    ensures
        digest@ == sha256_digest(data@),
        digest@.len() == 32,
{
    let mut hasher = crypto::sha2::Sha256::new();
    crypto::digest::Digest::input(&mut hasher, data);
    let mut out = [0u8; 32];
    crypto::digest::Digest::result(&mut hasher, &mut out);
    out.to_vec()
}

/// `crypto::ripemd160::Ripemd160`, fed `data` once and asked for its result:
/// the digest of `data`, which is 20 bytes long.
#[verifier::external_body]
fn ripemd160_raw(data: &[u8]) -> (digest: Vec<u8>)
    requires
        hashable(data@),
    ensures
        digest@ == ripemd160_digest(data@),
        digest@.len() == 20,
{
    let mut hasher = crypto::ripemd160::Ripemd160::new();
    crypto::digest::Digest::input(&mut hasher, data);
    let mut out = [0u8; 20];
    crypto::digest::Digest::result(&mut hasher, &mut out);
    out.to_vec()
}

/// The SHA-256 digest of `data`, 32 bytes; `EncodingError` where `data` is
/// too long to be hashed.
pub fn sha256(data: &[u8]) -> (r: Result<Vec<u8>, Error>)
    ensures
        match r {
            Ok(d) => hashable(data@) && d@ == sha256_digest(data@) && d@.len() == 32,
            Err(e) => !hashable(data@) && e == Error::EncodingError,
        },
{
    if data.len() as u64 >= DIGEST_INPUT_LIMIT {
        Err(Error::EncodingError)
    } else {
        Ok(sha256_raw(data))
    }
}

/// The RIPEMD-160 digest of `data`, 20 bytes; `EncodingError` where `data`
/// is too long to be hashed.
pub fn ripemd160(data: &[u8]) -> (r: Result<Vec<u8>, Error>)
    ensures
        match r {
            Ok(d) => hashable(data@) && d@ == ripemd160_digest(data@) && d@.len() == 20,
            Err(e) => !hashable(data@) && e == Error::EncodingError,
        },
{
    if data.len() as u64 >= DIGEST_INPUT_LIMIT {
        Err(Error::EncodingError)
    } else {
        Ok(ripemd160_raw(data))
    }
}

/// The lower-case hexadecimal digit of a number below 16.
pub open spec fn hex_digit(n: u8) -> char {
    if n < 10 {
        (n + 48) as char
    } else {
        (n + 87) as char
    }
}

/// The lower-case hexadecimal form of `data`: two digits for each byte,
/// the high half first.
pub open spec fn hex(data: Seq<u8>) -> Seq<char> {
    Seq::new(
        2 * data.len(),
        |i: int|
            if i % 2 == 0 {
                hex_digit(data[i / 2] >> 4)
            } else {
                hex_digit(data[i / 2] & 0x0f)
            },
    )
}

/// The hexadecimal form of a digest has only ASCII characters.
pub proof fn lemma_hex_is_ascii(data: Seq<u8>)
    ensures
        is_ascii_chars(hex(data)),
        hex(data).len() == 2 * data.len(),
{
    assert forall|i: int| 0 <= i < hex(data).len() implies '\0' <= #[trigger] hex(data)[i]
        <= '\u{7f}' by {
        let b = data[i / 2];
        assert(b >> 4 < 16 && b & 0x0f < 16) by (bit_vector);
    }
}

fn hex_digit_byte(n: u8) -> (b: u8)
    requires
        n < 16,
    ensures
        b < 128,
        b as char == hex_digit(n),
{
    if n < 10 {
        n + 48
    } else {
        n + 87
    }
}

/// The lower-case hexadecimal form of `data`.
pub fn to_hex(data: &[u8]) -> (text: String)
    ensures
        text@ == hex(data@),
{
    let mut out: Vec<u8> = Vec::new();
    let mut i: usize = 0;
    while i < data.len()
        invariant
            i <= data@.len(),
            out@.len() == 2 * i,
            forall|j: int| 0 <= j < 2 * i ==> #[trigger] out@[j] < 128 && out@[j] as char == hex(
                data@,
            )[j],
        decreases data@.len() - i,
    {
        let b = data[i];
        assert(b >> 4 < 16 && b & 0x0f < 16) by (bit_vector);
        out.push(hex_digit_byte(b >> 4));
        out.push(hex_digit_byte(b & 0x0f));
        i = i + 1;
    }
    proof {
        let chars = hex(data@);
        lemma_hex_is_ascii(data@);
        is_ascii_chars_encode_utf8(chars);
        assert(out@ =~= encode_utf8(chars));
        encode_utf8_valid_utf8(chars);
        encode_utf8_decode_utf8(chars);
    }
    match string_from_utf8(out) {
        Some(text) => text,
        None => String::new(),
    }
}

/// The SHA-256 digest of `data` in hexadecimal, 64 characters;
/// `EncodingError` where `data` is too long to be hashed.
pub fn sha256_hex(data: &[u8]) -> (r: Result<String, Error>)
    ensures
        match r {
            Ok(text) => hashable(data@) && text@ == hex(sha256_digest(data@)) && text@.len() == 64,
            Err(e) => !hashable(data@) && e == Error::EncodingError,
        },
{
    match sha256(data) {
        Ok(d) => Ok(to_hex(d.as_slice())),
        Err(e) => Err(e),
    }
}

} // verus!
