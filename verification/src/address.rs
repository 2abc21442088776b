//! Addresses: the base58check form of a public key hash.

use vstd::prelude::*;
use vstd::string::*;
use vstd::utf8::*;
use crate::error::Error;

verus! {

/// An address carries a public key hash of 20 bytes.
pub const PUB_KEY_HASH_LEN: usize = 20;

/// No address is longer than this many bytes: the 25 bytes that an
/// address carries make at most 35 base58 digits.
pub const MAX_ADDRESS_LEN: usize = 64;

/// The body that the base58 decoder finds in the text `address`, if it
/// finds one.
pub uninterp spec fn base58_body(address: Seq<char>) -> Option<Seq<u8>>;

/// The bytes that the base58check text `address` carries, if it is well
/// formed. A text of more than `MAX_ADDRESS_LEN` bytes is not.
pub open spec fn base58check_payload(address: Seq<char>) -> Option<Seq<u8>> {
    if encode_utf8(address).len() <= MAX_ADDRESS_LEN {
        base58_body(address)
    } else {
        None
    }
}

/// The base58check text that carries `body`.
pub uninterp spec fn base58check_text(body: Seq<u8>) -> Seq<char>;

/// `bitcoincash_addr::Base58Codec::decode`: the body of the address, or
/// nothing where the text is not base58, is not 25 bytes long when decoded,
/// has an unknown version byte or a wrong checksum. A body is what is left
/// of the 25 bytes without the version byte and the checksum: 20 bytes.
/// The decoder reckons with eleven times the length of the text, so the
/// text is kept short.
#[verifier::external_body]
fn base58_decode(address: &str) -> (body: Option<Vec<u8>>)
    requires
        address.spec_bytes().len() <= MAX_ADDRESS_LEN,
    ensures
        match body {
            Some(b) => base58_body(address@) == Some(b@) && b@.len() == PUB_KEY_HASH_LEN,
            None => base58_body(address@) is None,
        },
{
    match <bitcoincash_addr::Base58Codec as bitcoincash_addr::AddressCodec>::decode(address) {
        Ok(a) => Some(a.body),
        Err(_) => None,
    }
}

/// `bitcoincash_addr::Address::encode` of a script hash on the main network
/// in the base58 scheme: the text that carries `body`. This scheme never fails.
#[verifier::external_body]
pub(crate) fn encode_address(body: &[u8]) -> (text: String)
    ensures
        text@ == base58check_text(body@),
{
    let address = bitcoincash_addr::Address::new(
        body.to_vec(),
        bitcoincash_addr::Scheme::Base58,
        bitcoincash_addr::HashType::Script,
        bitcoincash_addr::Network::Main,
    );
    match address.encode() {
        Ok(text) => text,
        Err(_) => String::new(),
    }
}

/// The public key hash that `address` stands for; `AddressError` where the
/// text is not a well-formed base58check address.
pub fn decode_address(address: &str) -> (r: Result<Vec<u8>, Error>)
    ensures
        match r {
            Ok(b) => base58check_payload(address@) == Some(b@) && b@.len() == PUB_KEY_HASH_LEN,
            Err(e) => base58check_payload(address@) is None && e == Error::AddressError,
        },
{
    if address.as_bytes().len() > MAX_ADDRESS_LEN {
        return Err(Error::AddressError);
    }
    match base58_decode(address) {
        Some(b) => Ok(b),
        None => Err(Error::AddressError),
    }
}

} // verus!
