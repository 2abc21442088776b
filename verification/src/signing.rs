//! Ed25519 key pairs and signatures.

use vstd::prelude::*;

verus! {

/// A secret key is 64 bytes long.
pub const SECRET_KEY_LEN: usize = 64;

/// A public key is 32 bytes long.
pub const PUBLIC_KEY_LEN: usize = 32;

/// A signature is 64 bytes long.
pub const SIGNATURE_LEN: usize = 64;

/// The secret key and the public key that Ed25519 derives from `seed`.
pub uninterp spec fn ed25519_keys(seed: Seq<u8>) -> (Seq<u8>, Seq<u8>);

/// The Ed25519 signature of `message` under `secret_key`.
pub uninterp spec fn ed25519_sig(message: Seq<u8>, secret_key: Seq<u8>) -> Seq<u8>;

/// Whether Ed25519 accepts `signature` for `message` under `public_key`.
pub uninterp spec fn ed25519_accepts(
    message: Seq<u8>,
    public_key: Seq<u8>,
    signature: Seq<u8>,
) -> bool;

/// `crypto::ed25519::keypair`: the key pair derived from `seed`, a secret
/// key of 64 bytes and a public key of 32.
#[verifier::external_body]
pub(crate) fn keypair(seed: &[u8]) -> (keys: (Vec<u8>, Vec<u8>))
    ensures
        keys.0@ == ed25519_keys(seed@).0,
        keys.1@ == ed25519_keys(seed@).1,
        keys.0@.len() == SECRET_KEY_LEN,
        keys.1@.len() == PUBLIC_KEY_LEN,
{
    let (secret, public) = crypto::ed25519::keypair(seed);
    (secret.to_vec(), public.to_vec())
}

/// `crypto::ed25519::signature`: the signature of `message`, 64 bytes. It
/// reads the first 64 bytes of the key, so the key has to hold them.
#[verifier::external_body]
pub(crate) fn sign_message(message: &[u8], secret_key: &[u8]) -> (sig: Vec<u8>)
    requires
        secret_key@.len() == SECRET_KEY_LEN,
    ensures
        sig@ == ed25519_sig(message@, secret_key@),
        sig@.len() == SIGNATURE_LEN,
{
    crypto::ed25519::signature(message, secret_key).to_vec()
}

/// `crypto::ed25519::verify`: whether the signature is accepted. It reads
/// the first 32 bytes of the key and the first 64 of the signature, so both
/// have to hold them.
#[verifier::external_body]
fn verify_raw(message: &[u8], public_key: &[u8], signature: &[u8]) -> (ok: bool)
    requires
        public_key@.len() == PUBLIC_KEY_LEN,
        signature@.len() == SIGNATURE_LEN,
    ensures
        ok == ed25519_accepts(message@, public_key@, signature@),
{
    crypto::ed25519::verify(message, public_key, signature)
}

/// Whether `signature` is a signature of `message` under `public_key`: both
/// have their exact lengths and Ed25519 accepts the signature.
pub open spec fn signature_valid(
    message: Seq<u8>,
    public_key: Seq<u8>,
    signature: Seq<u8>,
) -> bool {
    &&& public_key.len() == PUBLIC_KEY_LEN
    &&& signature.len() == SIGNATURE_LEN
    &&& ed25519_accepts(message, public_key, signature)
}

/// Checks a signature; one of another length than 64 bytes, or under a key
/// of another length than 32, is refused.
pub fn verify_message(message: &[u8], public_key: &[u8], signature: &[u8]) -> (ok: bool)
    ensures
        ok == signature_valid(message@, public_key@, signature@),
{
    if public_key.len() != PUBLIC_KEY_LEN || signature.len() != SIGNATURE_LEN {
        false
    } else {
        verify_raw(message, public_key, signature)
    }
}

} // verus!
