//! Names for, and trusted wrappers around, the cryptographic and encoding
//! primitives: HMAC-SHA256, PBKDF2, and base64. Each result is a pure
//! function of the wrapper's arguments; the primitives themselves are
//! specified only at their interface.

use vstd::prelude::*;

verus! {

/// The HMAC-SHA256 digest of `msg` under `key`.
pub uninterp spec fn hmac_sha256_of(key: Seq<u8>, msg: Seq<u8>) -> Seq<u8>;

/// The key that PBKDF2-HMAC-SHA256 derives from a password and a salt with
/// the given iteration count, at an output width of 32 bytes.
pub uninterp spec fn pbkdf2_key_of(password: Seq<u8>, salt: Seq<u8>, rounds: u32) -> Seq<u8>;

/// The standard (padded) base64 encoding of a byte string.
pub uninterp spec fn b64_encode_of(b: Seq<u8>) -> Seq<u8>;

/// What the standard base64 decoder yields on a byte string: the decoded
/// bytes, or nothing when the input is not valid base64.
pub uninterp spec fn b64_decode_of(s: Seq<u8>) -> Option<Seq<u8>>;

/// Relies on `hmac::Hmac<sha2::Sha256>`: the digest depends on key and
/// message alone and is 32 bytes wide; keys of any length are accepted.
#[verifier::external_body]
pub(crate) fn hmac_sha256_raw(key: &Vec<u8>, msg: &Vec<u8>) -> (r: Vec<u8>)
    ensures
        r@ == hmac_sha256_of(key@, msg@),
        r@.len() == 32,
{
    let mut mac = <hmac::Hmac<sha2::Sha256> as hmac::KeyInit>::new_from_slice(key.as_slice())
        .expect("HMAC accepts keys of any length");
    hmac::Mac::update(&mut mac, msg.as_slice());
    hmac::Mac::finalize(mac).into_bytes().to_vec()
}

/// Relies on `pbkdf2::pbkdf2_hmac` over SHA-256: the derived key depends on
/// password, salt and iteration count alone; it fills the 32-byte output.
#[verifier::external_body]
pub(crate) fn pbkdf2_sha256_raw(password: &Vec<u8>, salt: &Vec<u8>, rounds: u32) -> (r: Vec<u8>)
    ensures
        r@ == pbkdf2_key_of(password@, salt@, rounds),
        r@.len() == 32,
{
    let mut key = [0u8; 32];
    pbkdf2::pbkdf2_hmac::<sha2::Sha256>(password.as_slice(), salt.as_slice(), rounds, &mut key);
    key.to_vec()
}

/// Relies on base64's `STANDARD` engine: `encode` depends on the input bytes
/// alone, and `decode` restores exactly the encoded bytes.
#[verifier::external_body]
pub(crate) fn b64_encode_raw(b: &Vec<u8>) -> (r: Vec<u8>)
    requires
        b@.len() <= 0x1000_0000,
    ensures
        r@ == b64_encode_of(b@),
        b64_decode_of(r@) == Some(b@),
{
    base64::Engine::encode(&base64::engine::general_purpose::STANDARD, b.as_slice()).into_bytes()
}

/// Relies on base64's `STANDARD` engine: `decode` depends on the input bytes
/// alone, succeeding exactly on valid base64.
#[verifier::external_body]
pub(crate) fn b64_decode_raw(s: &Vec<u8>) -> (r: Option<Vec<u8>>)
    ensures
        match r {
            Some(v) => b64_decode_of(s@) == Some(v@),
            None => b64_decode_of(s@) is None,
        },
{
    match base64::Engine::decode(&base64::engine::general_purpose::STANDARD, s.as_slice()) {
        Ok(v) => Some(v),
        Err(_) => None,
    }
}

} // verus!
