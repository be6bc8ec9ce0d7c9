//! Key material: decoding a raw base64 key, or deriving a key from a
//! password and an application salt. Exactly one credential form may be
//! used; the key is resolved freshly on every call and never cached.

use vstd::prelude::*;

use crate::ErrorCode;
use crate::crypto::{b64_decode_of, b64_decode_raw, b64_encode_of, b64_encode_raw, pbkdf2_key_of,
    pbkdf2_sha256_raw};

verus! {

/// The fixed PBKDF2 iteration count: large, to resist brute force, and
/// constant, so that the same password and salt always derive the same key.
pub const PBKDF2_ROUNDS: u32 = 100_000;

/// The signing key a credential resolves to: the base64-decoded raw key, or
/// the password-derived key, or an error when no single credential form is
/// usable. A raw key together with any password field is ambiguous and is
/// rejected, as is a password without its salt (or the reverse).
pub open spec fn resolve_key_spec(
    key_base64: Option<Seq<u8>>,
    password: Option<Seq<u8>>,
    app_salt: Option<Seq<u8>>,
) -> Result<Seq<u8>, ErrorCode> {
    match key_base64 {
        Some(kb) => if password is Some || app_salt is Some {
            Err(ErrorCode::NoCredentials)
        } else {
            match b64_decode_of(kb) {
                Some(k) => Ok(k),
                None => Err(ErrorCode::BadKey),
            }
        },
        None => match (password, app_salt) {
            (Some(p), Some(s)) => Ok(pbkdf2_key_of(p, s, PBKDF2_ROUNDS)),
            _ => Err(ErrorCode::NoCredentials),
        },
    }
}

/// The byte strings an optional byte vector holds.
pub open spec fn opt_bytes(o: Option<Vec<u8>>) -> Option<Seq<u8>> {
    match o {
        Some(v) => Some(v@),
        None => None,
    }
}

/// Derives the 32-byte signing key from a password and an application salt.
/// Deterministic: the same password and salt always yield the same key.
pub fn derive_key(password: &Vec<u8>, app_salt: &Vec<u8>) -> (r: Vec<u8>)
    ensures
        r@ == pbkdf2_key_of(password@, app_salt@, PBKDF2_ROUNDS),
        r@.len() == 32,
{
    pbkdf2_sha256_raw(password, app_salt, PBKDF2_ROUNDS)
}

/// Derives the signing key and returns it base64-encoded, the form in which
/// a raw key credential would carry it.
pub fn derive_key_b64(password: &Vec<u8>, app_salt: &Vec<u8>) -> (r: Vec<u8>)
    ensures
        r@ == b64_encode_of(pbkdf2_key_of(password@, app_salt@, PBKDF2_ROUNDS)),
        b64_decode_of(r@) == Some(pbkdf2_key_of(password@, app_salt@, PBKDF2_ROUNDS)),
{
    let k = derive_key(password, app_salt);
    b64_encode_raw(&k)
}

/// Resolves a credential to a signing key, exactly as `resolve_key_spec`
/// describes.
pub fn resolve_key(
    key_base64: &Option<Vec<u8>>,
    password: &Option<Vec<u8>>,
    app_salt: &Option<Vec<u8>>,
) -> (r: Result<Vec<u8>, ErrorCode>)
    ensures
        match r {
            Ok(k) => resolve_key_spec(opt_bytes(*key_base64), opt_bytes(*password), opt_bytes(*app_salt))
                == Ok::<Seq<u8>, ErrorCode>(k@),
            Err(e) => resolve_key_spec(opt_bytes(*key_base64), opt_bytes(*password), opt_bytes(*app_salt))
                == Err::<Seq<u8>, ErrorCode>(e),
        },
{
    match key_base64 {
        Some(kb) => {
            if password.is_some() || app_salt.is_some() {
                Err(ErrorCode::NoCredentials)
            } else {
                match b64_decode_raw(kb) {
                    Some(k) => Ok(k),
                    None => Err(ErrorCode::BadKey),
                }
            }
        },
        None => {
            match (password, app_salt) {
                (Some(p), Some(s)) => Ok(derive_key(p, s)),
                _ => Err(ErrorCode::NoCredentials),
            }
        },
    }
}

} // verus!
