//! The signing and verification services: resolve the key, build the
//! canonical message, compute or check the keyed hash, and — for
//! verification — enforce the freshness window first.

use vstd::prelude::*;

use crate::ErrorCode;
use crate::canonical::{canonical_message, message, pairs_view};
use crate::crypto::{b64_encode_of, b64_encode_raw, hmac_sha256_of, hmac_sha256_raw};
use crate::keys::{opt_bytes, resolve_key, resolve_key_spec};
use crate::order::bytes_eq;

verus! {

/// The widest clock skew, in seconds, between the verifier's clock and a
/// request's claimed timestamp that verification accepts. Replay protection
/// is by this time window only; nonce uniqueness is not enforced.
pub const FRESHNESS_WINDOW_SECS: u64 = 60;

/// A request to be signed. All fields are UTF-8 byte strings; parameter
/// order is irrelevant to the signature. Exactly one credential form must be
/// usable: a raw key (base64), or a password with an application salt.
pub struct SignedRequest {
    pub method: Vec<u8>,
    pub path: Vec<u8>,
    pub params: Vec<(Vec<u8>, Vec<u8>)>,
    pub nonce: Vec<u8>,
    pub salt: Vec<u8>,
    pub timestamp: u64,
    pub key_base64: Option<Vec<u8>>,
    pub password: Option<Vec<u8>>,
    pub app_salt: Option<Vec<u8>>,
}

/// The mathematical content of a `SignedRequest`.
#[verifier::ext_equal]
pub struct SignedRequestView {
    pub method: Seq<u8>,
    pub path: Seq<u8>,
    pub params: Seq<(Seq<u8>, Seq<u8>)>,
    pub nonce: Seq<u8>,
    pub salt: Seq<u8>,
    pub timestamp: u64,
    pub key_base64: Option<Seq<u8>>,
    pub password: Option<Seq<u8>>,
    pub app_salt: Option<Seq<u8>>,
}

impl View for SignedRequest {
    type V = SignedRequestView;

    open spec fn view(&self) -> SignedRequestView {
        SignedRequestView {
            method: self.method@,
            path: self.path@,
            params: pairs_view(self.params@),
            nonce: self.nonce@,
            salt: self.salt@,
            timestamp: self.timestamp,
            key_base64: opt_bytes(self.key_base64),
            password: opt_bytes(self.password),
            app_salt: opt_bytes(self.app_salt),
        }
    }
}

/// A request to be verified: the signed fields, the signature to check, and
/// the verifier's own clock reading.
pub struct VerifiableRequest {
    pub request: SignedRequest,
    pub sig: Option<Vec<u8>>,
    pub server_ts: Option<u64>,
}

/// The mathematical content of a `VerifiableRequest`.
#[verifier::ext_equal]
pub struct VerifiableRequestView {
    pub request: SignedRequestView,
    pub sig: Option<Seq<u8>>,
    pub server_ts: Option<u64>,
}

impl View for VerifiableRequest {
    type V = VerifiableRequestView;

    open spec fn view(&self) -> VerifiableRequestView {
        VerifiableRequestView {
            request: self.request@,
            sig: opt_bytes(self.sig),
            server_ts: self.server_ts,
        }
    }
}

/// The outcome of one signing or verification call. For signing, exactly one
/// of `sig` and `error` is present; verification sets `ok` and never a
/// signature. Every outcome carries the protocol version tag.
pub struct OperationResult {
    pub ok: bool,
    pub sig: Option<Vec<u8>>,
    pub error: Option<ErrorCode>,
    pub version: &'static str,
}

/// The canonical message of a request's authenticated fields.
pub open spec fn request_message(r: SignedRequestView) -> Seq<u8> {
    canonical_message(r.method, r.path, r.params, r.nonce, r.salt, r.timestamp)
}

/// What signing yields: the base64 HMAC-SHA256 signature of the canonical
/// message under the resolved key, or the key-resolution error.
pub open spec fn sign_spec(r: SignedRequestView) -> Result<Seq<u8>, ErrorCode> {
    match resolve_key_spec(r.key_base64, r.password, r.app_salt) {
        Ok(k) => Ok(b64_encode_of(hmac_sha256_of(k, request_message(r)))),
        Err(e) => Err(e),
    }
}

/// Whether a claimed timestamp is within the freshness window of the
/// verifier's clock.
pub open spec fn fresh(server_ts: u64, timestamp: u64) -> bool {
    (if server_ts >= timestamp {
        server_ts - timestamp
    } else {
        timestamp - server_ts
    }) <= FRESHNESS_WINDOW_SECS
}

/// What verification reports: nothing on acceptance, otherwise the first
/// failure in order — missing fields, staleness, unusable key, mismatch.
pub open spec fn verify_error_spec(v: VerifiableRequestView) -> Option<ErrorCode> {
    if v.sig is None || v.server_ts is None {
        Some(ErrorCode::MissingVerifyFields)
    } else if !fresh(v.server_ts->Some_0, v.request.timestamp) {
        Some(ErrorCode::TimestampExpired)
    } else {
        match resolve_key_spec(v.request.key_base64, v.request.password, v.request.app_salt) {
            Err(_) => Some(ErrorCode::NoKey),
            Ok(k) => if v.sig->Some_0 == b64_encode_of(
                hmac_sha256_of(k, request_message(v.request)),
            ) {
                None
            } else {
                Some(ErrorCode::SigMismatch)
            },
        }
    }
}

/// Signs a request: resolves the key, builds the canonical message, and
/// returns its base64 HMAC-SHA256 signature, or the resolution error.
pub fn sign(req: &SignedRequest) -> (r: OperationResult)
    ensures
        match sign_spec(req@) {
            Ok(s) => r.ok && r.error is None && opt_bytes(r.sig) == Some(s),
            Err(e) => !r.ok && r.sig is None && r.error == Some(e),
        },
        r.version@ == "v3"@,
{
    match resolve_key(&req.key_base64, &req.password, &req.app_salt) {
        Err(e) => OperationResult { ok: false, sig: None, error: Some(e), version: crate::version() },
        Ok(k) => {
            let msg = message(&req.method, &req.path, &req.params, &req.nonce, &req.salt,
                req.timestamp);
            let tag = hmac_sha256_raw(&k, &msg);
            let sig = b64_encode_raw(&tag);
            OperationResult { ok: true, sig: Some(sig), error: None, version: crate::version() }
        },
    }
}

/// Verifies a request. The checks run in a fixed order: field presence,
/// freshness, key resolution, then recomputation and comparison of the
/// signature; a stale timestamp is reported before any signature work.
pub fn verify(v: &VerifiableRequest) -> (r: OperationResult)
    ensures
        r.sig is None,
        r.ok <==> verify_error_spec(v@) is None,
        r.error == verify_error_spec(v@),
        r.version@ == "v3"@,
{
    match (&v.sig, &v.server_ts) {
        (Some(supplied), Some(server_ts)) => {
            let ts = v.request.timestamp;
            let diff = if *server_ts >= ts {
                *server_ts - ts
            } else {
                ts - *server_ts
            };
            if diff > FRESHNESS_WINDOW_SECS {
                return OperationResult {
                    ok: false,
                    sig: None,
                    error: Some(ErrorCode::TimestampExpired),
                    version: crate::version(),
                };
            }
            match resolve_key(&v.request.key_base64, &v.request.password, &v.request.app_salt) {
                Err(_) => OperationResult { ok: false, sig: None, error: Some(ErrorCode::NoKey), version: crate::version() },
                Ok(k) => {
                    let msg = message(&v.request.method, &v.request.path, &v.request.params,
                        &v.request.nonce, &v.request.salt, v.request.timestamp);
                    let tag = hmac_sha256_raw(&k, &msg);
                    let expected = b64_encode_raw(&tag);
                    if bytes_eq(supplied, &expected) {
                        OperationResult { ok: true, sig: None, error: None, version: crate::version() }
                    } else {
                        OperationResult {
                            ok: false,
                            sig: None,
                            error: Some(ErrorCode::SigMismatch),
                            version: crate::version(),
                        }
                    }
                },
            }
        },
        _ => OperationResult {
            ok: false,
            sig: None,
            error: Some(ErrorCode::MissingVerifyFields),
            version: crate::version(),
        },
    }
}

} // verus!
