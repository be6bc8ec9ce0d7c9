use sign_core::keys::derive_key;
use sign_core::keys::derive_key_b64;
use sign_core::service::{sign, verify, OperationResult, SignedRequest, VerifiableRequest};
use sign_core::version;
use sign_core::ErrorCode;

fn bv(s: &str) -> Vec<u8> {
    s.as_bytes().to_vec()
}

fn pair(k: &str, v: &str) -> (Vec<u8>, Vec<u8>) {
    (bv(k), bv(v))
}

fn golden_request() -> SignedRequest {
    SignedRequest {
        method: bv("GET"),
        path: bv("/v1/orders"),
        params: vec![pair("page", "1"), pair("limit", "20")],
        nonce: bv("abc123"),
        salt: bv("0123456789ABCDEF"),
        timestamp: 1700000000,
        key_base64: None,
        password: Some(bv("hunter2")),
        app_salt: Some(bv("static-app-salt")),
    }
}

fn sig_of(r: &OperationResult) -> Vec<u8> {
    assert!(r.ok);
    assert!(r.error.is_none());
    r.sig.clone().expect("a successful sign carries a signature")
}

fn to_verify(req: SignedRequest, sig: Vec<u8>, server_ts: u64) -> VerifiableRequest {
    VerifiableRequest {
        request: req,
        sig: Some(sig),
        server_ts: Some(server_ts),
    }
}

#[test]
fn canonical_message_golden() {
    let r = golden_request();
    let m = sign_core::canonical::message(
        &r.method, &r.path, &r.params, &r.nonce, &r.salt, r.timestamp,
    );
    assert_eq!(
        m,
        bv("v3#GET#/v1/orders#page=1&limit=20#abc123#56789ABCDE#1700000000")
    );
}

#[test]
fn canonical_message_param_order() {
    let r = golden_request();
    let m1 = sign_core::canonical::message(
        &r.method, &r.path, &r.params, &r.nonce, &r.salt, r.timestamp,
    );
    let reversed = vec![pair("limit", "20"), pair("page", "1")];
    let m2 =
        sign_core::canonical::message(&r.method, &r.path, &reversed, &r.nonce, &r.salt, r.timestamp);
    assert_eq!(m1, m2);
}

#[test]
fn canonical_message_short_salt_in_full() {
    let mut r = golden_request();
    r.salt = bv("abc");
    let m = sign_core::canonical::message(
        &r.method, &r.path, &r.params, &r.nonce, &r.salt, r.timestamp,
    );
    assert_eq!(
        m,
        bv("v3#GET#/v1/orders#page=1&limit=20#abc123#abc#1700000000")
    );
}

#[test]
fn sign_deterministic() {
    let s1 = sig_of(&sign(&golden_request()));
    let s2 = sig_of(&sign(&golden_request()));
    assert_eq!(s1, s2);
}

#[test]
fn sign_order_irrelevant() {
    let s1 = sig_of(&sign(&golden_request()));
    let mut permuted = golden_request();
    permuted.params = vec![pair("limit", "20"), pair("page", "1")];
    let s2 = sig_of(&sign(&permuted));
    assert_eq!(s1, s2);
}

#[test]
fn key_equivalence() {
    let s1 = sig_of(&sign(&golden_request()));
    let kb = derive_key_b64(&bv("hunter2"), &bv("static-app-salt"));
    let mut with_key = golden_request();
    with_key.key_base64 = Some(kb);
    with_key.password = None;
    with_key.app_salt = None;
    let s2 = sig_of(&sign(&with_key));
    assert_eq!(s1, s2);
}

#[test]
fn sign_verify_round_trip() {
    let req = golden_request();
    let sig = sig_of(&sign(&req));
    let r = verify(&to_verify(golden_request(), sig, 1700000000));
    assert!(r.ok);
    assert!(r.error.is_none());
    assert!(r.sig.is_none());
}

#[test]
fn tamper_path() {
    let sig = sig_of(&sign(&golden_request()));
    let mut req = golden_request();
    req.path = bv("/v1/orderz");
    let r = verify(&to_verify(req, sig, 1700000000));
    assert!(!r.ok);
    assert_eq!(r.error, Some(ErrorCode::SigMismatch));
}

#[test]
fn tamper_param_value() {
    let sig = sig_of(&sign(&golden_request()));
    let mut req = golden_request();
    req.params = vec![pair("page", "2"), pair("limit", "20")];
    let r = verify(&to_verify(req, sig, 1700000000));
    assert!(!r.ok);
    assert_eq!(r.error, Some(ErrorCode::SigMismatch));
}

#[test]
fn tamper_nonce() {
    let sig = sig_of(&sign(&golden_request()));
    let mut req = golden_request();
    req.nonce = bv("abc124");
    let r = verify(&to_verify(req, sig, 1700000000));
    assert!(!r.ok);
    assert_eq!(r.error, Some(ErrorCode::SigMismatch));
}

#[test]
fn tamper_timestamp() {
    let sig = sig_of(&sign(&golden_request()));
    let mut req = golden_request();
    req.timestamp = 1700000001;
    // the verifier's clock still covers the shifted timestamp
    let r = verify(&to_verify(req, sig, 1700000000));
    assert!(!r.ok);
    assert_eq!(r.error, Some(ErrorCode::SigMismatch));
}

#[test]
fn freshness_window_boundary_passes() {
    let req = golden_request();
    let sig = sig_of(&sign(&req));
    let ahead = verify(&to_verify(golden_request(), sig.clone(), 1700000000 + 60));
    assert!(ahead.ok);
    let behind = verify(&to_verify(golden_request(), sig, 1700000000 - 60));
    assert!(behind.ok);
}

#[test]
fn freshness_window_exceeded_fails() {
    let req = golden_request();
    let sig = sig_of(&sign(&req));
    let ahead = verify(&to_verify(golden_request(), sig.clone(), 1700000000 + 61));
    assert!(!ahead.ok);
    assert_eq!(ahead.error, Some(ErrorCode::TimestampExpired));
    let behind = verify(&to_verify(golden_request(), sig, 1700000000 - 61));
    assert!(!behind.ok);
    assert_eq!(behind.error, Some(ErrorCode::TimestampExpired));
}

#[test]
fn bad_key_is_rejected() {
    let mut req = golden_request();
    req.key_base64 = Some(bv("!!!not base64!!!"));
    req.password = None;
    req.app_salt = None;
    let r = sign(&req);
    assert!(!r.ok);
    assert!(r.sig.is_none());
    assert_eq!(r.error, Some(ErrorCode::BadKey));
}

#[test]
fn no_credentials_when_none_given() {
    let mut req = golden_request();
    req.password = None;
    req.app_salt = None;
    let r = sign(&req);
    assert!(!r.ok);
    assert_eq!(r.error, Some(ErrorCode::NoCredentials));
}

#[test]
fn no_credentials_when_both_forms_given() {
    let mut req = golden_request();
    req.key_base64 = Some(derive_key_b64(&bv("hunter2"), &bv("static-app-salt")));
    let r = sign(&req);
    assert!(!r.ok);
    assert_eq!(r.error, Some(ErrorCode::NoCredentials));
}

#[test]
fn no_credentials_when_salt_missing() {
    let mut req = golden_request();
    req.app_salt = None;
    let r = sign(&req);
    assert!(!r.ok);
    assert_eq!(r.error, Some(ErrorCode::NoCredentials));
}

#[test]
fn missing_verify_fields_without_signature() {
    let req = golden_request();
    let r = verify(&VerifiableRequest {
        request: req,
        sig: None,
        server_ts: Some(1700000000),
    });
    assert!(!r.ok);
    assert_eq!(r.error, Some(ErrorCode::MissingVerifyFields));
}

#[test]
fn missing_verify_fields_without_server_ts() {
    let req = golden_request();
    let sig = sig_of(&sign(&golden_request()));
    let r = verify(&VerifiableRequest {
        request: req,
        sig: Some(sig),
        server_ts: None,
    });
    assert!(!r.ok);
    assert_eq!(r.error, Some(ErrorCode::MissingVerifyFields));
}

#[test]
fn no_key_on_verify_with_unusable_credential() {
    let sig = sig_of(&sign(&golden_request()));
    let mut req = golden_request();
    req.key_base64 = Some(bv("***"));
    req.password = None;
    req.app_salt = None;
    let r = verify(&to_verify(req, sig, 1700000000));
    assert!(!r.ok);
    assert_eq!(r.error, Some(ErrorCode::NoKey));
}

#[test]
fn derive_key_is_deterministic_and_32_bytes() {
    let k1 = derive_key(&bv("hunter2"), &bv("static-app-salt"));
    let k2 = derive_key(&bv("hunter2"), &bv("static-app-salt"));
    assert_eq!(k1.len(), 32);
    assert_eq!(k1, k2);
    let other = derive_key(&bv("hunter2"), &bv("other-salt"));
    assert_ne!(k1, other);
}

#[test]
fn wire_codes() {
    assert_eq!(ErrorCode::Utf8.wire_code(), "utf8");
    assert_eq!(ErrorCode::Json.wire_code(), "json");
    assert_eq!(ErrorCode::BadKey.wire_code(), "bad_key");
    assert_eq!(ErrorCode::NoCredentials.wire_code(), "no_credentials");
    assert_eq!(ErrorCode::NoKey.wire_code(), "no_key");
    assert_eq!(
        ErrorCode::MissingVerifyFields.wire_code(),
        "missing_verify_fields"
    );
    assert_eq!(ErrorCode::TimestampExpired.wire_code(), "timestamp_expired");
    assert_eq!(ErrorCode::SigMismatch.wire_code(), "sig_mismatch");
    assert_eq!(ErrorCode::JsonErr.wire_code(), "json_err");
}

#[test]
fn version_tag() {
    assert_eq!(version(), "v3");
}

#[test]
fn golden_signature() {
    let sig = sig_of(&sign(&golden_request()));
    let text = String::from_utf8(sig.clone()).expect("signatures are base64 text");
    assert_eq!(text, "tNtdVbwGX2Bkwpef+LPK2zjBTBlNdftrKJQe/mqi5LI=");
    let r = verify(&to_verify(golden_request(), sig, 1700000000));
    assert!(r.ok);
}

#[test]
fn canonical_message_no_params() {
    let r = golden_request();
    let empty: Vec<(Vec<u8>, Vec<u8>)> = Vec::new();
    let m = sign_core::canonical::message(&r.method, &r.path, &empty, &r.nonce, &r.salt, r.timestamp);
    assert_eq!(m, bv("v3#GET#/v1/orders##abc123#56789ABCDE#1700000000"));
}

#[test]
fn canonical_message_salt_boundary() {
    let mut r = golden_request();
    r.salt = bv("0123456789ABCDE");
    let m = sign_core::canonical::message(&r.method, &r.path, &r.params, &r.nonce, &r.salt, r.timestamp);
    assert_eq!(
        m,
        bv("v3#GET#/v1/orders#page=1&limit=20#abc123#0123456789ABCDE#1700000000")
    );
}

#[test]
fn canonical_message_equal_pairs_kept() {
    let r = golden_request();
    let params = vec![pair("a", "1"), pair("a", "1"), pair("b", "2")];
    let m = sign_core::canonical::message(&r.method, &r.path, &params, &r.nonce, &r.salt, r.timestamp);
    assert_eq!(m, bv("v3#GET#/v1/orders#b=2&a=1&a=1#abc123#56789ABCDE#1700000000"));
}

#[test]
fn results_carry_version() {
    let ok = sign(&golden_request());
    assert_eq!(ok.version, "v3");
    let mut bad = golden_request();
    bad.password = None;
    bad.app_salt = None;
    assert_eq!(sign(&bad).version, "v3");
    let sig = sig_of(&sign(&golden_request()));
    assert_eq!(verify(&to_verify(golden_request(), sig, 1700000000)).version, "v3");
}
