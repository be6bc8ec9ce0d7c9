//! Request signing and verification: canonical-message construction,
//! key material resolution, keyed-hash signing, and a freshness-checked
//! verification service.

pub mod canonical;
pub mod crypto;
pub mod keys;
pub mod laws;
pub mod order;
pub mod service;

use vstd::prelude::*;

verus! {

/// Error codes surfaced to callers as string codes, never as aborts.
#[derive(Clone, Copy, Debug, PartialEq, Eq, Structural)]
pub enum ErrorCode {
    /// Input buffer is not valid UTF-8.
    Utf8,
    /// Input is not parseable as the expected schema.
    Json,
    /// Supplied raw key is not valid base64.
    BadKey,
    /// Neither credential form is usable (signing).
    NoCredentials,
    /// Neither credential form is usable (verification).
    NoKey,
    /// Verification called without signature or reference timestamp.
    MissingVerifyFields,
    /// Freshness window exceeded.
    TimestampExpired,
    /// Recomputed signature disagrees with the supplied one.
    SigMismatch,
    /// Internal failure serializing the response.
    JsonErr,
}

impl ErrorCode {
    /// The string code this error carries on the wire.
    pub fn wire_code(&self) -> (r: &'static str)
        ensures
            (match *self {
                ErrorCode::Utf8 => r@ == "utf8"@,
                ErrorCode::Json => r@ == "json"@,
                ErrorCode::BadKey => r@ == "bad_key"@,
                ErrorCode::NoCredentials => r@ == "no_credentials"@,
                ErrorCode::NoKey => r@ == "no_key"@,
                ErrorCode::MissingVerifyFields => r@ == "missing_verify_fields"@,
                ErrorCode::TimestampExpired => r@ == "timestamp_expired"@,
                ErrorCode::SigMismatch => r@ == "sig_mismatch"@,
                ErrorCode::JsonErr => r@ == "json_err"@,
            }),
    {
        match self {
            ErrorCode::Utf8 => "utf8",
            ErrorCode::Json => "json",
            ErrorCode::BadKey => "bad_key",
            ErrorCode::NoCredentials => "no_credentials",
            ErrorCode::NoKey => "no_key",
            ErrorCode::MissingVerifyFields => "missing_verify_fields",
            ErrorCode::TimestampExpired => "timestamp_expired",
            ErrorCode::SigMismatch => "sig_mismatch",
            ErrorCode::JsonErr => "json_err",
        }
    }
}

/// Protocol version tag; also the leading field of every canonical message.
pub fn version() -> (r: &'static str)
    ensures
        r@ == "v3"@,
{
    "v3"
}

} // verus!
