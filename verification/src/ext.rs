use vstd::prelude::*;

use crate::model::opt_str_view;

verus! {

// ---------------------------------------------------------------------------
// Names for what deterministic outside calls return
// ---------------------------------------------------------------------------

/// What decoding a token's header yields: nothing when the header cannot be
/// decoded, else the optional key id it carries.
pub uninterp spec fn jwt_header_kid(token: Seq<char>) -> Option<Option<Seq<char>>>;

/// What unpadded base64url decoding yields: nothing when the text is not
/// valid base64url.
pub uninterp spec fn b64url_decoded(s: Seq<char>) -> Option<Seq<u8>>;

/// The instant an RFC 3339 date text denotes, in milliseconds since the
/// Unix epoch; nothing when the text does not parse.
pub uninterp spec fn rfc3339_millis(s: Seq<char>) -> Option<i64>;

// ---------------------------------------------------------------------------
// Trusted wrappers around the outside crates
// ---------------------------------------------------------------------------

/// Relies on jsonwebtoken::decode_header: it decodes the token's header
/// without verifying anything and yields the header's `kid` field. The
/// outcome is a function of the token text alone.
#[verifier::external_body]
pub(crate) fn decode_header_kid(token: &str) -> (r: Result<Option<String>, ()>)
    ensures
        match r {
            Ok(kid) => jwt_header_kid(token@) == Some(opt_str_view(kid)),
            Err(_) => jwt_header_kid(token@) is None,
        },
{
    match jsonwebtoken::decode_header(token) {
        Ok(h) => Ok(h.kid),
        Err(_) => Err(()),
    }
}

/// Relies on base64's URL_SAFE_NO_PAD engine: strict unpadded base64url
/// decoding, a function of the input text alone.
#[verifier::external_body]
pub(crate) fn b64url_decode(s: &str) -> (r: Result<Vec<u8>, ()>)
    ensures
        match r {
            Ok(v) => b64url_decoded(s@) == Some(v@),
            Err(_) => b64url_decoded(s@) is None,
        },
{
    match base64::Engine::decode(&base64::engine::general_purpose::URL_SAFE_NO_PAD, s) {
        Ok(v) => Ok(v),
        Err(_) => Err(()),
    }
}

/// Relies on bson::DateTime::parse_rfc3339_str and timestamp_millis:
/// parsing an RFC 3339 date is a function of the text alone.
#[verifier::external_body]
pub(crate) fn parse_rfc3339(s: &str) -> (r: Result<i64, ()>)
    ensures
        match r {
            Ok(ms) => rfc3339_millis(s@) == Some(ms),
            Err(_) => rfc3339_millis(s@) is None,
        },
{
    match bson::DateTime::parse_rfc3339_str(s) {
        Ok(d) => Ok(d.timestamp_millis()),
        Err(_) => Err(()),
    }
}

/// Relies on bson::uuid::Uuid::new: a fresh random identifier rendered as
/// text, used as the opaque session token. Nothing is promised of the
/// value.
#[verifier::external_body]
pub(crate) fn mint_token() -> (r: String) {
    bson::uuid::Uuid::new().to_string()
}

#[verifier::external_type_specification]
#[verifier::external_body]
pub struct ExValue(serde_json::Value);

/// Relies on jsonwebtoken::decode, with a key built by
/// DecodingKey::from_rsa_raw_components and a Validation configured by
/// Validation::new(RS256), set_issuer and set_audience: it verifies the
/// token's signature, issuer, audience and expiry and yields the claims.
/// Expiry checking reads the clock, so nothing relates the outcome to the
/// inputs.
#[verifier::external_body]
pub(crate) fn verify_rs256(
    token: &str,
    n: &Vec<u8>,
    e: &Vec<u8>,
    issuer: &str,
    audience: &str,
) -> (r: Result<serde_json::Value, ()>) {
    let key = jsonwebtoken::DecodingKey::from_rsa_raw_components(n.as_slice(), e.as_slice());
    let mut validation = jsonwebtoken::Validation::new(jsonwebtoken::Algorithm::RS256);
    validation.set_issuer(&[issuer]);
    validation.set_audience(&[audience]);
    match jsonwebtoken::decode::<serde_json::Value>(token, &key, &validation) {
        Ok(data) => Ok(data.claims),
        Err(_) => Err(()),
    }
}

/// Relies on serde_json::Value::get and Value::as_str: the string value of
/// one claim field, absent when the field is missing or not a string.
#[verifier::external_body]
pub(crate) fn claim_string(claims: &serde_json::Value, key: &str) -> (r: Option<String>) {
    claims.get(key).and_then(|v| v.as_str()).map(|s| s.to_string())
}

} // verus!
