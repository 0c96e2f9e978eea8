use vstd::prelude::*;

verus! {

/// Everything that can go wrong while validating a login credential.
///
/// The configuration and transport variants are produced by the surrounding
/// program; the remaining variants are produced by the verified login
/// pipeline itself.
#[derive(Debug, Clone, Copy, PartialEq, Eq, Structural)]
pub enum CredentialsError {
    /// The provider's key endpoint could not be reached.
    FetchKeysError,
    /// The configuration file could not be loaded.
    DotEnvError,
    /// The expected audience (client identifier) is not configured.
    NoClientIdError,
    /// The storage address is not configured.
    NoDbAddressError,
    /// The key endpoint's response could not be parsed.
    DeserializeJsonError,
    /// The presented token's header could not be decoded.
    DecodeJwtError,
    /// The presented token's header carries no key id.
    NoKidError,
    /// No fetched key has the key id the token claims.
    NoMatchingKidError,
    /// Verification with a deliberately non-matching key succeeded,
    /// so the verifier cannot be trusted and the login fails closed.
    InvalidKeySucceededError,
    /// Verification with the matching key failed (signature, issuer,
    /// audience or expiry), or the verified claims are incomplete.
    MatchingKeyFailedError,
    /// A key's modulus or exponent is not valid unpadded base64url.
    DecodeComponentError,
    /// The token's embedded nonce is absent or differs from the nonce
    /// supplied with the request.
    InvalidNonceError,
    /// A storage operation failed.
    DatabaseError,
}

/// Everything that can go wrong on an authenticated endpoint.
#[derive(Debug, Clone, Copy, PartialEq, Eq, Structural)]
pub enum ApiError {
    /// The authorization header has fewer than two space-delimited fields.
    MalformedCredential,
    /// No user's session token equals the presented token.
    UserNotFound,
    /// The addressed record does not exist.
    NotFound,
    /// The addressed record belongs to another user, or an admin-only
    /// operation was attempted by a non-admin.
    Forbidden,
    /// A supplied timestamp is not a valid RFC 3339 date.
    MalformedDate,
}

} // verus!
