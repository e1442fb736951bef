//! The error taxonomy surfaced at the API boundary, and the internal
//! failure kinds of the token codec. Internal component failures are
//! translated to exactly one `AuthError` at the orchestrator boundary.
use vstd::prelude::*;

verus! {

/// API-facing outcome kinds for failed requests.
#[derive(Clone, Copy, Debug, PartialEq, Eq, Structural)]
pub enum AuthError {
    /// A bad, missing or expired access token at the request gate.
    Unauthenticated,
    /// Failed identity verification, an unsupported provider, or an invalid
    /// bearer credential at login.
    Unauthorized,
    /// A direct create call hit an existing row; login absorbs this case
    /// internally instead of surfacing it.
    Conflict,
    /// An account lookup that was owed a row came back empty.
    NotFound,
    /// Hashing, signing, persistence or transport failed for reasons not
    /// attributable to the caller.
    ServerError,
}

impl AuthError {
    /// The HTTP status each kind maps to.
    pub fn http_status(&self) -> (r: u16)
        ensures
            r == match *self {
                AuthError::Unauthenticated => 401u16,
                AuthError::Unauthorized => 401u16,
                AuthError::Conflict => 409u16,
                AuthError::NotFound => 404u16,
                AuthError::ServerError => 500u16,
            },
    {
        match *self {
            AuthError::Unauthenticated => 401,
            AuthError::Unauthorized => 401,
            AuthError::Conflict => 409,
            AuthError::NotFound => 404,
            AuthError::ServerError => 500,
        }
    }
}

/// Failure kinds of the token codec.
#[derive(Clone, Copy, Debug, PartialEq, Eq, Structural)]
pub enum TokenError {
    /// A signing secret is unavailable (or the clock is unusable).
    ConfigurationError,
    /// Signing itself failed; fatal and internal.
    EncodingError,
}

} // verus!
