//! Turning a provider's introspection response into an identity assertion.
//! The transport call and the JSON deserialisation live outside the
//! library; this module decides, field by field, whether what came back is
//! a usable identity.
use vstd::prelude::*;

use crate::errors::AuthError;
use crate::user::OauthUser;

verus! {

/// The optional fields of a provider introspection response, as plain
/// values. A field the response did not carry is `None`.
pub struct ProviderClaims {
    pub sub: Option<String>,
    pub email: Option<String>,
    pub name: Option<String>,
    pub picture: Option<String>,
    pub aud: Option<String>,
}

/// Accept an introspection response exactly when every required field is
/// present. The audience field is required to be present but is not
/// compared against any client identifier; a token minted for another
/// application passes this check.
pub fn extract_identity(claims: ProviderClaims) -> (r: Result<OauthUser, AuthError>)
    ensures
        match r {
            Ok(u) => {
                &&& claims.sub matches Some(s) && u.sub == s
                &&& claims.email matches Some(e) && u.email == e
                &&& claims.name matches Some(n) && u.name == n
                &&& claims.picture matches Some(p) && u.picture == p
                &&& claims.aud is Some
            },
            Err(e) => e == AuthError::Unauthorized && (claims.sub is None || claims.email is None
                || claims.name is None || claims.picture is None || claims.aud is None),
        },
{
    let sub = match claims.sub {
        Some(s) => s,
        None => {
            return Err(AuthError::Unauthorized);
        },
    };
    let picture = match claims.picture {
        Some(p) => p,
        None => {
            return Err(AuthError::Unauthorized);
        },
    };
    let email = match claims.email {
        Some(e) => e,
        None => {
            return Err(AuthError::Unauthorized);
        },
    };
    let name = match claims.name {
        Some(n) => n,
        None => {
            return Err(AuthError::Unauthorized);
        },
    };
    if claims.aud.is_none() {
        return Err(AuthError::Unauthorized);
    }
    Ok(OauthUser { sub, name, email, picture })
}

} // verus!
