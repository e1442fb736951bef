//! Accounts and the values that describe them: the identity a provider
//! asserts, the stored account row, and the login response.
use vstd::prelude::*;

verus! {

/// The identity providers a login may name. Only Google is implemented.
#[derive(Clone, Copy, Debug, PartialEq, Eq, Structural)]
pub enum OauthProvider {
    Google,
    Github,
}

impl OauthProvider {
    /// The lowercase name the storage layer records.
    pub fn as_str(&self) -> (r: &'static str)
        ensures
            *self == OauthProvider::Google ==> r@ == "google"@,
            *self == OauthProvider::Github ==> r@ == "github"@,
    {
        match *self {
            OauthProvider::Google => "google",
            OauthProvider::Github => "github",
        }
    }
}

/// Account plans; new accounts start free.
#[derive(Clone, Copy, Debug, PartialEq, Eq, Structural)]
pub enum UserPlan {
    Free,
    Pro,
}

impl UserPlan {
    /// The lowercase name the storage layer records.
    pub fn as_str(&self) -> (r: &'static str)
        ensures
            *self == UserPlan::Free ==> r@ == "free"@,
            *self == UserPlan::Pro ==> r@ == "pro"@,
    {
        match *self {
            UserPlan::Free => "free",
            UserPlan::Pro => "pro",
        }
    }
}

/// A first-party account row. `email` is the uniqueness boundary: the
/// store never holds two accounts with the same email.
pub struct User {
    pub user_id: String,
    pub name: String,
    pub email: String,
    pub oauth_provider: Option<OauthProvider>,
    pub picture: Option<String>,
    pub u_type: UserPlan,
}

impl User {
    pub fn new(
        user_id: String,
        name: String,
        email: String,
        oauth_provider: Option<OauthProvider>,
        picture: Option<String>,
        u_type: UserPlan,
    ) -> (r: User)
        ensures
            r.user_id == user_id,
            r.name == name,
            r.email == email,
            r.oauth_provider == oauth_provider,
            r.picture == picture,
            r.u_type == u_type,
    {
        User { user_id, name, email, oauth_provider, picture, u_type }
    }

    /// A field-for-field copy.
    pub fn duplicate(&self) -> (r: User)
        ensures
            r == *self,
    {
        let picture = match &self.picture {
            Some(p) => Some(p.clone()),
            None => None,
        };
        User {
            user_id: self.user_id.clone(),
            name: self.name.clone(),
            email: self.email.clone(),
            oauth_provider: self.oauth_provider,
            picture,
            u_type: self.u_type,
        }
    }
}

/// The identity fields a verified provider assertion carries.
pub struct OauthUser {
    pub sub: String,
    pub name: String,
    pub email: String,
    pub picture: String,
}

/// What a successful login returns.
pub struct LoginResponse {
    pub user: User,
    pub access_token: String,
    pub refresh_token: String,
}

} // verus!
