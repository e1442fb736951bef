//! The login use case: verify who is asking, create or fetch the account,
//! issue a token pair, and record the refresh-token hash — strictly in
//! that order, stopping at the first failure. An unsupported provider is
//! turned away before anything is verified or written. No compensating
//! action is taken when a later step fails after an earlier one has
//! written: the account stays, and a retried login takes the reuse path.
use vstd::prelude::*;

use crate::codec::{
    access_accepted_with, issue_at, jwt_token, subject_bytes, wf_subject, TokenConfig,
};
use crate::errors::AuthError;
use crate::project::is_default_project;
use crate::provision::{is_new_account, provision};
use crate::refresh::{bcrypt_checks, persist_refresh_token};
use crate::store::{first_with_email, has_email, Store};
use crate::user::{LoginResponse, OauthProvider, OauthUser};
use crate::{ACCESS_TOKEN_LIFETIME_SECS, REFRESH_TOKEN_LIFETIME_SECS};

verus! {

/// Log an identity in: provision the account, issue the token pair under
/// the two secrets, and persist the refresh-token hash.
///
/// The fresh identifiers and the clock reading are passed in; everything
/// that follows from them is deterministic and fully specified. Only the
/// Google provider is implemented: any other provider is refused before
/// any store or codec work.
pub fn login_user(
    store: &mut Store,
    provider: OauthProvider,
    g_user: &OauthUser,
    cfg: &TokenConfig,
    user_id: String,
    project_id: String,
    token_id: String,
    now: u64,
) -> (r: Result<LoginResponse, AuthError>)
    requires
        old(store).wf(),
        wf_subject(user_id@),
        now + REFRESH_TOKEN_LIFETIME_SECS <= u64::MAX,
    ensures
        final(store).wf(),
        provider == OauthProvider::Github ==> (r matches Err(e) && e == AuthError::Unauthorized
            && final(store).users@ == old(store).users@ && final(store).projects@ == old(
            store,
        ).projects@ && final(store).refresh_tokens@ == old(store).refresh_tokens@),
        r matches Ok(resp) ==> {
            &&& provider == OauthProvider::Google
            &&& resp.user.email@ == g_user.email@
            &&& !has_email(old(store).users@, g_user.email@) ==> {
                &&& is_new_account(resp.user, *g_user, user_id@)
                &&& final(store).users@ == old(store).users@.push(resp.user)
                &&& final(store).projects@ == old(store).projects@.push(
                    final(store).projects@.last(),
                )
                &&& is_default_project(final(store).projects@.last(), user_id@, project_id@)
            }
            &&& has_email(old(store).users@, g_user.email@) ==> {
                &&& final(store).users@ == old(store).users@
                &&& final(store).projects@ == old(store).projects@
                &&& Some(resp.user) == first_with_email(old(store).users@, g_user.email@)
            }
            &&& subject_bytes(resp.access_token@) == jwt_token(
                cfg.access_secret@,
                subject_bytes(resp.user.user_id@),
                (now + ACCESS_TOKEN_LIFETIME_SECS) as u64,
            )
            &&& forall|n2: u64|
                n2 < now + ACCESS_TOKEN_LIFETIME_SECS ==> #[trigger] access_accepted_with(
                    cfg.access_secret@,
                    subject_bytes(resp.access_token@),
                    n2,
                    subject_bytes(resp.user.user_id@),
                    (now + ACCESS_TOKEN_LIFETIME_SECS) as u64,
                )
            &&& final(store).refresh_tokens@ == old(store).refresh_tokens@.push(
                final(store).refresh_tokens@.last(),
            )
            &&& final(store).refresh_tokens@.last().user_id == resp.user.user_id
            &&& final(store).refresh_tokens@.last().token_id == token_id
            &&& final(store).refresh_tokens@.last().expires_at == now
                + REFRESH_TOKEN_LIFETIME_SECS
            &&& bcrypt_checks(resp.refresh_token@, final(store).refresh_tokens@.last().token_hash@)
        },
        provider == OauthProvider::Google ==> (r matches Err(e) ==> (e == AuthError::ServerError
            && final(store).refresh_tokens@ == old(store).refresh_tokens@)),
        provider == OauthProvider::Google && !has_email(old(store).users@, g_user.email@) ==> (
        final(store).users@ == old(store).users@.push(final(store).users@.last())
            && is_new_account(final(store).users@.last(), *g_user, user_id@)),
        provider == OauthProvider::Google && has_email(old(store).users@, g_user.email@) ==> (
        final(store).users@ == old(store).users@ && final(store).projects@ == old(
            store,
        ).projects@),
{
    match provider {
        OauthProvider::Github => Err(AuthError::Unauthorized),
        OauthProvider::Google => {
            let user = match provision(store, g_user, user_id, project_id) {
                Ok(u) => u,
                Err(e) => {
                    return Err(e);
                },
            };
            proof {
                if has_email(old(store).users@, g_user.email@) {
                    crate::store::lemma_first_with_email_found(old(store).users@, g_user.email@);
                }
            }
            let token = match issue_at(cfg, user.user_id.as_str(), now) {
                Ok(t) => t,
                Err(_) => {
                    return Err(AuthError::ServerError);
                },
            };
            match persist_refresh_token(
                store,
                user.user_id.clone(),
                token_id,
                token.refresh_token.as_str(),
                token.expiry,
            ) {
                Ok(()) => Ok(
                    LoginResponse {
                        user,
                        access_token: token.access_token,
                        refresh_token: token.refresh_token,
                    },
                ),
                Err(e) => Err(e),
            }
        },
    }
}

/// Log an identity in with freshly drawn identifiers and the current wall
/// clock, as the login endpoint does. The identifiers are random and the
/// clock is the machine's, so this states what holds of every outcome;
/// [`login_user`] carries the full contract for given inputs.
pub fn login(
    store: &mut Store,
    provider: OauthProvider,
    g_user: &OauthUser,
    cfg: &TokenConfig,
) -> (r: Result<LoginResponse, AuthError>)
    requires
        old(store).wf(),
    ensures
        final(store).wf(),
        provider == OauthProvider::Github ==> (r matches Err(e) && e == AuthError::Unauthorized
            && final(store).users@ == old(store).users@ && final(store).projects@ == old(
            store,
        ).projects@ && final(store).refresh_tokens@ == old(store).refresh_tokens@),
        r matches Ok(resp) ==> provider == OauthProvider::Google && resp.user.email@
            == g_user.email@,
        r matches Err(e) ==> (e == AuthError::Unauthorized || e == AuthError::ServerError)
            && final(store).refresh_tokens@ == old(store).refresh_tokens@,
{
    if let OauthProvider::Github = provider {
        return Err(AuthError::Unauthorized);
    }
    let user_id = crate::sys::fresh_id();
    let project_id = crate::sys::fresh_id();
    let token_id = crate::sys::fresh_id();
    proof {
        assert(wf_subject(user_id@)) by {
            assert(forall|i: int|
                0 <= i < user_id@.len() ==> crate::sys::is_id_char(#[trigger] user_id@[i]));
        }
    }
    let ts = crate::sys::current_unix_time();
    if ts < 0 {
        return Err(AuthError::ServerError);
    }
    let now = ts as u64;
    if now > u64::MAX - REFRESH_TOKEN_LIFETIME_SECS {
        return Err(AuthError::ServerError);
    }
    login_user(store, provider, g_user, cfg, user_id, project_id, token_id, now)
}

} // verus!
