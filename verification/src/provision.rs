//! Mapping a verified identity to an account: insert first, and treat the
//! store's uniqueness violation as the signal that the account already
//! exists. Nothing is pre-checked in memory; the violation is the only
//! serialisation point between concurrent first logins. On the create path
//! exactly one default workspace is inserted alongside the account; on the
//! reuse path nothing is written.
use vstd::prelude::*;

use crate::codec::wf_subject;
use crate::errors::AuthError;
use crate::project::{default_project, is_default_project};
use crate::store::{
    count_with_email, first_with_email, has_email, has_project_id, lemma_count_after_insert,
    unique_emails, DbError, Store,
};
use crate::user::{OauthProvider, OauthUser, User, UserPlan};

verus! {

/// The account row a brand-new identity gets.
pub open spec fn is_new_account(u: User, identity: OauthUser, user_id: Seq<char>) -> bool {
    &&& u.user_id@ == user_id
    &&& u.name == identity.name
    &&& u.email == identity.email
    &&& u.oauth_provider == Some(OauthProvider::Google)
    &&& u.picture matches Some(p) && p == identity.picture
    &&& u.u_type == UserPlan::Free
}

/// Create the account on first sight, reuse it afterwards.
///
/// With a fresh email and a fresh workspace identifier, the account and
/// its default workspace are appended and the new account is returned.
/// With a known email, nothing is written and the stored account is
/// returned. A workspace-identifier collision on the create path leaves
/// the already-inserted account in place and fails; no rollback is
/// attempted, and a retry takes the reuse path.
pub fn provision(store: &mut Store, g_user: &OauthUser, user_id: String, project_id: String) -> (r:
    Result<User, AuthError>)
    requires
        old(store).wf(),
        wf_subject(user_id@),
    ensures
        final(store).wf(),
        final(store).refresh_tokens@ == old(store).refresh_tokens@,
        !has_email(old(store).users@, g_user.email@) && !has_project_id(
            old(store).projects@,
            project_id@,
        ) ==> (r matches Ok(u) && {
            &&& is_new_account(u, *g_user, user_id@)
            &&& final(store).users@ == old(store).users@.push(u)
            &&& final(store).projects@ == old(store).projects@.push(final(store).projects@.last())
            &&& final(store).projects@.len() == old(store).projects@.len() + 1
            &&& is_default_project(final(store).projects@.last(), user_id@, project_id@)
        }),
        !has_email(old(store).users@, g_user.email@) && has_project_id(
            old(store).projects@,
            project_id@,
        ) ==> (r matches Err(e) && e == AuthError::ServerError && final(store).users@ == old(
            store,
        ).users@.push(final(store).users@.last()) && is_new_account(
            final(store).users@.last(),
            *g_user,
            user_id@,
        ) && final(store).projects@ == old(store).projects@),
        r matches Err(e) ==> e == AuthError::ServerError,
        has_email(old(store).users@, g_user.email@) ==> ({
            &&& final(store).users@ == old(store).users@
            &&& final(store).projects@ == old(store).projects@
            &&& r matches Ok(u) && Some(u) == first_with_email(old(store).users@, g_user.email@)
        }),
{
    let user = User::new(
        user_id,
        g_user.name.clone(),
        g_user.email.clone(),
        Some(OauthProvider::Google),
        Some(g_user.picture.clone()),
        UserPlan::Free,
    );
    let res = store.create_user(user.duplicate());
    match res {
        Ok(()) => {
            let dp = default_project(user.user_id.clone(), project_id);
            match store.add_project(dp) {
                Ok(()) => Ok(user),
                Err(_) => Err(AuthError::ServerError),
            }
        },
        Err(DbError::UniqueViolation) => match store.get_user(&user.email) {
            Some(existing) => Ok(existing),
            None => Err(AuthError::NotFound),
        },
        Err(DbError::Failure) => Err(AuthError::ServerError),
    }
}

/// Once a first login has inserted an account, the store holds exactly
/// one account with that email, and it is the one a lookup finds. So a
/// second login with the same identity — a replay, or the loser of a
/// concurrent first-login race whose own insert hit the uniqueness
/// violation — is sent by `provision`'s contract down the reuse path:
/// it writes nothing and returns that same account.
pub proof fn lemma_second_login_reuses_the_account(users: Seq<User>, u: User)
    requires
        unique_emails(users),
        !has_email(users, u.email@),
    ensures
        has_email(users.push(u), u.email@),
        count_with_email(users.push(u), u.email@) == 1,
        first_with_email(users.push(u), u.email@) == Some(u),
{
    lemma_count_after_insert(users, u);
}

} // verus!
