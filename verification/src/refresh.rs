//! Persisting refresh tokens: a salted one-way hash of the raw token is
//! written, keyed by account and token identifier. The raw token never
//! reaches the store.
use vstd::prelude::*;

use crate::errors::AuthError;
use crate::store::{has_token_id, DbError, Store};

verus! {

/// The hashing cost used for refresh-token hashes: moderate, tuned for
/// server-side checks rather than interactive login.
pub const REFRESH_HASH_COST: u32 = 10;

/// Whether `bcrypt` accepts `password` against `hash`: the result of
/// `bcrypt::verify`, which depends on the two arguments alone. That a
/// fresh hash of a password passes this check is the one fact assumed
/// about hashing.
pub uninterp spec fn bcrypt_checks(password: Seq<char>, hash: Seq<char>) -> bool;

#[verifier::external_type_specification]
#[verifier::external_body]
pub struct ExBcryptError(bcrypt::BcryptError);

/// Relies on `bcrypt::hash`: the hash is salted with fresh randomness, so
/// nothing is said of its value beyond that `bcrypt::verify` accepts the
/// password against it.
#[verifier::external_body]
fn bcrypt_hash(password: &str, cost: u32) -> (r: Result<String, bcrypt::BcryptError>)
    ensures
        r matches Ok(h) ==> bcrypt_checks(password@, h@),
{
    bcrypt::hash(password, cost)
}

/// Relies on `bcrypt::verify`: deterministic in the password and the hash.
#[verifier::external_body]
pub fn bcrypt_verify(password: &str, hash: &str) -> (r: Result<bool, bcrypt::BcryptError>)
    ensures
        r matches Ok(b) ==> b == bcrypt_checks(password@, hash@),
{
    bcrypt::verify(password, hash)
}

/// Hash a refresh token and write the record. Fails as a server error when
/// hashing fails or the store refuses the row; on success exactly one
/// record is appended, carrying the hash and never the raw token.
pub fn persist_refresh_token(
    store: &mut Store,
    u_id: String,
    token_id: String,
    refresh_token: &str,
    expires_at: u64,
) -> (r: Result<(), AuthError>)
    requires
        old(store).wf(),
    ensures
        final(store).wf(),
        final(store).users@ == old(store).users@,
        final(store).projects@ == old(store).projects@,
        match r {
            Ok(()) => {
                &&& !has_token_id(old(store).refresh_tokens@, token_id@)
                &&& final(store).refresh_tokens@ == old(store).refresh_tokens@.push(
                    final(store).refresh_tokens@.last(),
                )
                &&& final(store).refresh_tokens@.last().token_id == token_id
                &&& final(store).refresh_tokens@.last().user_id == u_id
                &&& final(store).refresh_tokens@.last().expires_at == expires_at
                &&& bcrypt_checks(
                    refresh_token@,
                    final(store).refresh_tokens@.last().token_hash@,
                )
            },
            Err(e) => e == AuthError::ServerError && final(store).refresh_tokens@ == old(
                store,
            ).refresh_tokens@,
        },
{
    let hash = match bcrypt_hash(refresh_token, REFRESH_HASH_COST) {
        Ok(h) => h,
        Err(_) => {
            return Err(AuthError::ServerError);
        },
    };
    match store.store_refresh_token(u_id, token_id, hash, expires_at) {
        Ok(()) => Ok(()),
        Err(_) => Err(AuthError::ServerError),
    }
}

} // verus!
