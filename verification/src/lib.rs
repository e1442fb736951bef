//! The authentication and session-bootstrap core of a personal
//! time-tracking service: it turns a verified third-party identity into a
//! first-party account with a default workspace, issues and checks signed
//! session tokens, records refresh-token hashes, and decides for every
//! inbound request whether a handler may run.
//!
//! The token codec ([`codec`], with [`base64url`], [`digits`] and
//! [`claims`]) is verified down to the byte level; only the HMAC itself,
//! the hashing, the fresh identifiers and the clock are trusted, each
//! behind a small wrapper. Account provisioning ([`provision`], [`login`])
//! is verified against an in-memory model of the persistence collaborator
//! ([`store`]) that enforces exactly the uniqueness the logic relies on.

pub mod base64url;
pub mod claims;
pub mod codec;
pub mod digits;
pub mod errors;
pub mod gate;
pub mod identity;
pub mod misc;
pub mod project;
pub mod login;
pub mod provision;
pub mod refresh;
pub mod store;
pub mod sys;
pub mod user;

use vstd::prelude::*;

verus! {

/// Seconds an access token stays valid after issue.
pub const ACCESS_TOKEN_LIFETIME_SECS: u64 = 3600;

/// Seconds a refresh token stays valid after issue.
pub const REFRESH_TOKEN_LIFETIME_SECS: u64 = 604800;

} // verus!
