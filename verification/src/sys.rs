//! Fresh identifiers and the wall clock: the two nondeterministic inputs of
//! a login, read through trusted wrappers so that everything downstream of
//! them is verified for every value they may take.
use vstd::prelude::*;

verus! {

/// Characters of a hyphenated identifier: lowercase hexadecimal and `-`.
pub open spec fn is_id_char(c: char) -> bool {
    ('0' <= c && c <= '9') || ('a' <= c && c <= 'f') || c == '-'
}

/// Relies on `uuid::Uuid::new_v4` and its `Display` rendering: a random
/// identifier printed as 36 hyphenated lowercase hexadecimal characters.
/// The value itself is random, so nothing is said about it beyond its shape.
#[verifier::external_body]
pub(crate) fn fresh_id() -> (r: String)
    ensures
        r@.len() == 36,
        forall|i: int| 0 <= i < r@.len() ==> is_id_char(#[trigger] r@[i]),
{
    uuid::Uuid::new_v4().to_string()
}

/// Relies on `chrono::Utc::now` and `DateTime::timestamp`: seconds since
/// the Unix epoch. The value depends on the clock, so nothing is promised
/// of it.
#[verifier::external_body]
pub(crate) fn current_unix_time() -> (r: i64) {
    chrono::Utc::now().timestamp()
}

} // verus!
