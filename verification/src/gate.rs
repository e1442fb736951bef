//! The request gate: every inbound request except the login path must
//! carry `Authorization: Bearer <access token>`, and the token must check
//! out. On any shortfall the decision is Reject, and the caller must not
//! run the downstream handler.
use vstd::prelude::*;
use vstd::string::{StrSliceExecFns, StringSliceAdditionalSpecFns};

use vstd::utf8::encode_utf8;

use crate::codec::{
    access_accepted, access_accepted_with, subject_bytes, verify_access, wf_subject, TokenConfig,
};

verus! {

/// `p` begins `s`.
pub open spec fn is_prefix_of(p: Seq<char>, s: Seq<char>) -> bool {
    p.len() <= s.len() && forall|i: int| 0 <= i < p.len() ==> p[i] == s[i]
}

/// The decision for one inbound request.
pub enum GateDecision {
    /// The login path: no token is asked for.
    PassThrough,
    /// A checked token; the verified subject for the handler to read.
    Allow(String),
    /// Everything else: answer 401 and never call the handler.
    Reject,
}

fn str_has_prefix(s: &str, p: &str) -> (r: bool)
    ensures
        r == is_prefix_of(p@, s@),
{
    let plen = p.unicode_len();
    let slen = s.unicode_len();
    if plen > slen {
        return false;
    }
    let mut i: usize = 0;
    while i < plen
        invariant
            0 <= i <= plen,
            plen == p@.len(),
            plen <= s@.len(),
            forall|k: int| 0 <= k < i ==> p@[k] == s@[k],
        decreases plen - i,
    {
        if s.get_char(i) != p.get_char(i) {
            return false;
        }
        i = i + 1;
    }
    true
}

/// Decide one request. The login path passes untouched; otherwise the
/// header must exist, carry the bearer scheme, and hold a token that
/// checks out under the access secret at time `now`. The decision is
/// `Allow` with the token's subject exactly when all of that holds.
pub fn jwt_gate(cfg: &TokenConfig, path: &str, auth_header: Option<&str>, now: u64) -> (r:
    GateDecision)
    ensures
        is_prefix_of("/login"@, path@) <==> r is PassThrough,
        !is_prefix_of("/login"@, path@) && auth_header is None ==> r is Reject,
        (r matches GateDecision::Allow(sub) ==> {
            &&& !is_prefix_of("/login"@, path@)
            &&& auth_header matches Some(h) && is_prefix_of("Bearer "@, h@) && access_accepted(
                cfg.access_secret@,
                encode_utf8(h@.skip(7)),
                now,
                subject_bytes(sub@),
            ) && wf_subject(sub@)
        }),
        !is_prefix_of("/login"@, path@) && (auth_header matches Some(h) && !is_prefix_of(
            "Bearer "@,
            h@,
        )) ==> r is Reject,
        !is_prefix_of("/login"@, path@) ==> (auth_header matches Some(h) ==> ((is_prefix_of(
            "Bearer "@,
            h@,
        ) && (forall|sub: Seq<u8>|
            !access_accepted(cfg.access_secret@, encode_utf8(h@.skip(7)), now, sub))) ==> r
            is Reject)),
        !is_prefix_of("/login"@, path@) ==> (auth_header matches Some(h) ==> ((is_prefix_of(
            "Bearer "@,
            h@,
        ) && (exists|sub: Seq<u8>|
            access_accepted(cfg.access_secret@, encode_utf8(h@.skip(7)), now, sub))) ==> r
            is Allow)),
{
    if str_has_prefix(path, "/login") {
        return GateDecision::PassThrough;
    }
    let header = match auth_header {
        Some(h) => h,
        None => {
            return GateDecision::Reject;
        },
    };
    if !str_has_prefix(header, "Bearer ") {
        return GateDecision::Reject;
    }
    proof {
        reveal_strlit("Bearer ");
    }
    let hlen = header.unicode_len();
    let token = header.substring_char(7, hlen);
    proof {
        assert(token@ =~= header@.skip(7));
    }
    match verify_access(cfg, token, now) {
        Ok(claims) => GateDecision::Allow(claims.sub),
        Err(_) => {
            proof {
                assert forall|sub: Seq<u8>|
                    !access_accepted(
                        cfg.access_secret@,
                        encode_utf8(header@.skip(7)),
                        now,
                        sub,
                    ) by {
                    if access_accepted(cfg.access_secret@, encode_utf8(header@.skip(7)), now, sub) {
                        let exp = choose|exp: u64|
                            access_accepted_with(
                                cfg.access_secret@,
                                encode_utf8(header@.skip(7)),
                                now,
                                sub,
                                exp,
                            );
                        assert(access_accepted_with(
                            cfg.access_secret@,
                            token.spec_bytes(),
                            now,
                            sub,
                            exp,
                        ));
                    }
                }
            }
            GateDecision::Reject
        },
    }
}

} // verus!
