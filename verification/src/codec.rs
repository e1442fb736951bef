//! The token codec: issues and checks signed session tokens.
//!
//! A token is `base64url(header) "." base64url(claims) "." signature`,
//! where the header is the fixed `{"typ":"JWT","alg":"HS256"}`, the claims
//! are the canonical rendering of [`Claims`], and the signature is the
//! base64url HMAC-SHA256 of everything before the second dot. Assembly,
//! splitting, claim rendering and claim parsing are verified; only the
//! HMAC itself is trusted, under the name [`hs256_sig`].
//!
//! Checking is deliberately strict: the header and claim segments must be
//! canonical, and the expiry must be strictly in the future, with no
//! clock-skew leeway.
use vstd::prelude::*;
use vstd::string::StringSliceAdditionalSpecFns;

use crate::base64url::{
    b64u_decode, b64u_decode_bytes, b64u_encode, b64u_encode_bytes, is_b64_byte,
    lemma_b64_byte_facts, lemma_b64_encode_alphabet, lemma_b64_round_trip,
};
use crate::claims::{
    claims_json, claims_to_json, lemma_claims_json_injective, parse_claims_json, wf_sub,
    wf_sub_byte, Claims,
};
use crate::errors::{AuthError, TokenError};
use crate::{ACCESS_TOKEN_LIFETIME_SECS, REFRESH_TOKEN_LIFETIME_SECS};

verus! {

/// The characters an ASCII byte sequence reads as.
pub open spec fn ascii_str_of(b: Seq<u8>) -> Seq<char> {
    b.map_values(|x: u8| x as char)
}

/// The bytes of a subject string, character by character.
pub open spec fn subject_bytes(s: Seq<char>) -> Seq<u8> {
    s.map_values(|c: char| c as u8)
}

/// Subjects a token may carry: printable ASCII without quote or backslash,
/// so the claim rendering never needs escaping.
pub open spec fn wf_subject(s: Seq<char>) -> bool {
    forall|i: int| 0 <= i < s.len() ==> ' ' <= #[trigger] s[i] <= '~' && s[i] != '"' && s[i] != '\\'
}

/// `{"typ":"JWT","alg":"HS256"}`, the one header this codec signs.
pub open spec fn header_json() -> Seq<u8> {
    seq![
        123u8, 34u8, 116u8, 121u8, 112u8, 34u8, 58u8, 34u8, 74u8, 87u8, 84u8, 34u8, 44u8, 34u8,
        97u8, 108u8, 103u8, 34u8, 58u8, 34u8, 72u8, 83u8, 50u8, 53u8, 54u8, 34u8, 125u8,
    ]
}

/// The first token segment.
pub open spec fn spec_header_b64() -> Seq<u8> {
    b64u_encode(header_json())
}

/// What is signed: header segment, dot, claim segment.
pub open spec fn jwt_message(sub: Seq<u8>, exp: u64) -> Seq<u8> {
    spec_header_b64() + seq![46u8] + b64u_encode(claims_json(sub, exp))
}

/// A whole token for a given secret, subject and expiry.
pub open spec fn jwt_token(secret: Seq<u8>, sub: Seq<u8>, exp: u64) -> Seq<u8> {
    jwt_message(sub, exp) + seq![46u8] + hs256_sig(secret, jwt_message(sub, exp))
}

pub open spec fn no_dot(s: Seq<u8>) -> bool {
    forall|i: int| 0 <= i < s.len() ==> #[trigger] s[i] != 46
}

pub open spec fn all_b64(s: Seq<u8>) -> bool {
    forall|i: int| 0 <= i < s.len() ==> is_b64_byte(#[trigger] s[i])
}

/// One way of reading a byte sequence as an acceptable token: a canonical
/// header segment, a claim segment that decodes to the canonical rendering
/// of `(sub, exp)`, the right signature over the first two segments, and an
/// expiry strictly after `now`.
pub open spec fn accepted_parts(
    secret: Seq<u8>,
    t: Seq<u8>,
    now: u64,
    sub: Seq<u8>,
    exp: u64,
    payload: Seq<u8>,
    sig: Seq<u8>,
) -> bool {
    &&& t == spec_header_b64() + seq![46u8] + payload + seq![46u8] + sig
    &&& no_dot(payload)
    &&& no_dot(sig)
    &&& b64u_decode(payload) == Some(claims_json(sub, exp))
    &&& wf_sub(sub)
    &&& sig == hs256_sig(secret, spec_header_b64() + seq![46u8] + payload)
    &&& now < exp
}

/// `t` is accepted at time `now` as asserting `sub` until `exp`.
pub open spec fn access_accepted_with(
    secret: Seq<u8>,
    t: Seq<u8>,
    now: u64,
    sub: Seq<u8>,
    exp: u64,
) -> bool {
    exists|payload: Seq<u8>, sig: Seq<u8>|
        accepted_parts(secret, t, now, sub, exp, payload, sig)
}

/// `t` is accepted at time `now` as asserting `sub`.
pub open spec fn access_accepted(secret: Seq<u8>, t: Seq<u8>, now: u64, sub: Seq<u8>) -> bool {
    exists|exp: u64| access_accepted_with(secret, t, now, sub, exp)
}

/// The base64url HMAC-SHA256 signature over `message` under `secret`, as
/// `jsonwebtoken` computes it. Its value is fixed by its arguments alone;
/// nothing else is assumed of it.
pub uninterp spec fn hs256_sig(secret: Seq<u8>, message: Seq<u8>) -> Seq<u8>;

#[verifier::external_type_specification]
#[verifier::external_body]
pub struct ExJwtError(jsonwebtoken::errors::Error);

/// Relies on `jsonwebtoken::crypto::sign` with `Algorithm::HS256`: the
/// signature is a function of the key bytes and the message alone, and is
/// returned base64url-encoded, so every byte of it is an alphabet byte.
/// For the HMAC algorithms the source returns `Ok` unconditionally, so the
/// call always succeeds.
#[verifier::external_body]
fn hs256_sign(secret: &[u8], message: &[u8]) -> (r: Result<Vec<u8>, jsonwebtoken::errors::Error>)
    ensures
        r is Ok,
        r matches Ok(s) ==> s@ == hs256_sig(secret@, message@) && forall|i: int|
            0 <= i < s@.len() ==> is_b64_byte(#[trigger] s@[i]),
{
    match jsonwebtoken::crypto::sign(
        message,
        &jsonwebtoken::EncodingKey::from_secret(secret),
        jsonwebtoken::Algorithm::HS256,
    ) {
        Ok(s) => Ok(s.into_bytes()),
        Err(e) => Err(e),
    }
}

/// Relies on `jsonwebtoken::crypto::verify` with `Algorithm::HS256`: for
/// HMAC algorithms it re-signs the message and compares the given signature
/// byte for byte with the base64url rendering, so it returns exactly
/// whether `sig` is that rendering. A signature that is not valid UTF-8
/// cannot equal the ASCII rendering and is answered with `false`.
#[verifier::external_body]
fn hs256_check(secret: &[u8], message: &[u8], sig: &[u8]) -> (r: bool)
    ensures
        r == (sig@ == hs256_sig(secret@, message@)),
{
    match std::str::from_utf8(sig) {
        Ok(sig_str) => jsonwebtoken::crypto::verify(
            sig_str,
            message,
            &jsonwebtoken::DecodingKey::from_secret(secret),
            jsonwebtoken::Algorithm::HS256,
        ).unwrap_or(false),
        Err(_) => false,
    }
}

/// Relies on `String::from_utf8`: ASCII bytes decode to exactly one
/// character per byte, the same values read as characters.
#[verifier::external_body]
fn ascii_to_string(b: Vec<u8>) -> (r: String)
    requires
        forall|i: int| 0 <= i < b@.len() ==> #[trigger] b@[i] < 128,
    ensures
        r@ == ascii_str_of(b@),
        subject_bytes(r@) == b@,
{
    String::from_utf8(b).unwrap_or_default()
}

/// The two signing secrets, checked for presence at construction.
pub struct TokenConfig {
    pub access_secret: Vec<u8>,
    pub refresh_secret: Vec<u8>,
}

impl TokenConfig {
    /// Fails fast when either signing secret is absent.
    pub fn new(access_secret: Vec<u8>, refresh_secret: Vec<u8>) -> (r: Result<
        TokenConfig,
        TokenError,
    >)
        ensures
            match r {
                Ok(c) => access_secret@.len() > 0 && refresh_secret@.len() > 0 && c.access_secret@
                    == access_secret@ && c.refresh_secret@ == refresh_secret@,
                Err(e) => e == TokenError::ConfigurationError && (access_secret@.len() == 0
                    || refresh_secret@.len() == 0),
            },
    {
        if access_secret.len() == 0 || refresh_secret.len() == 0 {
            Err(TokenError::ConfigurationError)
        } else {
            Ok(TokenConfig { access_secret, refresh_secret })
        }
    }
}

/// A freshly issued token pair; `expiry` is when the refresh token lapses.
pub struct TokenResponse {
    pub access_token: String,
    pub refresh_token: String,
    pub expiry: u64,
}

/// The fixed header bytes.
fn header_json_bytes() -> (r: Vec<u8>)
    ensures
        r@ == header_json(),
{
    let mut r: Vec<u8> = Vec::new();
    r.push(123);
    r.push(34);
    r.push(116);
    r.push(121);
    r.push(112);
    r.push(34);
    r.push(58);
    r.push(34);
    r.push(74);
    r.push(87);
    r.push(84);
    r.push(34);
    r.push(44);
    r.push(34);
    r.push(97);
    r.push(108);
    r.push(103);
    r.push(34);
    r.push(58);
    r.push(34);
    r.push(72);
    r.push(83);
    r.push(50);
    r.push(53);
    r.push(54);
    r.push(34);
    r.push(125);
    assert(r@ =~= header_json());
    r
}

fn bytes_eq(a: &[u8], b: &[u8]) -> (r: bool)
    ensures
        r == (a@ == b@),
{
    if a.len() != b.len() {
        return false;
    }
    let mut i: usize = 0;
    while i < a.len()
        invariant
            0 <= i <= a@.len(),
            a@.len() == b@.len(),
            forall|k: int| 0 <= k < i ==> a@[k] == b@[k],
        decreases a@.len() - i,
    {
        if a[i] != b[i] {
            return false;
        }
        i = i + 1;
    }
    proof {
        assert(a@ =~= b@);
    }
    true
}

/// Sign one claim set under one secret and render the whole token.
fn assemble_token(secret: &[u8], sub: &[u8], exp: u64) -> (r: Result<String, TokenError>)
    requires
        wf_sub(sub@),
    ensures
        r is Ok,
        r matches Ok(t) ==> t@ == ascii_str_of(jwt_token(secret@, sub@, exp)) && subject_bytes(t@)
            == jwt_token(secret@, sub@, exp) && all_b64(hs256_sig(secret@, jwt_message(sub@, exp))),
{
    let hb = header_json_bytes();
    let mut msg = b64u_encode_bytes(hb.as_slice());
    msg.push(46);
    let cj = claims_to_json(sub, exp);
    let mut payload = b64u_encode_bytes(cj.as_slice());
    proof {
        lemma_b64_encode_alphabet(header_json());
        lemma_b64_encode_alphabet(claims_json(sub@, exp));
    }
    let ghost payload_snap = payload@;
    msg.append(&mut payload);
    proof {
        assert(msg@ =~= spec_header_b64() + seq![46u8] + payload_snap);
    }
    match hs256_sign(secret, msg.as_slice()) {
        Ok(mut sig) => {
            let ghost msg_snap = msg@;
            let ghost sig_snap = sig@;
            let mut tok = msg;
            tok.push(46);
            tok.append(&mut sig);
            proof {
                assert(tok@ =~= msg_snap + seq![46u8] + sig_snap);
                assert(msg_snap == jwt_message(sub@, exp));
                assert(tok@ == jwt_token(secret@, sub@, exp));
                assert forall|i: int| 0 <= i < tok@.len() implies #[trigger] tok@[i] < 128 by {
                    if i < spec_header_b64().len() {
                        lemma_b64_byte_facts(spec_header_b64()[i]);
                    } else if i == spec_header_b64().len() {
                    } else if i < msg_snap.len() {
                        lemma_b64_byte_facts(payload_snap[i - spec_header_b64().len() - 1]);
                    } else if i == msg_snap.len() {
                    } else {
                        lemma_b64_byte_facts(sig_snap[i - msg_snap.len() - 1]);
                    }
                }
            }
            Ok(ascii_to_string(tok))
        },
        Err(_) => Err(TokenError::EncodingError),
    }
}

/// Issue a token pair for a subject at a given time: an access token good
/// for [`ACCESS_TOKEN_LIFETIME_SECS`] and a refresh token good for
/// [`REFRESH_TOKEN_LIFETIME_SECS`], each signed under its own secret.
pub fn issue_at(cfg: &TokenConfig, user_id: &str, now: u64) -> (r: Result<
    TokenResponse,
    TokenError,
>)
    requires
        wf_subject(user_id@),
        now + REFRESH_TOKEN_LIFETIME_SECS <= u64::MAX,
    ensures
        r matches Ok(t) ==> {
            &&& t.access_token@ == ascii_str_of(
                jwt_token(
                    cfg.access_secret@,
                    subject_bytes(user_id@),
                    (now + ACCESS_TOKEN_LIFETIME_SECS) as u64,
                ),
            )
            &&& subject_bytes(t.access_token@) == jwt_token(
                cfg.access_secret@,
                subject_bytes(user_id@),
                (now + ACCESS_TOKEN_LIFETIME_SECS) as u64,
            )
            &&& t.refresh_token@ == ascii_str_of(
                jwt_token(
                    cfg.refresh_secret@,
                    subject_bytes(user_id@),
                    (now + REFRESH_TOKEN_LIFETIME_SECS) as u64,
                ),
            )
            &&& subject_bytes(t.refresh_token@) == jwt_token(
                cfg.refresh_secret@,
                subject_bytes(user_id@),
                (now + REFRESH_TOKEN_LIFETIME_SECS) as u64,
            )
            &&& t.expiry == now + REFRESH_TOKEN_LIFETIME_SECS
            &&& forall|n2: u64|
                n2 < now + ACCESS_TOKEN_LIFETIME_SECS ==> #[trigger] access_accepted_with(
                    cfg.access_secret@,
                    subject_bytes(t.access_token@),
                    n2,
                    subject_bytes(user_id@),
                    (now + ACCESS_TOKEN_LIFETIME_SECS) as u64,
                )
        },
        r is Ok,
{
    let sub_vec = sub_bytes_of(user_id);
    let exp_a = now + ACCESS_TOKEN_LIFETIME_SECS;
    let exp_r = now + REFRESH_TOKEN_LIFETIME_SECS;
    let access_token = match assemble_token(cfg.access_secret.as_slice(), sub_vec.as_slice(), exp_a) {
        Ok(t) => t,
        Err(e) => {
            return Err(e);
        },
    };
    let refresh_token = match assemble_token(
        cfg.refresh_secret.as_slice(),
        sub_vec.as_slice(),
        exp_r,
    ) {
        Ok(t) => t,
        Err(e) => {
            return Err(e);
        },
    };
    proof {
        let sub = subject_bytes(user_id@);
        let payload = b64u_encode(claims_json(sub, exp_a));
        let sig = hs256_sig(cfg.access_secret@, jwt_message(sub, exp_a));
        assert forall|n2: u64| n2 < now + ACCESS_TOKEN_LIFETIME_SECS implies access_accepted_with(
            cfg.access_secret@,
            subject_bytes(access_token@),
            n2,
            sub,
            exp_a,
        ) by {
            lemma_b64_encode_alphabet(claims_json(sub, exp_a));
            lemma_b64_round_trip(claims_json(sub, exp_a));
            assert forall|i: int| 0 <= i < payload.len() implies #[trigger] payload[i] != 46 by {
                lemma_b64_byte_facts(payload[i]);
            }
            assert forall|i: int| 0 <= i < sig.len() implies #[trigger] sig[i] != 46 by {
                lemma_b64_byte_facts(sig[i]);
            }
            let t = jwt_token(cfg.access_secret@, sub, exp_a);
            assert(t =~= spec_header_b64() + seq![46u8] + payload + seq![46u8] + sig);
            assert(accepted_parts(cfg.access_secret@, t, n2, sub, exp_a, payload, sig));
        }
    }
    Ok(TokenResponse { access_token, refresh_token, expiry: exp_r })
}

/// In any reading of `t` as dot-free segments around two dots, with the
/// fixed header first, the two dots are exactly the first two dot bytes of
/// `t`, so the segments are the subranges between them.
proof fn lemma_parts_positions(
    secret: Seq<u8>,
    t: Seq<u8>,
    now: u64,
    sub: Seq<u8>,
    exp: u64,
    payload: Seq<u8>,
    sig: Seq<u8>,
    d1: int,
    d2: int,
)
    requires
        accepted_parts(secret, t, now, sub, exp, payload, sig),
        0 <= d1 < t.len(),
        t[d1] == 46,
        forall|k: int| 0 <= k < d1 ==> t[k] != 46,
        d1 < d2 < t.len(),
        t[d2] == 46,
        forall|k: int| d1 < k < d2 ==> t[k] != 46,
    ensures
        d1 == spec_header_b64().len(),
        d2 == d1 + 1 + payload.len(),
        t.subrange(0, d1) == spec_header_b64(),
        payload == t.subrange(d1 + 1, d2),
        sig == t.subrange(d2 + 1, t.len() as int),
{
    let h = spec_header_b64();
    assert(no_dot(h)) by {
        lemma_b64_encode_alphabet(header_json());
        assert forall|i: int| 0 <= i < h.len() implies #[trigger] h[i] != 46 by {
            lemma_b64_byte_facts(h[i]);
        }
    }
    assert(t.len() == h.len() + 1 + payload.len() + 1 + sig.len());
    assert(t[h.len() as int] == 46);
    if d1 < h.len() {
        assert(t[d1] == h[d1]);
        assert(false);
    }
    if d1 > h.len() {
        assert(false);
    }
    let q = h.len() + 1 + payload.len();
    assert(t[q as int] == 46);
    if d2 < q {
        assert(t[d2] == payload[d2 - d1 - 1]);
        assert(false);
    }
    if d2 > q {
        assert(t[q as int] != 46);
        assert(false);
    }
    assert(t.subrange(0, d1) =~= h);
    assert(payload =~= t.subrange(d1 + 1, d2));
    assert(sig =~= t.subrange(d2 + 1, t.len() as int));
}

/// Around the fixed header, dot-free segments decompose a token only one
/// way.
proof fn lemma_parts_determined(
    t: Seq<u8>,
    p1: Seq<u8>,
    s1: Seq<u8>,
    p2: Seq<u8>,
    s2: Seq<u8>,
)
    requires
        t == spec_header_b64() + seq![46u8] + p1 + seq![46u8] + s1,
        t == spec_header_b64() + seq![46u8] + p2 + seq![46u8] + s2,
        no_dot(p1),
        no_dot(s1),
        no_dot(p2),
        no_dot(s2),
    ensures
        p1 == p2,
        s1 == s2,
{
    let h = spec_header_b64();
    if p1.len() < p2.len() {
        let q = h.len() as int + 1 + p1.len() as int;
        assert(t[q] == 46);
        assert(t[q] == p2[p1.len() as int]);
        assert(false);
    }
    if p2.len() < p1.len() {
        let q = h.len() as int + 1 + p2.len() as int;
        assert(t[q] == 46);
        assert(t[q] == p1[p2.len() as int]);
        assert(false);
    }
    assert forall|i: int| 0 <= i < p1.len() implies p1[i] == p2[i] by {
        assert(t[h.len() as int + 1 + i] == p1[i]);
        assert(t[h.len() as int + 1 + i] == p2[i]);
    }
    assert(p1 =~= p2);
    assert(t.len() == h.len() + 1 + p1.len() + 1 + s1.len());
    assert(t.len() == h.len() + 1 + p2.len() + 1 + s2.len());
    assert(s1.len() == s2.len());
    assert forall|i: int| 0 <= i < s1.len() implies s1[i] == s2[i] by {
        assert(t[h.len() as int + 2 + p1.len() as int + i] == s1[i]);
        assert(t[h.len() as int + 2 + p1.len() as int + i] == s2[i]);
    }
    assert(s1 =~= s2);
}

/// A token is accepted as at most one claim set: acceptance pins the
/// subject and the expiry.
pub proof fn lemma_accepted_unique(
    secret: Seq<u8>,
    t: Seq<u8>,
    now: u64,
    sub1: Seq<u8>,
    exp1: u64,
    sub2: Seq<u8>,
    exp2: u64,
)
    requires
        access_accepted_with(secret, t, now, sub1, exp1),
        access_accepted_with(secret, t, now, sub2, exp2),
    ensures
        sub1 == sub2,
        exp1 == exp2,
{
    let (p1, s1) = choose|p: Seq<u8>, s: Seq<u8>| accepted_parts(secret, t, now, sub1, exp1, p, s);
    let (p2, s2) = choose|p: Seq<u8>, s: Seq<u8>| accepted_parts(secret, t, now, sub2, exp2, p, s);
    lemma_parts_determined(t, p1, s1, p2, s2);
    lemma_claims_json_injective(sub1, exp1, sub2, exp2);
}

/// Round trip: a token assembled for a subject and expiry is accepted at
/// any earlier time, as exactly that subject and expiry and no other.
pub proof fn lemma_issue_verify_round_trip(
    secret: Seq<u8>,
    sub: Seq<u8>,
    exp: u64,
    now: u64,
    sub2: Seq<u8>,
    exp2: u64,
)
    requires
        wf_sub(sub),
        now < exp,
        all_b64(hs256_sig(secret, jwt_message(sub, exp))),
    ensures
        access_accepted_with(secret, jwt_token(secret, sub, exp), now, sub, exp),
        access_accepted_with(secret, jwt_token(secret, sub, exp), now, sub2, exp2) ==> sub2 == sub
            && exp2 == exp,
{
    let payload = b64u_encode(claims_json(sub, exp));
    let sig = hs256_sig(secret, jwt_message(sub, exp));
    let t = jwt_token(secret, sub, exp);
    lemma_b64_encode_alphabet(claims_json(sub, exp));
    lemma_b64_round_trip(claims_json(sub, exp));
    assert forall|i: int| 0 <= i < payload.len() implies #[trigger] payload[i] != 46 by {
        lemma_b64_byte_facts(payload[i]);
    }
    assert forall|i: int| 0 <= i < sig.len() implies #[trigger] sig[i] != 46 by {
        lemma_b64_byte_facts(sig[i]);
    }
    assert(t =~= spec_header_b64() + seq![46u8] + payload + seq![46u8] + sig);
    assert(accepted_parts(secret, t, now, sub, exp, payload, sig));
    if access_accepted_with(secret, t, now, sub2, exp2) {
        lemma_accepted_unique(secret, t, now, sub, exp, sub2, exp2);
    }
}

/// A token whose expiry is not in the future is rejected, whatever
/// subject a checker might try to read out of it.
pub proof fn lemma_expired_token_rejected(
    secret: Seq<u8>,
    sub: Seq<u8>,
    exp: u64,
    now: u64,
    sub2: Seq<u8>,
    exp2: u64,
)
    requires
        wf_sub(sub),
        exp <= now,
        all_b64(hs256_sig(secret, jwt_message(sub, exp))),
    ensures
        !access_accepted_with(secret, jwt_token(secret, sub, exp), now, sub2, exp2),
{
    let payload = b64u_encode(claims_json(sub, exp));
    let sig = hs256_sig(secret, jwt_message(sub, exp));
    let t = jwt_token(secret, sub, exp);
    if access_accepted_with(secret, t, now, sub2, exp2) {
        let (p2, s2) = choose|p: Seq<u8>, s: Seq<u8>|
            accepted_parts(secret, t, now, sub2, exp2, p, s);
        lemma_b64_encode_alphabet(claims_json(sub, exp));
        lemma_b64_round_trip(claims_json(sub, exp));
        assert forall|i: int| 0 <= i < payload.len() implies #[trigger] payload[i] != 46 by {
            lemma_b64_byte_facts(payload[i]);
        }
        assert forall|i: int| 0 <= i < sig.len() implies #[trigger] sig[i] != 46 by {
            lemma_b64_byte_facts(sig[i]);
        }
        assert(t =~= spec_header_b64() + seq![46u8] + payload + seq![46u8] + sig);
        lemma_parts_determined(t, payload, sig, p2, s2);
        lemma_claims_json_injective(sub, exp, sub2, exp2);
        assert(false);
    }
}

/// Check an access token against the access secret at a given time.
/// Accepted exactly when some claim set makes [`accepted_parts`] true of
/// the token bytes; everything else is `Unauthenticated`.
#[verifier::rlimit(100)]
pub fn verify_access(cfg: &TokenConfig, token: &str, now: u64) -> (r: Result<Claims, AuthError>)
    ensures
        r matches Ok(c) ==> access_accepted_with(
            cfg.access_secret@,
            token.spec_bytes(),
            now,
            subject_bytes(c.sub@),
            c.exp,
        ) && wf_subject(c.sub@),
        r matches Err(e) ==> e == AuthError::Unauthenticated && forall|sub: Seq<u8>, exp: u64|
            !access_accepted_with(cfg.access_secret@, token.spec_bytes(), now, sub, exp),
{
    let tv = token.as_bytes_vec();
    let ghost t = token.spec_bytes();
    let n = tv.len();
    // First dot.
    let mut d1: usize = 0;
    while d1 < n && tv[d1] != 46
        invariant
            0 <= d1 <= n,
            n == t.len(),
            tv@ == t,
            forall|k: int| 0 <= k < d1 ==> t[k] != 46,
        decreases n - d1,
    {
        d1 = d1 + 1;
    }
    if d1 == n {
        proof {
            assert forall|sub: Seq<u8>, exp: u64|
                !access_accepted_with(cfg.access_secret@, t, now, sub, exp) by {
                if access_accepted_with(cfg.access_secret@, t, now, sub, exp) {
                    let (payload, sig) = choose|payload: Seq<u8>, sig: Seq<u8>|
                        accepted_parts(cfg.access_secret@, t, now, sub, exp, payload, sig);
                    assert(t[spec_header_b64().len() as int] == 46);
                }
            }
        }
        return Err(AuthError::Unauthenticated);
    }
    // Second dot.
    let mut d2: usize = d1 + 1;
    while d2 < n && tv[d2] != 46
        invariant
            d1 < d2 <= n,
            n == t.len(),
            tv@ == t,
            forall|k: int| d1 < k < d2 ==> t[k] != 46,
        decreases n - d2,
    {
        d2 = d2 + 1;
    }
    if d2 == n {
        proof {
            assert forall|sub: Seq<u8>, exp: u64|
                !access_accepted_with(cfg.access_secret@, t, now, sub, exp) by {
                if access_accepted_with(cfg.access_secret@, t, now, sub, exp) {
                    let (payload, sig) = choose|payload: Seq<u8>, sig: Seq<u8>|
                        accepted_parts(cfg.access_secret@, t, now, sub, exp, payload, sig);
                    let h = spec_header_b64();
                    assert(no_dot(h)) by {
                        lemma_b64_encode_alphabet(header_json());
                        assert forall|i: int| 0 <= i < h.len() implies #[trigger] h[i] != 46 by {
                            lemma_b64_byte_facts(h[i]);
                        }
                    }
                    if d1 < h.len() {
                        assert(t[d1 as int] == h[d1 as int]);
                    } else if d1 > h.len() {
                        assert(t[h.len() as int] == 46);
                    }
                    assert(d1 == h.len());
                    assert(t[h.len() as int + 1 + payload.len() as int] == 46);
                }
            }
        }
        return Err(AuthError::Unauthenticated);
    }
    // No third dot.
    let mut k3: usize = d2 + 1;
    while k3 < n && tv[k3] != 46
        invariant
            d2 < k3 <= n,
            n == t.len(),
            tv@ == t,
            forall|k: int| d2 < k < k3 ==> t[k] != 46,
        decreases n - k3,
    {
        k3 = k3 + 1;
    }
    if k3 < n {
        proof {
            assert forall|sub: Seq<u8>, exp: u64|
                !access_accepted_with(cfg.access_secret@, t, now, sub, exp) by {
                if access_accepted_with(cfg.access_secret@, t, now, sub, exp) {
                    let (payload, sig) = choose|payload: Seq<u8>, sig: Seq<u8>|
                        accepted_parts(cfg.access_secret@, t, now, sub, exp, payload, sig);
                    lemma_parts_positions(
                        cfg.access_secret@,
                        t,
                        now,
                        sub,
                        exp,
                        payload,
                        sig,
                        d1 as int,
                        d2 as int,
                    );
                    assert(t[k3 as int] == sig[k3 - d2 - 1]);
                }
            }
        }
        return Err(AuthError::Unauthenticated);
    }
    let hb = header_json_bytes();
    let hb64 = b64u_encode_bytes(hb.as_slice());
    let header_seg = vstd::slice::slice_subrange(tv.as_slice(), 0, d1);
    if !bytes_eq(header_seg, hb64.as_slice()) {
        proof {
            assert forall|sub: Seq<u8>, exp: u64|
                !access_accepted_with(cfg.access_secret@, t, now, sub, exp) by {
                if access_accepted_with(cfg.access_secret@, t, now, sub, exp) {
                    let (payload, sig) = choose|payload: Seq<u8>, sig: Seq<u8>|
                        accepted_parts(cfg.access_secret@, t, now, sub, exp, payload, sig);
                    lemma_parts_positions(
                        cfg.access_secret@,
                        t,
                        now,
                        sub,
                        exp,
                        payload,
                        sig,
                        d1 as int,
                        d2 as int,
                    );
                }
            }
        }
        return Err(AuthError::Unauthenticated);
    }
    let payload_seg = vstd::slice::slice_subrange(tv.as_slice(), d1 + 1, d2);
    let decoded = b64u_decode_bytes(payload_seg);
    let cb = match decoded {
        Some(cb) => cb,
        None => {
            proof {
                assert forall|sub: Seq<u8>, exp: u64|
                    !access_accepted_with(cfg.access_secret@, t, now, sub, exp) by {
                    if access_accepted_with(cfg.access_secret@, t, now, sub, exp) {
                        let (payload, sig) = choose|payload: Seq<u8>, sig: Seq<u8>|
                            accepted_parts(cfg.access_secret@, t, now, sub, exp, payload, sig);
                        lemma_parts_positions(
                            cfg.access_secret@,
                            t,
                            now,
                            sub,
                            exp,
                            payload,
                            sig,
                            d1 as int,
                            d2 as int,
                        );
                    }
                }
            }
            return Err(AuthError::Unauthenticated);
        },
    };
    let parsed = parse_claims_json(cb.as_slice());
    let (sub_vec, exp) = match parsed {
        Some(p) => p,
        None => {
            proof {
                assert forall|sub: Seq<u8>, exp: u64|
                    !access_accepted_with(cfg.access_secret@, t, now, sub, exp) by {
                    if access_accepted_with(cfg.access_secret@, t, now, sub, exp) {
                        let (payload, sig) = choose|payload: Seq<u8>, sig: Seq<u8>|
                            accepted_parts(cfg.access_secret@, t, now, sub, exp, payload, sig);
                        lemma_parts_positions(
                            cfg.access_secret@,
                            t,
                            now,
                            sub,
                            exp,
                            payload,
                            sig,
                            d1 as int,
                            d2 as int,
                        );
                        assert(cb@ == claims_json(sub, exp));
                    }
                }
            }
            return Err(AuthError::Unauthenticated);
        },
    };
    let message = vstd::slice::slice_subrange(tv.as_slice(), 0, d2);
    let sig_seg = vstd::slice::slice_subrange(tv.as_slice(), d2 + 1, n);
    let sig_ok = hs256_check(cfg.access_secret.as_slice(), message, sig_seg);
    if !sig_ok || exp <= now {
        proof {
            assert forall|sub: Seq<u8>, exp2: u64|
                !access_accepted_with(cfg.access_secret@, t, now, sub, exp2) by {
                if access_accepted_with(cfg.access_secret@, t, now, sub, exp2) {
                    let (payload, sig) = choose|payload: Seq<u8>, sig: Seq<u8>|
                        accepted_parts(cfg.access_secret@, t, now, sub, exp2, payload, sig);
                    lemma_parts_positions(
                        cfg.access_secret@,
                        t,
                        now,
                        sub,
                        exp2,
                        payload,
                        sig,
                        d1 as int,
                        d2 as int,
                    );
                    assert(cb@ == claims_json(sub, exp2));
                    lemma_claims_json_injective(sub, exp2, sub_vec@, exp);
                    assert(message@ =~= spec_header_b64() + seq![46u8] + payload);
                }
            }
        }
        return Err(AuthError::Unauthenticated);
    }
    proof {
        assert(t =~= header_seg@ + seq![46u8] + payload_seg@ + seq![46u8] + sig_seg@);
        assert(message@ =~= spec_header_b64() + seq![46u8] + payload_seg@);
        assert(accepted_parts(
            cfg.access_secret@,
            t,
            now,
            sub_vec@,
            exp,
            payload_seg@,
            sig_seg@,
        ));
    }
    let sub = ascii_to_string(sub_vec);
    proof {
        assert(wf_subject(sub@)) by {
            assert(forall|i: int|
                0 <= i < sub@.len() ==> #[trigger] sub@[i] == subject_bytes(sub@)[i] as char);
        }
    }
    Ok(Claims { sub, exp })
}

/// Issue a token pair for a subject at the current time, per the wall
/// clock. A clock before the epoch or too near the end of the 64-bit range
/// is treated as an internal failure.
pub fn create_jwt_tokens(cfg: &TokenConfig, user_id: &str) -> (r: Result<
    TokenResponse,
    TokenError,
>)
    requires
        wf_subject(user_id@),
    ensures
        r matches Ok(t) ==> exists|now: u64|
            {
                &&& now + REFRESH_TOKEN_LIFETIME_SECS <= u64::MAX
                &&& t.expiry == now + REFRESH_TOKEN_LIFETIME_SECS
                &&& subject_bytes(t.access_token@) == #[trigger] jwt_token(
                    cfg.access_secret@,
                    subject_bytes(user_id@),
                    (now + ACCESS_TOKEN_LIFETIME_SECS) as u64,
                )
                &&& subject_bytes(t.refresh_token@) == jwt_token(
                    cfg.refresh_secret@,
                    subject_bytes(user_id@),
                    (now + REFRESH_TOKEN_LIFETIME_SECS) as u64,
                )
            },
        r matches Err(e) ==> e == TokenError::EncodingError,
{
    let ts = crate::sys::current_unix_time();
    if ts < 0 {
        return Err(TokenError::EncodingError);
    }
    let now = ts as u64;
    if now > u64::MAX - REFRESH_TOKEN_LIFETIME_SECS {
        return Err(TokenError::EncodingError);
    }
    issue_at(cfg, user_id, now)
}

/// The bytes of a well-formed subject string.
fn sub_bytes_of(user_id: &str) -> (r: Vec<u8>)
    requires
        wf_subject(user_id@),
    ensures
        r@ == subject_bytes(user_id@),
        wf_sub(r@),
{
    broadcast use vstd::string::group_string_axioms;

    let r = user_id.as_bytes_vec();
    proof {
        assert(vstd::string::is_ascii(user_id)) by {
            assert(forall|i: int|
                0 <= i < user_id@.len() ==> '\0' <= #[trigger] user_id@[i] <= '\u{7f}');
        }
        assert(r@ =~= subject_bytes(user_id@));
        assert forall|i: int| 0 <= i < r@.len() implies wf_sub_byte(#[trigger] r@[i]) by {
            assert(r@[i] == user_id@[i] as u8);
        }
    }
    r
}

} // verus!
