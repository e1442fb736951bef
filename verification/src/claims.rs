//! The claim set carried by a session token, and its canonical JSON form:
//! `{"sub":"<subject>","exp":<seconds>}`. The subject is restricted to
//! printable ASCII without quotes or backslashes, so no escaping is ever
//! needed; parsing accepts exactly the canonical renderings.
use vstd::prelude::*;

use crate::digits::{
    dec_to_u64, dec_val, is_canonical_dec, lemma_canonical_unique, lemma_u64_digits_canonical,
    u64_digits, u64_to_dec,
};

verus! {

/// What a session token asserts: a subject (an account identifier) and an
/// expiry as seconds since the Unix epoch.
pub struct Claims {
    pub sub: String,
    pub exp: u64,
}

/// Bytes allowed in a subject: printable ASCII, no quote, no backslash.
pub open spec fn wf_sub_byte(b: u8) -> bool {
    32 <= b < 127 && b != 34 && b != 92
}

pub open spec fn wf_sub(s: Seq<u8>) -> bool {
    forall|i: int| 0 <= i < s.len() ==> wf_sub_byte(#[trigger] s[i])
}

/// `{"sub":"`
pub open spec fn claims_prefix() -> Seq<u8> {
    seq![123u8, 34u8, 115u8, 117u8, 98u8, 34u8, 58u8, 34u8]
}

/// `","exp":`
pub open spec fn claims_mid() -> Seq<u8> {
    seq![34u8, 44u8, 34u8, 101u8, 120u8, 112u8, 34u8, 58u8]
}

/// The canonical JSON rendering of a claim set.
pub open spec fn claims_json(sub: Seq<u8>, exp: u64) -> Seq<u8> {
    claims_prefix() + sub + claims_mid() + u64_digits(exp as nat) + seq![125u8]
}

/// Where each region of the rendering sits.
pub proof fn lemma_claims_json_shape(sub: Seq<u8>, exp: u64, s: Seq<u8>)
    requires
        s == claims_json(sub, exp),
    ensures
        s.len() == 17 + sub.len() + u64_digits(exp as nat).len(),
        forall|i: int| 0 <= i < 8 ==> s[i] == claims_prefix()[i],
        forall|i: int| 8 <= i < 8 + sub.len() as int ==> s[i] == sub[i - 8],
        forall|k: int| 0 <= k < 8 ==> s[8 + sub.len() as int + k] == claims_mid()[k],
        forall|k: int|
            0 <= k < u64_digits(exp as nat).len() ==> s[16 + sub.len() as int + k] == u64_digits(
                exp as nat,
            )[k],
        s[s.len() - 1] == 125,
        is_canonical_dec(u64_digits(exp as nat)),
        dec_val(u64_digits(exp as nat)) == exp,
{
    lemma_u64_digits_canonical(exp as nat);
    assert(u64_digits(exp as nat).len() >= 1);
}

/// Renderings agree on the subject first: equal renderings carry equal
/// subjects.
#[verifier::spinoff_prover]
#[verifier::rlimit(100)]
proof fn lemma_claims_json_same_sub(a: Seq<u8>, x: u64, b: Seq<u8>, y: u64)
    requires
        wf_sub(a),
        wf_sub(b),
        claims_json(a, x) == claims_json(b, y),
    ensures
        a == b,
{
    let s = claims_json(a, x);
    lemma_claims_json_shape(a, x, s);
    lemma_claims_json_shape(b, y, s);
    if a.len() < b.len() {
        assert(s[8 + a.len() as int] == claims_mid()[0]);
        assert(s[8 + a.len() as int] == b[a.len() as int]);
        assert(false);
    }
    if b.len() < a.len() {
        assert(s[8 + b.len() as int] == claims_mid()[0]);
        assert(s[8 + b.len() as int] == a[b.len() as int]);
        assert(false);
    }
    assert(a.len() == b.len());
    assert forall|i: int| 0 <= i < a.len() implies a[i] == b[i] by {
        assert(s[8 + i] == a[i]);
        assert(s[8 + i] == b[i]);
    }
    assert(a =~= b);
}

/// Two claim sets with the same rendering are the same claim set.
#[verifier::spinoff_prover]
#[verifier::rlimit(100)]
pub proof fn lemma_claims_json_injective(a: Seq<u8>, x: u64, b: Seq<u8>, y: u64)
    requires
        wf_sub(a),
        wf_sub(b),
        claims_json(a, x) == claims_json(b, y),
    ensures
        a == b,
        x == y,
{
    lemma_claims_json_same_sub(a, x, b, y);
    let s = claims_json(a, x);
    lemma_claims_json_shape(a, x, s);
    lemma_claims_json_shape(b, y, s);
    let da = u64_digits(x as nat);
    let db = u64_digits(y as nat);
    assert(da.len() == db.len());
    assert forall|k: int| 0 <= k < da.len() implies da[k] == db[k] by {
        assert(da[k] == s[16 + a.len() as int + k]);
        assert(db[k] == s[16 + a.len() as int + k]);
    }
    assert(da =~= db);
    assert(dec_val(da) == x && dec_val(db) == y);
}

/// Render a claim set.
pub fn claims_to_json(sub: &[u8], exp: u64) -> (r: Vec<u8>)
    ensures
        r@ == claims_json(sub@, exp),
{
    let mut r: Vec<u8> = Vec::new();
    r.push(123);
    r.push(34);
    r.push(115);
    r.push(117);
    r.push(98);
    r.push(34);
    r.push(58);
    r.push(34);
    assert(r@ =~= claims_prefix());
    let mut subv = vstd::slice::slice_to_vec(sub);
    r.append(&mut subv);
    assert(r@ =~= claims_prefix() + sub@);
    r.push(34);
    r.push(44);
    r.push(34);
    r.push(101);
    r.push(120);
    r.push(112);
    r.push(34);
    r.push(58);
    assert(r@ =~= claims_prefix() + sub@ + claims_mid());
    let mut dg = u64_to_dec(exp);
    r.append(&mut dg);
    r.push(125);
    assert(r@ =~= claims_json(sub@, exp));
    r
}

/// Parse a canonical rendering; `None` on any other byte sequence.
pub fn parse_claims_json(s: &[u8]) -> (r: Option<(Vec<u8>, u64)>)
    ensures
        match r {
            Some(p) => s@ == claims_json(p.0@, p.1) && wf_sub(p.0@),
            None => forall|sub: Seq<u8>, exp: u64|
                !(wf_sub(sub) && s@ == claims_json(sub, exp)),
        },
{
    if s.len() < 18 {
        proof {
            assert forall|sub: Seq<u8>, exp: u64|
                !(wf_sub(sub) && s@ == claims_json(sub, exp)) by {
                if wf_sub(sub) && s@ == claims_json(sub, exp) {
                    lemma_claims_json_shape(sub, exp, s@);
                }
            }
        }
        return None;
    }
    if s[0] != 123 || s[1] != 34 || s[2] != 115 || s[3] != 117 || s[4] != 98 || s[5] != 34 || s[6]
        != 58 || s[7] != 34 {
        proof {
            assert forall|sub: Seq<u8>, exp: u64|
                !(wf_sub(sub) && s@ == claims_json(sub, exp)) by {
                if wf_sub(sub) && s@ == claims_json(sub, exp) {
                    lemma_claims_json_shape(sub, exp, s@);
                    assert(s@[0] == 123 && s@[1] == 34 && s@[2] == 115 && s@[3] == 117 && s@[4]
                        == 98 && s@[5] == 34 && s@[6] == 58 && s@[7] == 34);
                }
            }
        }
        return None;
    }
    let mut subv: Vec<u8> = Vec::new();
    let mut j: usize = 8;
    proof {
        assert(subv@ =~= s@.subrange(8, 8));
    }
    while j < s.len() && s[j] != 34
        invariant
            8 <= j <= s@.len(),
            subv@ =~= s@.subrange(8, j as int),
            forall|k: int| 8 <= k < j ==> s@[k] != 34 && wf_sub_byte(#[trigger] s@[k]),
        decreases s@.len() - j,
    {
        let b = s[j];
        if b < 32 || b >= 127 || b == 92 {
            proof {
                assert forall|sub: Seq<u8>, exp: u64|
                    !(wf_sub(sub) && s@ == claims_json(sub, exp)) by {
                    if wf_sub(sub) && s@ == claims_json(sub, exp) {
                        lemma_claims_json_shape(sub, exp, s@);
                        // The mid region starts with a quote; everything
                        // before it in the subject region is well formed.
                        if j - 8 < sub.len() {
                            assert(s@[j as int] == sub[j - 8]);
                        } else {
                            let q = 8 + sub.len() as int;
                            assert(s@[q] == claims_mid()[0]);
                            assert(q < j ==> s@[q] != 34);
                            assert(j == q);
                        }
                    }
                }
            }
            return None;
        }
        subv.push(b);
        proof {
            assert(subv@ =~= s@.subrange(8, j + 1));
        }
        j = j + 1;
    }
    if j == s.len() {
        proof {
            assert forall|sub: Seq<u8>, exp: u64|
                !(wf_sub(sub) && s@ == claims_json(sub, exp)) by {
                if wf_sub(sub) && s@ == claims_json(sub, exp) {
                    lemma_claims_json_shape(sub, exp, s@);
                    assert(s@[8 + sub.len() as int] == claims_mid()[0]);
                }
            }
        }
        return None;
    }
    // s[j] == 34: the first quote at or after position 8.
    if s.len() - j < 10 {
        // Too short for `","exp":`, at least one digit and `}`.
        proof {
            assert forall|sub: Seq<u8>, exp: u64|
                !(wf_sub(sub) && s@ == claims_json(sub, exp)) by {
                if wf_sub(sub) && s@ == claims_json(sub, exp) {
                    lemma_claims_json_shape(sub, exp, s@);
                    assert(s@[8 + sub.len() as int] == claims_mid()[0]);
                    assert(j == 8 + sub.len() as int);
                    assert(u64_digits(exp as nat).len() >= 1);
                }
            }
        }
        return None;
    }
    if s[j + 1] != 44 || s[j + 2] != 34 || s[j + 3] != 101 || s[j + 4] != 120 || s[j + 5] != 112
        || s[j + 6] != 34 || s[j + 7] != 58 || s[s.len() - 1] != 125 {
        proof {
            assert forall|sub: Seq<u8>, exp: u64|
                !(wf_sub(sub) && s@ == claims_json(sub, exp)) by {
                if wf_sub(sub) && s@ == claims_json(sub, exp) {
                    lemma_claims_json_shape(sub, exp, s@);
                    assert(s@[8 + sub.len() as int] == claims_mid()[0]);
                    assert(j == 8 + sub.len() as int);
                    assert(forall|k: int|
                        0 <= k < 8 ==> s@[j + k] == claims_mid()[k]);
                }
            }
        }
        return None;
    }
    let d = vstd::slice::slice_subrange(s, j + 8, s.len() - 1);
    let parsed = dec_to_u64(d);
    match parsed {
        Some(exp) => {
            proof {
                lemma_canonical_unique(d@);
                assert(s@ =~= claims_json(subv@, exp)) by {
                    assert(u64_digits(dec_val(d@)) == d@);
                    assert(subv@ == s@.subrange(8, j as int));
                    assert(d@ == s@.subrange(j + 8, s@.len() - 1));
                    assert(claims_json(subv@, exp).len() == 17 + (j - 8) + d@.len());
                }
                assert(wf_sub(subv@));
            }
            Some((subv, exp))
        },
        None => {
            proof {
                assert forall|sub: Seq<u8>, exp: u64|
                    !(wf_sub(sub) && s@ == claims_json(sub, exp)) by {
                    if wf_sub(sub) && s@ == claims_json(sub, exp) {
                        lemma_claims_json_shape(sub, exp, s@);
                        assert(s@[8 + sub.len() as int] == claims_mid()[0]);
                        assert(j == 8 + sub.len() as int);
                        let dg = u64_digits(exp as nat);
                        assert(s@.len() == 17 + sub.len() + dg.len());
                        assert(forall|k: int| 0 <= k < dg.len() ==> s@[16 + sub.len() as int + k] == dg[k]);
                        assert(d@ =~= dg);
                        assert(is_canonical_dec(d@));
                    }
                }
            }
            None
        },
    }
}

} // verus!
