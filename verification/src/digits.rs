//! Decimal rendering and parsing of unsigned 64-bit integers, used for the
//! `exp` field of the token claims. Rendering is canonical (no leading
//! zeroes); parsing accepts exactly the canonical renderings of values that
//! fit in a `u64`.
use vstd::prelude::*;

verus! {

/// Canonical decimal digits of `n`, most significant first, as ASCII bytes.
pub open spec fn u64_digits(n: nat) -> Seq<u8>
    decreases n,
{
    if n < 10 {
        seq![(48 + n) as u8]
    } else {
        u64_digits(n / 10).push((48 + n % 10) as u8)
    }
}

/// Numeric value of a sequence of ASCII digit bytes, most significant first.
pub open spec fn dec_val(d: Seq<u8>) -> nat
    decreases d.len(),
{
    if d.len() == 0 {
        0
    } else {
        (dec_val(d.drop_last()) * 10 + (d.last() - 48)) as nat
    }
}

pub open spec fn is_digit(b: u8) -> bool {
    48 <= b <= 57
}

/// The sequences that `u64_digits` can produce for some value that fits in a
/// `u64`: non-empty, all digits, no leading zero, value within range.
pub open spec fn is_canonical_dec(d: Seq<u8>) -> bool {
    &&& d.len() >= 1
    &&& forall|i: int| 0 <= i < d.len() ==> is_digit(#[trigger] d[i])
    &&& (d.len() > 1 ==> d[0] != 48)
    &&& dec_val(d) <= u64::MAX
}

pub proof fn lemma_u64_digits_canonical(n: nat)
    requires
        n <= u64::MAX,
    ensures
        is_canonical_dec(u64_digits(n)),
        dec_val(u64_digits(n)) == n,
    decreases n,
{
    if n < 10 {
        let s = seq![(48 + n) as u8];
        assert(u64_digits(n) == s);
        assert(s.last() == (48 + n) as u8);
        assert(s.drop_last() =~= Seq::<u8>::empty());
        assert(dec_val(Seq::<u8>::empty()) == 0);
        assert(dec_val(s) == (dec_val(s.drop_last()) * 10 + (s.last() - 48)) as nat);
        assert(dec_val(s) == n);
    } else {
        lemma_u64_digits_canonical(n / 10);
        let d = u64_digits(n / 10);
        let whole = d.push((48 + n % 10) as u8);
        assert(whole == u64_digits(n));
        assert(whole.drop_last() =~= d);
        assert(whole.last() == (48 + n % 10) as u8);
        assert(dec_val(whole) == dec_val(d) * 10 + n % 10);
        assert(dec_val(d) * 10 + n % 10 == n) by (nonlinear_arith)
            requires
                dec_val(d) == n / 10,
                n >= 10,
        ;
        if n / 10 < 10 {
            assert(d =~= seq![(48 + n / 10) as u8]);
            assert(d[0] != 48);
        } else {
            assert(d.len() > 1) by {
                assert(u64_digits(n / 10) == u64_digits(n / 10 / 10).push(
                    (48 + (n / 10) % 10) as u8,
                ));
            }
            assert(d[0] != 48);
        }
        assert(whole[0] == d[0]);
        assert(forall|i: int|
            0 <= i < whole.len() ==> is_digit(#[trigger] whole[i])) by {
            assert(forall|i: int| 0 <= i < d.len() ==> is_digit(#[trigger] d[i]));
            assert(is_digit(whole.last()));
        }
    }
}

/// A digit appended to the front digits only grows the value.
pub proof fn lemma_dec_val_prefix_le(d: Seq<u8>, i: int)
    requires
        0 <= i <= d.len(),
        forall|j: int| 0 <= j < d.len() ==> is_digit(#[trigger] d[j]),
    ensures
        dec_val(d.take(i)) <= dec_val(d),
    decreases d.len() - i,
{
    if i < d.len() {
        lemma_dec_val_prefix_le(d, i + 1);
        let p = d.take(i);
        let q = d.take(i + 1);
        assert(q.drop_last() =~= p);
        assert(dec_val(q) == dec_val(p) * 10 + (d[i] - 48));
    } else {
        assert(d.take(i) =~= d);
    }
}

/// A digit sequence that does not start with a zero has a positive value,
/// and at least 10 if it is longer than one digit.
pub proof fn lemma_dec_val_pos(d: Seq<u8>)
    requires
        d.len() >= 1,
        forall|i: int| 0 <= i < d.len() ==> is_digit(#[trigger] d[i]),
        d[0] != 48,
    ensures
        dec_val(d) >= 1,
        d.len() > 1 ==> dec_val(d) >= 10,
    decreases d.len(),
{
    if d.len() == 1 {
        assert(d.drop_last() =~= Seq::<u8>::empty());
        assert(dec_val(d) == d[0] - 48);
    } else {
        let p = d.drop_last();
        assert(p[0] == d[0]);
        assert(forall|i: int| 0 <= i < p.len() ==> is_digit(#[trigger] p[i]));
        lemma_dec_val_pos(p);
    }
}

/// Canonical renderings are unique: a canonical digit sequence is the
/// rendering of its own value.
pub proof fn lemma_canonical_unique(d: Seq<u8>)
    requires
        is_canonical_dec(d),
    ensures
        u64_digits(dec_val(d)) == d,
    decreases d.len(),
{
    if d.len() == 1 {
        assert(d.drop_last() =~= Seq::<u8>::empty());
        assert(dec_val(d) == d[0] - 48);
        assert(u64_digits(dec_val(d)) =~= seq![(48 + (d[0] - 48)) as u8]);
        assert(u64_digits(dec_val(d)) =~= d);
    } else {
        let p = d.drop_last();
        let x = d.last() - 48;
        assert(p[0] == d[0]);
        assert(forall|i: int| 0 <= i < p.len() ==> is_digit(#[trigger] p[i]));
        lemma_dec_val_pos(p);
        lemma_dec_val_prefix_le(d, d.len() - 1);
        assert(d.take(d.len() - 1) =~= p);
        assert(is_canonical_dec(p));
        lemma_canonical_unique(p);
        let n = dec_val(d);
        assert(n == dec_val(p) * 10 + x);
        assert(n / 10 == dec_val(p) && n % 10 == x) by (nonlinear_arith)
            requires
                n == dec_val(p) * 10 + x,
                0 <= x < 10,
                dec_val(p) >= 0,
        ;
        assert(n >= 10);
        assert(u64_digits(n) == u64_digits(n / 10).push((48 + n % 10) as u8));
        assert(u64_digits(n) =~= d);
    }
}

/// Render `n` in decimal.
pub fn u64_to_dec(n: u64) -> (r: Vec<u8>)
    ensures
        r@ == u64_digits(n as nat),
    decreases n,
{
    if n < 10 {
        let mut v: Vec<u8> = Vec::new();
        v.push(48 + n as u8);
        assert(v@ =~= u64_digits(n as nat));
        v
    } else {
        let mut v = u64_to_dec(n / 10);
        v.push(48 + (n % 10) as u8);
        v
    }
}

/// Parse a canonical decimal rendering; `None` on anything else.
pub fn dec_to_u64(d: &[u8]) -> (r: Option<u64>)
    ensures
        match r {
            Some(n) => is_canonical_dec(d@) && dec_val(d@) == n as nat,
            None => !is_canonical_dec(d@),
        },
{
    if d.len() == 0 {
        return None;
    }
    if d.len() > 1 && d[0] == 48 {
        return None;
    }
    let ghost whole = d@;
    let mut acc: u64 = 0;
    let mut i: usize = 0;
    while i < d.len()
        invariant
            0 <= i <= whole.len(),
            whole.len() >= 1,
            whole == d@,
            whole.len() > 1 ==> whole[0] != 48,
            forall|j: int| 0 <= j < i ==> is_digit(#[trigger] whole[j]),
            acc as nat == dec_val(whole.take(i as int)),
        decreases whole.len() - i,
    {
        let b = d[i];
        if b < 48 || b > 57 {
            return None;
        }
        let digit = (b - 48) as u64;
        proof {
            assert(whole.take(i + 1).drop_last() =~= whole.take(i as int));
            assert(dec_val(whole.take(i + 1)) == acc as nat * 10 + digit as nat);
        }
        if acc > (u64::MAX - digit) / 10 {
            // The value would exceed `u64::MAX`; by prefix monotonicity so
            // does the whole sequence, if it is made of digits at all.
            proof {
                assert(acc as nat * 10 + digit as nat > u64::MAX) by (nonlinear_arith)
                    requires
                        acc > (u64::MAX - digit) / 10,
                        digit <= 9,
                ;
                if forall|j: int| 0 <= j < whole.len() ==> is_digit(#[trigger] whole[j]) {
                    lemma_dec_val_prefix_le(whole, i + 1);
                }
            }
            return None;
        }
        assert(acc * 10 + digit <= u64::MAX) by (nonlinear_arith)
            requires
                acc <= (u64::MAX - digit) / 10,
                digit <= 9,
        ;
        acc = acc * 10 + digit;
        i = i + 1;
    }
    proof {
        assert(whole.take(i as int) =~= whole);
    }
    Some(acc)
}

} // verus!
