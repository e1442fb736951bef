//! base64url without padding, the byte-to-text encoding used by the three
//! segments of a signed session token. Encoding is canonical; decoding
//! accepts exactly the canonical encodings (unused trailing bits must be
//! zero) and rejects everything else.
use vstd::prelude::*;

verus! {

/// Alphabet byte for a sextet value.
pub open spec fn b64_char(v: int) -> u8 {
    if v < 26 {
        (65 + v) as u8  // 'A'..='Z'
    } else if v < 52 {
        (97 + (v - 26)) as u8  // 'a'..='z'
    } else if v < 62 {
        (48 + (v - 52)) as u8  // '0'..='9'
    } else if v == 62 {
        45u8  // '-'
    } else {
        95u8  // '_'
    }
}

/// Sextet value of an alphabet byte; `None` outside the alphabet.
pub open spec fn b64_val(c: u8) -> Option<u8> {
    if 65 <= c <= 90 {
        Some((c - 65) as u8)
    } else if 97 <= c <= 122 {
        Some((26 + (c - 97)) as u8)
    } else if 48 <= c <= 57 {
        Some((52 + (c - 48)) as u8)
    } else if c == 45 {
        Some(62u8)
    } else if c == 95 {
        Some(63u8)
    } else {
        None
    }
}

pub open spec fn is_b64_byte(c: u8) -> bool {
    b64_val(c) is Some
}

/// Every alphabet byte is ASCII and is neither a dot, a quote, a backslash
/// nor a control byte, so encoded segments never collide with the token's
/// separators or the claim syntax.
pub proof fn lemma_b64_byte_facts(c: u8)
    requires
        is_b64_byte(c),
    ensures
        32 <= c < 127,
        c != 46,
        c != 34,
        c != 92,
{
}

pub open spec fn enc3(b0: u8, b1: u8, b2: u8) -> Seq<u8> {
    seq![
        b64_char((b0 >> 2) as int),
        b64_char((((b0 & 3) << 4) | (b1 >> 4)) as int),
        b64_char((((b1 & 15) << 2) | (b2 >> 6)) as int),
        b64_char((b2 & 63) as int),
    ]
}

pub open spec fn enc2(b0: u8, b1: u8) -> Seq<u8> {
    seq![
        b64_char((b0 >> 2) as int),
        b64_char((((b0 & 3) << 4) | (b1 >> 4)) as int),
        b64_char(((b1 & 15) << 2) as int),
    ]
}

pub open spec fn enc1(b0: u8) -> Seq<u8> {
    seq![b64_char((b0 >> 2) as int), b64_char(((b0 & 3) << 4) as int)]
}

/// Canonical unpadded base64url encoding of a byte sequence.
pub open spec fn b64u_encode(s: Seq<u8>) -> Seq<u8>
    decreases s.len(),
{
    if s.len() >= 3 {
        enc3(s[0], s[1], s[2]) + b64u_encode(s.skip(3))
    } else if s.len() == 2 {
        enc2(s[0], s[1])
    } else if s.len() == 1 {
        enc1(s[0])
    } else {
        Seq::empty()
    }
}

/// Strict decoding: `Some` exactly on canonical encodings.
pub open spec fn b64u_decode(s: Seq<u8>) -> Option<Seq<u8>>
    decreases s.len(),
{
    if s.len() == 0 {
        Some(Seq::empty())
    } else if s.len() == 1 {
        None
    } else if s.len() == 2 {
        match (b64_val(s[0]), b64_val(s[1])) {
            (Some(v0), Some(v1)) => if v1 & 15 == 0 {
                Some(seq![(v0 << 2) | (v1 >> 4)])
            } else {
                None
            },
            _ => None,
        }
    } else if s.len() == 3 {
        match (b64_val(s[0]), b64_val(s[1]), b64_val(s[2])) {
            (Some(v0), Some(v1), Some(v2)) => if v2 & 3 == 0 {
                Some(seq![(v0 << 2) | (v1 >> 4), ((v1 & 15) << 4) | (v2 >> 2)])
            } else {
                None
            },
            _ => None,
        }
    } else {
        match (b64_val(s[0]), b64_val(s[1]), b64_val(s[2]), b64_val(s[3])) {
            (Some(v0), Some(v1), Some(v2), Some(v3)) => match b64u_decode(s.skip(4)) {
                Some(rest) => Some(
                    seq![
                        (v0 << 2) | (v1 >> 4),
                        ((v1 & 15) << 4) | (v2 >> 2),
                        ((v2 & 3) << 6) | v3,
                    ] + rest,
                ),
                None => None,
            },
            _ => None,
        }
    }
}

/// Alphabet byte for a sextet, executable form.
fn b64c(v: u8) -> (r: u8)
    requires
        v < 64,
    ensures
        r == b64_char(v as int),
{
    if v < 26 {
        65 + v
    } else if v < 52 {
        97 + (v - 26)
    } else if v < 62 {
        48 + (v - 52)
    } else if v == 62 {
        45
    } else {
        95
    }
}

/// Sextet for an alphabet byte, executable form.
fn b64v(c: u8) -> (r: Option<u8>)
    ensures
        r == b64_val(c),
{
    if 65 <= c && c <= 90 {
        Some(c - 65)
    } else if 97 <= c && c <= 122 {
        Some(26 + (c - 97))
    } else if 48 <= c && c <= 57 {
        Some(52 + (c - 48))
    } else if c == 45 {
        Some(62)
    } else if c == 95 {
        Some(63)
    } else {
        None
    }
}

pub proof fn lemma_char_val_inverse(v: int)
    requires
        0 <= v < 64,
    ensures
        b64_val(b64_char(v)) == Some(v as u8),
{
}

/// Encode a byte slice.
pub fn b64u_encode_bytes(s: &[u8]) -> (r: Vec<u8>)
    ensures
        r@ == b64u_encode(s@),
{
    let mut r: Vec<u8> = Vec::new();
    let mut i: usize = 0;
    proof {
        assert(s@.skip(0) =~= s@);
        assert(r@ + b64u_encode(s@) =~= b64u_encode(s@));
    }
    while s.len() - i >= 3
        invariant
            0 <= i <= s@.len(),
            b64u_encode(s@) == r@ + b64u_encode(s@.skip(i as int)),
        decreases s@.len() - i,
    {
        let b0 = s[i];
        let b1 = s[i + 1];
        let b2 = s[i + 2];
        let ghost r_old = r@;
        proof {
            assert(b0 >> 2 < 64 && ((b0 & 3) << 4) | (b1 >> 4) < 64 && ((b1 & 15) << 2) | (b2
                >> 6) < 64 && b2 & 63 < 64) by (bit_vector);
        }
        r.push(b64c(b0 >> 2));
        r.push(b64c(((b0 & 3) << 4) | (b1 >> 4)));
        r.push(b64c(((b1 & 15) << 2) | (b2 >> 6)));
        r.push(b64c(b2 & 63));
        proof {
            let t = s@.skip(i as int);
            assert(t[0] == b0 && t[1] == b1 && t[2] == b2);
            assert(t.skip(3) =~= s@.skip(i + 3));
            assert(b64u_encode(t) == enc3(b0, b1, b2) + b64u_encode(s@.skip(i + 3)));
            assert(r@ =~= r_old + enc3(b0, b1, b2));
            assert(r_old + (enc3(b0, b1, b2) + b64u_encode(s@.skip(i + 3))) =~= (r_old + enc3(
                b0,
                b1,
                b2,
            )) + b64u_encode(s@.skip(i + 3)));
        }
        i = i + 3;
    }
    let ghost r_old = r@;
    if s.len() - i == 2 {
        let b0 = s[i];
        let b1 = s[i + 1];
        proof {
            assert(b0 >> 2 < 64 && ((b0 & 3) << 4) | (b1 >> 4) < 64 && (b1 & 15) << 2
                < 64) by (bit_vector);
        }
        r.push(b64c(b0 >> 2));
        r.push(b64c(((b0 & 3) << 4) | (b1 >> 4)));
        r.push(b64c((b1 & 15) << 2));
        proof {
            let t = s@.skip(i as int);
            assert(t.len() == 2 && t[0] == b0 && t[1] == b1);
            assert(b64u_encode(t) == enc2(b0, b1));
            assert(r@ =~= r_old + enc2(b0, b1));
        }
    } else if s.len() - i == 1 {
        let b0 = s[i];
        proof {
            assert(b0 >> 2 < 64 && (b0 & 3) << 4 < 64) by (bit_vector);
        }
        r.push(b64c(b0 >> 2));
        r.push(b64c((b0 & 3) << 4));
        proof {
            let t = s@.skip(i as int);
            assert(t.len() == 1 && t[0] == b0);
            assert(b64u_encode(t) == enc1(b0));
            assert(r@ =~= r_old + enc1(b0));
        }
    } else {
        proof {
            assert(s@.skip(i as int).len() == 0);
            assert(b64u_encode(s@.skip(i as int)) =~= Seq::<u8>::empty());
            assert(r@ + b64u_encode(s@.skip(i as int)) =~= r@);
        }
    }
    r
}

/// Decode a byte slice; `None` on anything but a canonical encoding.
pub fn b64u_decode_bytes(s: &[u8]) -> (r: Option<Vec<u8>>)
    ensures
        match r {
            Some(v) => b64u_decode(s@) == Some(v@),
            None => b64u_decode(s@) is None,
        },
{
    let mut r: Vec<u8> = Vec::new();
    let mut i: usize = 0;
    proof {
        assert(s@.skip(0) =~= s@);
        assert(forall|rest: Seq<u8>| r@ + rest =~= rest);
    }
    while s.len() - i >= 4
        invariant
            0 <= i <= s@.len(),
            (b64u_decode(s@) is Some) == (b64u_decode(s@.skip(i as int)) is Some),
            forall|rest: Seq<u8>|
                b64u_decode(s@.skip(i as int)) == Some(rest) ==> b64u_decode(s@) == Some(
                    r@ + rest,
                ),
        decreases s@.len() - i,
    {
        let ghost t = s@.skip(i as int);
        proof {
            assert(t.len() >= 4);
            assert(t[0] == s@[i as int] && t[1] == s@[i + 1] && t[2] == s@[i + 2] && t[3] == s@[i
                + 3]);
        }
        let v0 = b64v(s[i]);
        let v1 = b64v(s[i + 1]);
        let v2 = b64v(s[i + 2]);
        let v3 = b64v(s[i + 3]);
        let ghost r_old = r@;
        match (v0, v1, v2, v3) {
            (Some(v0), Some(v1), Some(v2), Some(v3)) => {
                proof {
                    assert(v0 < 64 && v1 < 64 && v2 < 64 && v3 < 64) by {
                        assert(forall|c: u8| #[trigger] b64_val(c) matches Some(v) ==> v < 64);
                    }
                    assert((v0 << 2) | (v1 >> 4) < 256 && ((v1 & 15) << 4) | (v2 >> 2) < 256 && (
                    (v2 & 3) << 6) | v3 < 256) by (bit_vector)
                        requires
                            v0 < 64 && v1 < 64 && v2 < 64 && v3 < 64,
                    ;
                }
                r.push((v0 << 2) | (v1 >> 4));
                r.push(((v1 & 15) << 4) | (v2 >> 2));
                r.push(((v2 & 3) << 6) | v3);
                proof {
                    let bytes = seq![
                        (v0 << 2) | (v1 >> 4),
                        ((v1 & 15) << 4) | (v2 >> 2),
                        ((v2 & 3) << 6) | v3,
                    ];
                    assert(t.skip(4) =~= s@.skip(i + 4));
                    assert(b64u_decode(t) == match b64u_decode(t.skip(4)) {
                        Some(rest) => Some(bytes + rest),
                        None => None,
                    });
                    assert(r@ =~= r_old + bytes);
                    assert forall|rest: Seq<u8>|
                        b64u_decode(s@.skip(i + 4)) == Some(rest) implies b64u_decode(s@) == Some(
                        r@ + rest,
                    ) by {
                        assert(b64u_decode(t) == Some(bytes + rest));
                        assert(b64u_decode(s@) == Some(r_old + (bytes + rest)));
                        assert(r_old + (bytes + rest) =~= (r_old + bytes) + rest);
                    }
                }
                i = i + 4;
            },
            _ => {
                return None;
            },
        }
    }
    let rem = s.len() - i;
    let ghost r_old = r@;
    if rem == 0 {
        proof {
            assert(s@.skip(i as int).len() == 0);
            assert(b64u_decode(s@.skip(i as int)) == Some(Seq::<u8>::empty()));
            assert(r@ + Seq::<u8>::empty() =~= r@);
        }
        Some(r)
    } else if rem == 1 {
        None
    } else if rem == 2 {
        let ghost t = s@.skip(i as int);
        proof {
            assert(t.len() == 2 && t[0] == s@[i as int] && t[1] == s@[i + 1]);
        }
        match (b64v(s[i]), b64v(s[i + 1])) {
            (Some(v0), Some(v1)) => {
                if v1 & 15 == 0 {
                    proof {
                        assert(v0 < 64 && v1 < 64) by {
                            assert(forall|c: u8| #[trigger] b64_val(c) matches Some(v) ==> v < 64);
                        }
                        assert((v0 << 2) | (v1 >> 4) < 256) by (bit_vector)
                            requires
                                v0 < 64 && v1 < 64,
                        ;
                    }
                    r.push((v0 << 2) | (v1 >> 4));
                    proof {
                        let bytes = seq![(v0 << 2) | (v1 >> 4)];
                        assert(b64u_decode(t) == Some(bytes));
                        assert(b64u_decode(s@) == Some(r_old + bytes));
                        assert(r@ =~= r_old + bytes);
                    }
                    Some(r)
                } else {
                    None
                }
            },
            _ => None,
        }
    } else {
        let ghost t = s@.skip(i as int);
        proof {
            assert(t.len() == 3 && t[0] == s@[i as int] && t[1] == s@[i + 1] && t[2] == s@[i + 2]);
        }
        match (b64v(s[i]), b64v(s[i + 1]), b64v(s[i + 2])) {
            (Some(v0), Some(v1), Some(v2)) => {
                if v2 & 3 == 0 {
                    proof {
                        assert(v0 < 64 && v1 < 64 && v2 < 64) by {
                            assert(forall|c: u8| #[trigger] b64_val(c) matches Some(v) ==> v < 64);
                        }
                        assert((v0 << 2) | (v1 >> 4) < 256 && ((v1 & 15) << 4) | (v2 >> 2)
                            < 256) by (bit_vector)
                            requires
                                v0 < 64 && v1 < 64 && v2 < 64,
                        ;
                    }
                    r.push((v0 << 2) | (v1 >> 4));
                    r.push(((v1 & 15) << 4) | (v2 >> 2));
                    proof {
                        let bytes = seq![(v0 << 2) | (v1 >> 4), ((v1 & 15) << 4) | (v2 >> 2)];
                        assert(b64u_decode(t) == Some(bytes));
                        assert(b64u_decode(s@) == Some(r_old + bytes));
                        assert(r@ =~= r_old + bytes);
                    }
                    Some(r)
                } else {
                    None
                }
            },
            _ => None,
        }
    }
}

/// Every byte of an encoding is an alphabet byte.
pub proof fn lemma_b64_encode_alphabet(s: Seq<u8>)
    ensures
        forall|i: int| 0 <= i < b64u_encode(s).len() ==> is_b64_byte(#[trigger] b64u_encode(s)[i]),
    decreases s.len(),
{
    assert(forall|v: int| 0 <= v < 64 ==> is_b64_byte(#[trigger] b64_char(v))) by {
        assert forall|v: int| 0 <= v < 64 implies is_b64_byte(#[trigger] b64_char(v)) by {
            lemma_char_val_inverse(v);
        }
    }
    if s.len() >= 3 {
        lemma_b64_encode_alphabet(s.skip(3));
        let b0 = s[0];
        let b1 = s[1];
        let b2 = s[2];
        assert(b0 >> 2 < 64 && ((b0 & 3) << 4) | (b1 >> 4) < 64 && ((b1 & 15) << 2) | (b2 >> 6)
            < 64 && b2 & 63 < 64) by (bit_vector);
        let e = b64u_encode(s);
        let tail = b64u_encode(s.skip(3));
        assert(e == enc3(b0, b1, b2) + tail);
        assert forall|i: int| 0 <= i < e.len() implies is_b64_byte(#[trigger] e[i]) by {
            if i < 4 {
                assert(e[i] == enc3(b0, b1, b2)[i]);
            } else {
                assert(e[i] == tail[i - 4]);
            }
        }
    } else if s.len() == 2 {
        let b0 = s[0];
        let b1 = s[1];
        assert(b0 >> 2 < 64 && ((b0 & 3) << 4) | (b1 >> 4) < 64 && (b1 & 15) << 2
            < 64) by (bit_vector);
        assert(b64u_encode(s) == enc2(b0, b1));
    } else if s.len() == 1 {
        let b0 = s[0];
        assert(b0 >> 2 < 64 && (b0 & 3) << 4 < 64) by (bit_vector);
        assert(b64u_encode(s) == enc1(b0));
    }
}

/// Decoding undoes encoding: the encoding of any byte sequence is canonical
/// and carries exactly that sequence.
pub proof fn lemma_b64_round_trip(s: Seq<u8>)
    ensures
        b64u_decode(b64u_encode(s)) == Some(s),
    decreases s.len(),
{
    if s.len() == 0 {
        assert(b64u_encode(s) =~= Seq::<u8>::empty());
        assert(b64u_decode(b64u_encode(s)) == Some(Seq::<u8>::empty()));
        assert(Seq::<u8>::empty() =~= s);
    } else if s.len() == 1 {
        let b0 = s[0];
        let c0 = b0 >> 2;
        let c1 = (b0 & 3) << 4;
        assert(c0 < 64 && c1 < 64 && c1 & 15 == 0 && ((c0 << 2) | (c1 >> 4)) == b0) by (bit_vector)
            requires
                c0 == b0 >> 2 && c1 == (b0 & 3) << 4,
        ;
        lemma_char_val_inverse(c0 as int);
        lemma_char_val_inverse(c1 as int);
        let e = b64u_encode(s);
        assert(e == enc1(b0));
        assert(e.len() == 2);
        assert(b64_val(e[0]) == Some(c0) && b64_val(e[1]) == Some(c1));
        assert(b64u_decode(e) == Some(seq![(c0 << 2) | (c1 >> 4)]));
        assert(seq![(c0 << 2) | (c1 >> 4)] =~= s);
    } else if s.len() == 2 {
        let b0 = s[0];
        let b1 = s[1];
        let c0 = b0 >> 2;
        let c1 = ((b0 & 3) << 4) | (b1 >> 4);
        let c2 = (b1 & 15) << 2;
        assert(c0 < 64 && c1 < 64 && c2 < 64 && c2 & 3 == 0 && ((c0 << 2) | (c1 >> 4)) == b0 && ((
        (c1 & 15) << 4) | (c2 >> 2)) == b1) by (bit_vector)
            requires
                c0 == b0 >> 2 && c1 == ((b0 & 3) << 4) | (b1 >> 4) && c2 == (b1 & 15) << 2,
        ;
        lemma_char_val_inverse(c0 as int);
        lemma_char_val_inverse(c1 as int);
        lemma_char_val_inverse(c2 as int);
        let e = b64u_encode(s);
        assert(e == enc2(b0, b1));
        assert(e.len() == 3);
        assert(b64_val(e[0]) == Some(c0) && b64_val(e[1]) == Some(c1) && b64_val(e[2]) == Some(c2));
        assert(b64u_decode(e) == Some(seq![(c0 << 2) | (c1 >> 4), ((c1 & 15) << 4) | (c2 >> 2)]));
        assert(seq![(c0 << 2) | (c1 >> 4), ((c1 & 15) << 4) | (c2 >> 2)] =~= s);
    } else {
        lemma_b64_round_trip(s.skip(3));
        let b0 = s[0];
        let b1 = s[1];
        let b2 = s[2];
        let c0 = b0 >> 2;
        let c1 = ((b0 & 3) << 4) | (b1 >> 4);
        let c2 = ((b1 & 15) << 2) | (b2 >> 6);
        let c3 = b2 & 63;
        assert(c0 < 64 && c1 < 64 && c2 < 64 && c3 < 64 && ((c0 << 2) | (c1 >> 4)) == b0 && (((c1
            & 15) << 4) | (c2 >> 2)) == b1 && (((c2 & 3) << 6) | c3) == b2) by (bit_vector)
            requires
                c0 == b0 >> 2 && c1 == ((b0 & 3) << 4) | (b1 >> 4) && c2 == ((b1 & 15) << 2) | (b2
                    >> 6) && c3 == b2 & 63,
        ;
        lemma_char_val_inverse(c0 as int);
        lemma_char_val_inverse(c1 as int);
        lemma_char_val_inverse(c2 as int);
        lemma_char_val_inverse(c3 as int);
        let e = b64u_encode(s);
        let tail = b64u_encode(s.skip(3));
        assert(e == enc3(b0, b1, b2) + tail);
        assert(e.len() >= 4);
        assert(e[0] == b64_char(c0 as int) && e[1] == b64_char(c1 as int) && e[2] == b64_char(
            c2 as int,
        ) && e[3] == b64_char(c3 as int));
        assert(e.skip(4) =~= tail);
        let bytes = seq![(c0 << 2) | (c1 >> 4), ((c1 & 15) << 4) | (c2 >> 2), ((c2 & 3) << 6) | c3];
        assert(b64u_decode(e) == Some(bytes + s.skip(3)));
        assert(bytes + s.skip(3) =~= s);
    }
}

} // verus!
