use kairos_server::base64url::{b64u_decode_bytes, b64u_encode_bytes};
use kairos_server::claims::{claims_to_json, parse_claims_json};
use kairos_server::digits::{dec_to_u64, u64_to_dec};

#[test]
fn b64_known_vectors() {
    assert_eq!(b64u_encode_bytes(b""), b"".to_vec());
    assert_eq!(b64u_encode_bytes(b"f"), b"Zg".to_vec());
    assert_eq!(b64u_encode_bytes(b"fo"), b"Zm8".to_vec());
    assert_eq!(b64u_encode_bytes(b"foo"), b"Zm9v".to_vec());
    assert_eq!(b64u_encode_bytes(b"foob"), b"Zm9vYg".to_vec());
    assert_eq!(b64u_encode_bytes(b"fooba"), b"Zm9vYmE".to_vec());
    assert_eq!(b64u_encode_bytes(b"foobar"), b"Zm9vYmFy".to_vec());
}

#[test]
fn b64_url_safe_alphabet() {
    // 0xfb 0xff needs the two URL-safe characters.
    assert_eq!(b64u_encode_bytes(&[0xfb, 0xff]), b"-_8".to_vec());
    assert_eq!(b64u_decode_bytes(b"-_8"), Some(vec![0xfb, 0xff]));
}

#[test]
fn b64_round_trip_all_lengths() {
    for len in 0..32 {
        let data: Vec<u8> = (0..len as u8).map(|b| b.wrapping_mul(37).wrapping_add(11)).collect();
        let enc = b64u_encode_bytes(&data);
        assert_eq!(b64u_decode_bytes(&enc), Some(data));
    }
}

#[test]
fn b64_rejects_bad_input() {
    // Padding is not part of the unpadded form.
    assert_eq!(b64u_decode_bytes(b"Zg=="), None);
    // A single leftover character can never be canonical.
    assert_eq!(b64u_decode_bytes(b"Z"), None);
    // Outside the alphabet.
    assert_eq!(b64u_decode_bytes(b"Z!"), None);
    // Non-zero trailing bits: "Zh" decodes to the same byte as "Zg" in a
    // lax decoder, so a strict one must refuse it.
    assert_eq!(b64u_decode_bytes(b"Zh"), None);
}

#[test]
fn decimal_round_trip() {
    for n in [0u64, 1, 9, 10, 99, 100, 123456789, u64::MAX] {
        let d = u64_to_dec(n);
        assert_eq!(d, n.to_string().into_bytes());
        assert_eq!(dec_to_u64(&d), Some(n));
    }
}

#[test]
fn decimal_rejects_noncanonical() {
    assert_eq!(dec_to_u64(b""), None);
    assert_eq!(dec_to_u64(b"007"), None);
    assert_eq!(dec_to_u64(b"12a"), None);
    assert_eq!(dec_to_u64(b"-1"), None);
    // One past u64::MAX.
    assert_eq!(dec_to_u64(b"18446744073709551616"), None);
    assert_eq!(dec_to_u64(b"18446744073709551615"), Some(u64::MAX));
}

#[test]
fn claims_render_exactly() {
    let body = claims_to_json(b"g-1", 123);
    assert_eq!(body, b"{\"sub\":\"g-1\",\"exp\":123}".to_vec());
}

#[test]
fn claims_parse_round_trip() {
    let body = claims_to_json(b"550e8400-e29b-41d4-a716-446655440000", 1700000000);
    let parsed = parse_claims_json(&body).expect("canonical rendering must parse");
    assert_eq!(parsed.0, b"550e8400-e29b-41d4-a716-446655440000".to_vec());
    assert_eq!(parsed.1, 1700000000);
}

#[test]
fn claims_parse_is_strict() {
    // Reordered keys are not the canonical rendering.
    assert!(parse_claims_json(b"{\"exp\":123,\"sub\":\"g-1\"}").is_none());
    // Whitespace is not canonical either.
    assert!(parse_claims_json(b"{\"sub\": \"g-1\",\"exp\":123}").is_none());
    // A quote cannot hide in a subject.
    assert!(parse_claims_json(b"{\"sub\":\"g\\\"1\",\"exp\":123}").is_none());
    assert!(parse_claims_json(b"{\"sub\":\"g-1\",\"exp\":}").is_none());
    assert!(parse_claims_json(b"{\"sub\":\"g-1\",\"exp\":07}").is_none());
}
