use kairos_server::codec::{issue_at, verify_access, TokenConfig};
use kairos_server::errors::{AuthError, TokenError};
use kairos_server::ACCESS_TOKEN_LIFETIME_SECS;

fn config() -> TokenConfig {
    TokenConfig::new(b"access-signing-secret".to_vec(), b"refresh-signing-secret".to_vec())
        .expect("both secrets present")
}

#[test]
fn config_requires_both_secrets() {
    assert!(matches!(
        TokenConfig::new(Vec::new(), b"r".to_vec()),
        Err(TokenError::ConfigurationError)
    ));
    assert!(matches!(
        TokenConfig::new(b"a".to_vec(), Vec::new()),
        Err(TokenError::ConfigurationError)
    ));
}

#[test]
fn access_token_round_trips() {
    let cfg = config();
    let now = 1_700_000_000u64;
    let pair = issue_at(&cfg, "550e8400-e29b-41d4-a716-446655440000", now).unwrap();
    let claims = verify_access(&cfg, &pair.access_token, now + 10).unwrap();
    assert_eq!(claims.sub, "550e8400-e29b-41d4-a716-446655440000");
    assert_eq!(claims.exp, now + ACCESS_TOKEN_LIFETIME_SECS);
}

#[test]
fn expired_token_is_rejected() {
    let cfg = config();
    let now = 1_700_000_000u64;
    let pair = issue_at(&cfg, "user-1", now).unwrap();
    let at_expiry = now + ACCESS_TOKEN_LIFETIME_SECS;
    assert!(matches!(
        verify_access(&cfg, &pair.access_token, at_expiry),
        Err(AuthError::Unauthenticated)
    ));
    assert!(matches!(
        verify_access(&cfg, &pair.access_token, at_expiry + 5000),
        Err(AuthError::Unauthenticated)
    ));
}

#[test]
fn wrong_secret_is_rejected() {
    let cfg = config();
    let other = TokenConfig::new(b"some-other-secret".to_vec(), b"refresh".to_vec()).unwrap();
    let now = 1_700_000_000u64;
    let pair = issue_at(&other, "user-1", now).unwrap();
    assert!(matches!(
        verify_access(&cfg, &pair.access_token, now + 1),
        Err(AuthError::Unauthenticated)
    ));
}

#[test]
fn refresh_token_is_not_an_access_token() {
    let cfg = config();
    let now = 1_700_000_000u64;
    let pair = issue_at(&cfg, "user-1", now).unwrap();
    assert!(matches!(
        verify_access(&cfg, &pair.refresh_token, now + 1),
        Err(AuthError::Unauthenticated)
    ));
}

#[test]
fn tampered_token_is_rejected() {
    let cfg = config();
    let now = 1_700_000_000u64;
    let pair = issue_at(&cfg, "user-1", now).unwrap();
    let mut tampered = pair.access_token.clone().into_bytes();
    let last = tampered.len() - 1;
    tampered[last] = if tampered[last] == b'A' { b'B' } else { b'A' };
    let tampered = String::from_utf8(tampered).unwrap();
    assert!(matches!(
        verify_access(&cfg, &tampered, now + 1),
        Err(AuthError::Unauthenticated)
    ));
    assert!(matches!(
        verify_access(&cfg, "not-even-a-token", now + 1),
        Err(AuthError::Unauthenticated)
    ));
    assert!(matches!(verify_access(&cfg, "a.b.c.d", now + 1), Err(AuthError::Unauthenticated)));
    assert!(matches!(verify_access(&cfg, "", now + 1), Err(AuthError::Unauthenticated)));
}

#[test]
fn issued_token_is_decoded_by_jsonwebtoken() {
    // Cross-check the whole codec against the signing library's own
    // decoder, expiry validation included.
    let cfg = config();
    let now = chrono::Utc::now().timestamp() as u64;
    let pair = issue_at(&cfg, "cross-check-subject", now).unwrap();
    let mut validation = jsonwebtoken::Validation::new(jsonwebtoken::Algorithm::HS256);
    validation.leeway = 0;
    let decoded = jsonwebtoken::decode::<serde_json::Value>(
        &pair.access_token,
        &jsonwebtoken::DecodingKey::from_secret(b"access-signing-secret"),
        &validation,
    )
    .expect("jsonwebtoken must accept our token");
    assert_eq!(decoded.claims["sub"].as_str(), Some("cross-check-subject"));
    assert_eq!(decoded.claims["exp"].as_u64(), Some(now + ACCESS_TOKEN_LIFETIME_SECS));
    let refreshed = jsonwebtoken::decode::<serde_json::Value>(
        &pair.refresh_token,
        &jsonwebtoken::DecodingKey::from_secret(b"refresh-signing-secret"),
        &validation,
    )
    .expect("jsonwebtoken must accept our refresh token");
    assert_eq!(refreshed.claims["sub"].as_str(), Some("cross-check-subject"));
}

#[test]
fn foreign_claim_order_is_refused() {
    // jsonwebtoken serialises map claims in sorted order ("exp" before
    // "sub"); this codec accepts only its canonical order, so such a
    // token — makeable only by a holder of the secret — is refused.
    let mut claims = serde_json::Map::new();
    claims.insert("sub".to_string(), serde_json::Value::String("user-1".to_string()));
    let exp = chrono::Utc::now().timestamp() as u64 + 3600;
    claims.insert("exp".to_string(), serde_json::Value::from(exp));
    let token = jsonwebtoken::encode(
        &jsonwebtoken::Header::default(),
        &serde_json::Value::Object(claims),
        &jsonwebtoken::EncodingKey::from_secret(b"access-signing-secret"),
    )
    .unwrap();
    let cfg = config();
    let now = chrono::Utc::now().timestamp() as u64;
    assert!(matches!(verify_access(&cfg, &token, now), Err(AuthError::Unauthenticated)));
}

#[test]
fn error_status_codes() {
    assert_eq!(AuthError::Unauthenticated.http_status(), 401);
    assert_eq!(AuthError::Unauthorized.http_status(), 401);
    assert_eq!(AuthError::Conflict.http_status(), 409);
    assert_eq!(AuthError::NotFound.http_status(), 404);
    assert_eq!(AuthError::ServerError.http_status(), 500);
}

#[test]
fn tokens_issued_on_the_wall_clock_verify_now() {
    let cfg = config();
    let pair = kairos_server::codec::create_jwt_tokens(&cfg, "user-1").unwrap();
    let now = chrono::Utc::now().timestamp() as u64;
    let claims = verify_access(&cfg, &pair.access_token, now).unwrap();
    assert_eq!(claims.sub, "user-1");
    assert!(claims.exp > now);
}
