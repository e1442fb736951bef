use kairos_server::codec::TokenConfig;
use kairos_server::errors::AuthError;
use kairos_server::gate::{jwt_gate, GateDecision};
use kairos_server::identity::{extract_identity, ProviderClaims};
use kairos_server::login::login_user;
use kairos_server::misc::total_focus_time;
use kairos_server::refresh::bcrypt_verify;
use kairos_server::store::Store;
use kairos_server::user::{OauthProvider, OauthUser, UserPlan};

fn config() -> TokenConfig {
    TokenConfig::new(b"access-signing-secret".to_vec(), b"refresh-signing-secret".to_vec())
        .unwrap()
}

fn identity() -> OauthUser {
    OauthUser {
        sub: "g-1".to_string(),
        name: "A".to_string(),
        email: "a@x.com".to_string(),
        picture: "http://example.invalid/a.png".to_string(),
    }
}

const NOW: u64 = 1_700_000_000;

#[test]
fn first_login_provisions_account_and_workspace() {
    let mut store = Store::new();
    let cfg = config();
    let resp = login_user(
        &mut store,
        OauthProvider::Google,
        &identity(),
        &cfg,
        "user-id-1".to_string(),
        "project-id-1".to_string(),
        "token-id-1".to_string(),
        NOW,
    )
    .expect("first login succeeds");
    assert_eq!(resp.user.user_id, "user-id-1");
    assert_eq!(resp.user.email, "a@x.com");
    assert_eq!(resp.user.name, "A");
    assert!(matches!(resp.user.oauth_provider, Some(OauthProvider::Google)));
    assert!(matches!(resp.user.u_type, UserPlan::Free));
    assert_eq!(store.users.len(), 1);
    assert_eq!(store.projects.len(), 1);
    assert_eq!(store.projects[0].project_name, "Unset");
    assert_eq!(store.projects[0].colour, "grey");
    assert!(store.projects[0].deadline.is_none());
    assert!(store.projects[0].priority.is_none());
    assert_eq!(store.refresh_tokens.len(), 1);
    assert_eq!(store.refresh_tokens[0].user_id, "user-id-1");
    assert_eq!(store.refresh_tokens[0].token_id, "token-id-1");
}

#[test]
fn second_login_reuses_the_account() {
    let mut store = Store::new();
    let cfg = config();
    let first = login_user(
        &mut store,
        OauthProvider::Google,
        &identity(),
        &cfg,
        "user-id-1".to_string(),
        "project-id-1".to_string(),
        "token-id-1".to_string(),
        NOW,
    )
    .unwrap();
    // A replay arrives with different fresh identifiers, as a real second
    // request would.
    let second = login_user(
        &mut store,
        OauthProvider::Google,
        &identity(),
        &cfg,
        "user-id-2".to_string(),
        "project-id-2".to_string(),
        "token-id-2".to_string(),
        NOW + 5,
    )
    .unwrap();
    assert_eq!(second.user.user_id, first.user.user_id);
    assert_eq!(store.users.len(), 1);
    assert_eq!(store.projects.len(), 1);
    assert_eq!(store.refresh_tokens.len(), 2);
}

#[test]
fn racing_first_logins_share_one_account() {
    // The loser of a concurrent first-login race sees the winner's row
    // already inserted; its insert hits the uniqueness violation and it
    // recovers by reading the row back.
    let mut store = Store::new();
    let cfg = config();
    let winner = login_user(
        &mut store,
        OauthProvider::Google,
        &identity(),
        &cfg,
        "winner-id".to_string(),
        "winner-project".to_string(),
        "winner-token".to_string(),
        NOW,
    )
    .unwrap();
    let loser = login_user(
        &mut store,
        OauthProvider::Google,
        &identity(),
        &cfg,
        "loser-id".to_string(),
        "loser-project".to_string(),
        "loser-token".to_string(),
        NOW,
    )
    .unwrap();
    assert_eq!(loser.user.user_id, winner.user.user_id);
    assert_eq!(store.users.len(), 1);
}

#[test]
fn github_provider_is_refused_without_side_effects() {
    let mut store = Store::new();
    let cfg = config();
    let r = login_user(
        &mut store,
        OauthProvider::Github,
        &identity(),
        &cfg,
        "user-id-1".to_string(),
        "project-id-1".to_string(),
        "token-id-1".to_string(),
        NOW,
    );
    assert!(matches!(r, Err(AuthError::Unauthorized)));
    assert_eq!(AuthError::Unauthorized.http_status(), 401);
    assert_eq!(store.users.len(), 0);
    assert_eq!(store.projects.len(), 0);
    assert_eq!(store.refresh_tokens.len(), 0);
}

#[test]
fn refresh_hash_matches_only_the_issued_token() {
    let mut store = Store::new();
    let cfg = config();
    let resp = login_user(
        &mut store,
        OauthProvider::Google,
        &identity(),
        &cfg,
        "user-id-1".to_string(),
        "project-id-1".to_string(),
        "token-id-1".to_string(),
        NOW,
    )
    .unwrap();
    let record = &store.refresh_tokens[0];
    assert_ne!(record.token_hash, resp.refresh_token);
    assert_eq!(bcrypt_verify(&resp.refresh_token, &record.token_hash).unwrap(), true);
    assert_eq!(bcrypt_verify("some other token", &record.token_hash).unwrap(), false);
}

#[test]
fn gate_passes_login_and_rejects_everything_unauthenticated() {
    let cfg = config();
    let mut handler_invocations = 0u32;
    // The login path needs no token.
    assert!(matches!(
        jwt_gate(&cfg, "/login/google", None, NOW),
        GateDecision::PassThrough
    ));
    // Missing header, non-bearer scheme, garbage token, wrong secret.
    let other = TokenConfig::new(b"other".to_vec(), b"other-r".to_vec()).unwrap();
    let foreign = kairos_server::codec::issue_at(&other, "user-1", NOW).unwrap();
    let foreign_header = format!("Bearer {}", foreign.access_token);
    let cases: Vec<Option<&str>> = vec![
        None,
        Some("Token abc"),
        Some("bearer lowercase-scheme"),
        Some("Bearer not-a-token"),
        Some(&foreign_header),
    ];
    for header in cases {
        match jwt_gate(&cfg, "/get_projects/u1", header, NOW) {
            GateDecision::Allow(_) => {
                handler_invocations += 1;
            },
            GateDecision::PassThrough => {
                handler_invocations += 1;
            },
            GateDecision::Reject => {},
        }
    }
    assert_eq!(handler_invocations, 0);
}

#[test]
fn gate_allows_a_fresh_token_and_recovers_the_subject() {
    let cfg = config();
    let pair = kairos_server::codec::issue_at(&cfg, "user-77", NOW).unwrap();
    let header = format!("Bearer {}", pair.access_token);
    match jwt_gate(&cfg, "/get_projects/u1", Some(&header), NOW + 30) {
        GateDecision::Allow(sub) => assert_eq!(sub, "user-77"),
        _ => panic!("a fresh token must be allowed through"),
    }
}

#[test]
fn identity_extraction_requires_every_field() {
    let full = ProviderClaims {
        sub: Some("g-1".to_string()),
        email: Some("a@x.com".to_string()),
        name: Some("A".to_string()),
        picture: Some("http://example.invalid/a.png".to_string()),
        aud: Some("client-id".to_string()),
    };
    let u = extract_identity(full).unwrap();
    assert_eq!(u.sub, "g-1");
    assert_eq!(u.email, "a@x.com");
    assert_eq!(u.name, "A");
    assert_eq!(u.picture, "http://example.invalid/a.png");
    let missing_email = ProviderClaims {
        sub: Some("g-1".to_string()),
        email: None,
        name: Some("A".to_string()),
        picture: Some("p".to_string()),
        aud: Some("client-id".to_string()),
    };
    assert!(matches!(extract_identity(missing_email), Err(AuthError::Unauthorized)));
    let missing_aud = ProviderClaims {
        sub: Some("g-1".to_string()),
        email: Some("a@x.com".to_string()),
        name: Some("A".to_string()),
        picture: Some("p".to_string()),
        aud: None,
    };
    assert!(matches!(extract_identity(missing_aud), Err(AuthError::Unauthorized)));
}

#[test]
fn focus_time_sums_durations() {
    assert_eq!(total_focus_time(&vec![]), 0);
    assert_eq!(total_focus_time(&vec![25, 50, 5]), 80);
    assert_eq!(total_focus_time(&vec![i32::MAX, i32::MAX]), 2 * (i32::MAX as i64));
    assert_eq!(total_focus_time(&vec![-10, 4]), -6);
}

#[test]
fn login_with_generated_identifiers() {
    let mut store = Store::new();
    let cfg = config();
    let resp = kairos_server::login::login(&mut store, OauthProvider::Google, &identity(), &cfg)
        .expect("login with fresh identifiers succeeds");
    // The generated account identifier is a hyphenated 36-character id.
    assert_eq!(resp.user.user_id.len(), 36);
    assert_eq!(store.users.len(), 1);
    assert_eq!(store.projects.len(), 1);
    let replay = kairos_server::login::login(&mut store, OauthProvider::Google, &identity(), &cfg)
        .expect("replay succeeds");
    assert_eq!(replay.user.user_id, resp.user.user_id);
    assert_eq!(store.users.len(), 1);
}

#[test]
fn account_persists_when_workspace_insert_fails() {
    // A workspace-identifier collision after the account insert is a
    // server error, and no rollback removes the account: the retried
    // login takes the reuse path.
    let mut store = Store::new();
    let cfg = config();
    store.projects.push(kairos_server::project::Project::new(
        "someone-else".to_string(),
        "project-id-1".to_string(),
        "Unset".to_string(),
        "grey".to_string(),
        None,
        None,
    ));
    let r = login_user(
        &mut store,
        OauthProvider::Google,
        &identity(),
        &cfg,
        "user-id-1".to_string(),
        "project-id-1".to_string(),
        "token-id-1".to_string(),
        NOW,
    );
    assert!(matches!(r, Err(AuthError::ServerError)));
    assert_eq!(store.users.len(), 1);
    assert_eq!(store.users[0].email, "a@x.com");
    assert_eq!(store.projects.len(), 1);
    assert_eq!(store.refresh_tokens.len(), 0);
    let retry = login_user(
        &mut store,
        OauthProvider::Google,
        &identity(),
        &cfg,
        "user-id-2".to_string(),
        "project-id-2".to_string(),
        "token-id-2".to_string(),
        NOW + 1,
    )
    .expect("retry takes the reuse path");
    assert_eq!(retry.user.user_id, "user-id-1");
    assert_eq!(store.users.len(), 1);
}
