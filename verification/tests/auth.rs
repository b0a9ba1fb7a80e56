//! Credentials and tokens: registration uniqueness, login, and token
//! expiry around the seven-day boundary.

use enquete_core::accounts::{login, me, register, verify_password_closed};
use enquete_core::auth::{create_jwt, hash_password, issue_token_at, verify_jwt, verify_token_at};
use enquete_core::errors::AppError;
use enquete_core::requests::{UserLogin, UserRegistration};
use enquete_core::store::Store;

const SECRET: &str = "test-signing-secret";
const NOW: i64 = 1_700_000_000;

fn registration(name: &str, email: &str, password: &str) -> UserRegistration {
    UserRegistration {
        username: name.to_string(),
        email: email.to_string(),
        password: password.to_string(),
        first_name: Some("Ada".to_string()),
        last_name: None,
    }
}

#[test]
fn register_twice_same_username_fails() {
    let mut store = Store::new();
    let first = register(&mut store, registration("ada", "ada@example.com", "pw1"), NOW, SECRET);
    assert!(first.is_ok());
    let dup = register(&mut store, registration("ada", "other@example.com", "pw2"), NOW, SECRET);
    match dup {
        Err(AppError::BadRequest(_)) => {}
        _ => panic!("duplicate username must be rejected with BadRequest"),
    }
    let dup_email = register(&mut store, registration("grace", "ada@example.com", "pw3"), NOW, SECRET);
    match dup_email {
        Err(AppError::BadRequest(_)) => {}
        _ => panic!("duplicate email must be rejected with BadRequest"),
    }
}

#[test]
fn register_fresh_pair_yields_decodable_token() {
    let mut store = Store::new();
    let ok = register(&mut store, registration("ada", "ada@example.com", "pw1"), NOW, SECRET)
        .unwrap();
    assert_eq!(ok.user.id, 1);
    assert_eq!(ok.user.username, "ada");
    // The issued token decodes back to the created identity.
    let claims = verify_token_at(ok.token.as_str(), SECRET, (NOW as u64) + 60).unwrap();
    assert_eq!(claims.sub, ok.user.id);
    assert_eq!(claims.username, "ada");
    assert_eq!(claims.iat, NOW as u64);
    assert_eq!(claims.exp, NOW as u64 + 604800);
}

#[test]
fn login_checks_password_and_identity() {
    let mut store = Store::new();
    register(&mut store, registration("ada", "ada@example.com", "top-pw"), NOW, SECRET).unwrap();
    let good = login(
        &store,
        &UserLogin { username: "ada".to_string(), password: "top-pw".to_string() },
        NOW + 5,
        SECRET,
    )
    .unwrap();
    assert_eq!(good.user.username, "ada");
    let claims = verify_token_at(good.token.as_str(), SECRET, (NOW as u64) + 10).unwrap();
    assert_eq!(claims.sub, good.user.id);
    let wrong = login(
        &store,
        &UserLogin { username: "ada".to_string(), password: "nope".to_string() },
        NOW + 5,
        SECRET,
    );
    match wrong {
        Err(AppError::Unauthorized(_)) => {}
        _ => panic!("wrong password must be Unauthorized"),
    }
    let unknown = login(
        &store,
        &UserLogin { username: "ghost".to_string(), password: "top-pw".to_string() },
        NOW + 5,
        SECRET,
    );
    match unknown {
        Err(AppError::Unauthorized(_)) => {}
        _ => panic!("unknown user must be Unauthorized"),
    }
}

#[test]
fn me_returns_profile() {
    let mut store = Store::new();
    let ok = register(&mut store, registration("ada", "ada@example.com", "pw"), NOW, SECRET)
        .unwrap();
    let profile = me(&store, ok.user.id).unwrap();
    assert_eq!(profile.username, "ada");
    assert_eq!(profile.email, "ada@example.com");
    assert_eq!(profile.first_name.as_deref(), Some("Ada"));
    assert!(me(&store, 999).is_err());
}

#[test]
fn password_hash_round_trip() {
    let hash = hash_password("s3cret").unwrap();
    assert!(verify_password_closed("s3cret", hash.as_str()));
    assert!(!verify_password_closed("other", hash.as_str()));
    assert!(!verify_password_closed("s3cret", "not-a-hash"));
}

#[test]
fn token_valid_before_expiry_and_rejected_after() {
    let iat: u64 = 1_700_000_000;
    let token = issue_token_at(7, "ada", iat, SECRET).unwrap();
    // Valid six days and 23 hours in.
    let claims = verify_token_at(token.as_str(), SECRET, iat + 6 * 86400 + 23 * 3600).unwrap();
    assert_eq!(claims.sub, 7);
    assert_eq!(claims.exp, iat + 7 * 86400);
    // Still valid exactly at expiry.
    assert!(verify_token_at(token.as_str(), SECRET, iat + 7 * 86400).is_ok());
    // Rejected seven days and one hour in.
    match verify_token_at(token.as_str(), SECRET, iat + 7 * 86400 + 3600) {
        Err(AppError::Unauthorized(_)) => {}
        _ => panic!("expired token must be Unauthorized"),
    }
}

#[test]
fn token_rejected_with_wrong_secret_or_garbage() {
    let iat: u64 = 1_700_000_000;
    let token = issue_token_at(7, "ada", iat, SECRET).unwrap();
    assert!(verify_token_at(token.as_str(), "other-secret", iat + 1).is_err());
    assert!(verify_token_at("definitely.not.a-token", SECRET, iat + 1).is_err());
}

#[test]
fn clock_based_token_round_trip() {
    let token = create_jwt(42, "ada".to_string(), SECRET).unwrap();
    let claims = verify_jwt(token.as_str(), SECRET).unwrap();
    assert_eq!(claims.sub, 42);
    assert_eq!(claims.username, "ada");
    assert_eq!(claims.exp, claims.iat + 604800);
    assert!(verify_jwt(token.as_str(), "other").is_err());
}
