use order_backend::auth::authenticate;
use order_backend::auth::generate_token;
use order_backend::auth::verify_token;
use order_backend::error::AppError;
use order_backend::store::login;
use order_backend::store::Store;
use order_backend::store::User;

const SECRET: &str = "unit test signing secret";
const NOW: u64 = 1_700_000_000;

fn seeded_store() -> Store {
    let mut store = Store::new();
    let user = User {
        id: 42,
        username: "alice".to_string(),
        password_hash: bcrypt::hash("correct horse", 4).unwrap(),
        created_at: NOW,
        updated_at: NOW,
    };
    store.add_user(user).unwrap();
    store
}

fn auth_error_message(r: Result<String, AppError>) -> (String, u16) {
    match r {
        Err(e) => {
            let code = e.status_code();
            (e.message().clone(), code)
        }
        Ok(_) => panic!("expected an error"),
    }
}

#[test]
fn login_issues_token_for_valid_credentials() {
    let store = seeded_store();
    let token = login(
        &store,
        &"alice".to_string(),
        &"correct horse".to_string(),
        SECRET,
        NOW,
    )
    .unwrap();
    let uid = verify_token(SECRET, token.as_str(), NOW + 10).unwrap();
    assert_eq!(uid, 42);
}

#[test]
fn login_rejects_unknown_user_and_wrong_password_alike() {
    let store = seeded_store();
    let unknown = login(
        &store,
        &"bob".to_string(),
        &"whatever".to_string(),
        SECRET,
        NOW,
    );
    let wrong = login(
        &store,
        &"alice".to_string(),
        &"wrong horse".to_string(),
        SECRET,
        NOW,
    );
    let (m1, c1) = auth_error_message(unknown);
    let (m2, c2) = auth_error_message(wrong);
    assert_eq!(m1, m2);
    assert_eq!(c1, c2);
    assert_eq!(c1, 401);
    assert_eq!(m1, "Invalid username or password");
}

#[test]
fn expired_token_rejected_like_malformed() {
    let token = generate_token(SECRET, 7, NOW).unwrap();
    let expired = verify_token(SECRET, token.as_str(), NOW + 86400);
    let malformed = verify_token(SECRET, "not.a.token", NOW);
    let e1 = expired.unwrap_err();
    let e2 = malformed.unwrap_err();
    assert_eq!(e1.message(), e2.message());
    assert_eq!(e1.status_code(), e2.status_code());
    assert_eq!(e1.status_code(), 401);
    assert_eq!(e1.message(), "Invalid token");
}

#[test]
fn token_valid_until_expiry() {
    let token = generate_token(SECRET, 7, NOW).unwrap();
    assert_eq!(verify_token(SECRET, token.as_str(), NOW + 86399).unwrap(), 7);
    assert!(verify_token(SECRET, token.as_str(), NOW + 86400).is_err());
}

#[test]
fn wrong_secret_rejected() {
    let token = generate_token(SECRET, 7, NOW).unwrap();
    let r = verify_token("another secret", token.as_str(), NOW + 10);
    match r.unwrap_err() {
        AppError::AuthError(m) => assert_eq!(m, "Invalid token"),
        _ => panic!("expected an authentication error"),
    }
}

#[test]
fn missing_header_rejected() {
    let r = authenticate(SECRET, None, NOW);
    match r.unwrap_err() {
        AppError::AuthError(m) => assert_eq!(m, "Missing authorization header"),
        _ => panic!("expected an authentication error"),
    }
}

#[test]
fn non_bearer_scheme_rejected() {
    let header = "Basic YWxpY2U6cHc=".to_string();
    let r = authenticate(SECRET, Some(&header), NOW);
    match r.unwrap_err() {
        AppError::AuthError(m) => assert_eq!(m, "Invalid authorization header"),
        _ => panic!("expected an authentication error"),
    }
}

#[test]
fn bearer_header_roundtrip() {
    let token = generate_token(SECRET, 42, NOW).unwrap();
    let header = format!("Bearer {}", token);
    let ctx = authenticate(SECRET, Some(&header), NOW + 5).unwrap();
    assert_eq!(ctx.user_id, 42);
}

#[test]
fn lowercase_bearer_scheme_rejected() {
    let token = generate_token(SECRET, 42, NOW).unwrap();
    let header = format!("bearer {}", token);
    assert!(authenticate(SECRET, Some(&header), NOW).is_err());
}

#[test]
fn duplicate_username_refused() {
    let mut store = seeded_store();
    let dup = User {
        id: 43,
        username: "alice".to_string(),
        password_hash: bcrypt::hash("pw", 4).unwrap(),
        created_at: NOW,
        updated_at: NOW,
    };
    match store.add_user(dup).unwrap_err() {
        AppError::ValidationError(m) => assert_eq!(m, "Username already exists"),
        _ => panic!("expected a validation error"),
    }
}

#[test]
fn issued_token_is_deterministic() {
    let t1 = generate_token(SECRET, 42, NOW).unwrap();
    let t2 = generate_token(SECRET, 42, NOW).unwrap();
    assert_eq!(t1, t2);
    let t3 = generate_token(SECRET, 43, NOW).unwrap();
    assert_ne!(t1, t3);
}
