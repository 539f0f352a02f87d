use cart_core::auth::{
    bearer_token_of, compare_password, cookie_token_of, create_token, decode_token,
    extract_request_token, has_token_expired, hash_password, token_claims, authenticate_token,
    LoginUserSchema, TokenError, UserRole,
};

const SECRET: &[u8] = b"unit-test-signing-key";

#[test]
fn hashed_password_verifies_and_rejects() {
    let hash = hash_password("hunter42").expect("hashing");
    assert!(hash.starts_with("$argon2"));
    assert!(compare_password("hunter42", &hash));
    assert!(!compare_password("hunter43", &hash));
    assert!(!compare_password("hunter42", "not a phc string"));
}

#[test]
fn token_roundtrip_recovers_the_subject() {
    let sub = "3b2a8f64-1c9d-4e08-9d15-7a54d0a2b9c1";
    let token = create_token(sub, SECRET, 30).expect("token");
    assert_eq!(decode_token(&token, SECRET), Ok(sub.to_string()));

    // A tampered token and a wrong secret are both rejected.
    assert_eq!(
        decode_token(&token, b"other-secret"),
        Err(TokenError::InvalidSubject)
    );
    assert_eq!(
        decode_token("not.a.token", SECRET),
        Err(TokenError::InvalidSubject)
    );
}

#[test]
fn authenticate_token_resolves_a_uuid_subject() {
    let sub = "3b2a8f64-1c9d-4e08-9d15-7a54d0a2b9c1";
    let token = create_token(sub, SECRET, 30).expect("token");
    let id = authenticate_token(&token, SECRET).expect("id");
    assert_eq!(id, 0x3b2a8f641c9d4e089d157a54d0a2b9c1);

    // A decodable token whose subject is no UUID is rejected.
    let odd = create_token("not-a-uuid", SECRET, 30).expect("token");
    assert_eq!(
        authenticate_token(&odd, SECRET),
        Err(TokenError::InvalidSubject)
    );
}

#[test]
fn empty_subject_is_rejected() {
    assert_eq!(create_token("", SECRET, 30), Err(TokenError::InvalidSubject));
    assert_eq!(
        token_claims("", 1000, 30),
        Err(TokenError::InvalidSubject)
    );
}

#[test]
fn token_claims_compute_the_expiry() {
    let c = token_claims("alice", 1000, 30).expect("claims");
    assert_eq!(c.sub, "alice");
    assert_eq!(c.iat, 1000);
    assert_eq!(c.exp, 1000 + 60 * 30);

    // A negative lifetime clamps at the epoch.
    let c = token_claims("alice", 60, -2).expect("claims");
    assert_eq!(c.exp, 0);
}

#[test]
fn expiry_check_compares_timestamps() {
    assert!(has_token_expired(99, 100));
    assert!(!has_token_expired(100, 100));
    assert!(!has_token_expired(101, 100));
}

#[test]
fn bearer_tokens_need_the_exact_prefix() {
    assert_eq!(bearer_token_of("Bearer abc"), Some("abc".to_string()));
    assert_eq!(bearer_token_of("Bearer "), Some("".to_string()));
    assert_eq!(bearer_token_of("bearer abc"), None);
    assert_eq!(bearer_token_of("Token abc"), None);
    assert_eq!(bearer_token_of("Bea"), None);
}

#[test]
fn cookie_tokens_are_found_among_pairs() {
    assert_eq!(
        cookie_token_of("a=1; token=xyz; b=2"),
        Some("xyz".to_string())
    );
    assert_eq!(cookie_token_of("token=abc"), Some("abc".to_string()));
    assert_eq!(cookie_token_of("  token=abc  "), Some("abc".to_string()));
    assert_eq!(cookie_token_of("a=1;b=2"), None);
    assert_eq!(cookie_token_of(""), None);
    assert_eq!(cookie_token_of("tok=1; en=2"), None);
    // The first token pair wins.
    assert_eq!(
        cookie_token_of("token=first; token=second"),
        Some("first".to_string())
    );
}

#[test]
fn request_token_prefers_the_bearer_header() {
    assert_eq!(
        extract_request_token(Some("Bearer abc"), Some("token=xyz")),
        Some("abc".to_string())
    );
    assert_eq!(
        extract_request_token(Some("Basic abc"), Some("token=xyz")),
        Some("xyz".to_string())
    );
    assert_eq!(
        extract_request_token(None, Some("a=1; token=xyz")),
        Some("xyz".to_string())
    );
    assert_eq!(extract_request_token(None, None), None);
}

#[test]
fn user_role_labels_and_parsing() {
    assert_eq!(UserRole::Admin.label(), "Admin");
    assert_eq!(UserRole::User.label(), "User");
    assert_eq!(UserRole::Guest.label(), "Guest");
    assert_eq!(UserRole::from_str("Admin"), Ok(UserRole::Admin));
    assert_eq!(UserRole::from_str("admin"), Ok(UserRole::Admin));
    assert_eq!(UserRole::from_str("User"), Ok(UserRole::User));
    assert_eq!(UserRole::from_str("guest"), Ok(UserRole::Guest));
    assert_eq!(UserRole::from_str("root"), Err(()));
}

#[test]
fn login_schema_holds_credentials() {
    let l = LoginUserSchema {
        email: "a@example.com".to_string(),
        password: "pw".to_string(),
    };
    assert_eq!(l.email, "a@example.com");
    assert_eq!(l.password, "pw");
}
