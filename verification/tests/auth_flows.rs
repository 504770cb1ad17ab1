use firba::auth::{login, register, RegisterError};
use firba::hashing::{hash_password, verify_password};
use firba::jwt::{decode, AuthError};
use firba::models::{UserLoginDto, UserRegisterDto};
use firba::store::Store;

fn secret() -> Vec<u8> {
    b"test-signing-secret".to_vec()
}

fn alice_dto() -> UserRegisterDto {
    UserRegisterDto {
        name: "alice".to_string(),
        email: "a@x.com".to_string(),
        password: "pw1".to_string(),
    }
}

#[test]
fn password_hash_verifies_and_rejects_others() {
    let h = hash_password("pw1").unwrap();
    assert!(verify_password("pw1", &h));
    assert!(!verify_password("pw2", &h));
    assert!(!verify_password("", &h));
    // A malformed hash is a plain mismatch, never a panic.
    assert!(!verify_password("pw1", "not-a-bcrypt-hash"));
}

#[test]
fn register_returns_token_and_blocks_duplicate_name() {
    let s = secret();
    let mut store = Store::new();
    let now: u64 = 1_700_000_000;

    let token = register(&mut store, &alice_dto(), &s, now).unwrap();
    let claims = decode(&token, &s, now).unwrap();
    assert_eq!(claims.name, "alice");
    assert!(!claims.user_id.is_empty());
    assert_eq!(store.users.len(), 1);
    // The stored record holds a hash, not the plaintext password.
    assert_ne!(store.users[0].password, "pw1");

    // A second "alice" is rejected without creating a second record.
    let again = UserRegisterDto {
        name: "alice".to_string(),
        email: "other@x.com".to_string(),
        password: "pw9".to_string(),
    };
    assert_eq!(
        register(&mut store, &again, &s, now),
        Err(RegisterError::NameTaken)
    );
    assert_eq!(store.users.len(), 1);
}

#[test]
fn register_blocks_duplicate_email() {
    let s = secret();
    let mut store = Store::new();
    let now: u64 = 1_700_000_000;
    register(&mut store, &alice_dto(), &s, now).unwrap();

    let same_email = UserRegisterDto {
        name: "bob".to_string(),
        email: "a@x.com".to_string(),
        password: "pw2".to_string(),
    };
    assert_eq!(
        register(&mut store, &same_email, &s, now),
        Err(RegisterError::EmailTaken)
    );
    assert_eq!(store.users.len(), 1);
}

#[test]
fn login_rejects_wrong_password_and_accepts_right_one() {
    let s = secret();
    let mut store = Store::new();
    let now: u64 = 1_700_000_000;
    register(&mut store, &alice_dto(), &s, now).unwrap();

    let wrong = UserLoginDto {
        name: "alice".to_string(),
        password: "wrong".to_string(),
    };
    assert_eq!(
        login(&store, &wrong, &s, now),
        Err(AuthError::WrongCredentials)
    );

    // An unknown name gets the very same opaque rejection.
    let nobody = UserLoginDto {
        name: "nobody".to_string(),
        password: "pw1".to_string(),
    };
    assert_eq!(
        login(&store, &nobody, &s, now),
        Err(AuthError::WrongCredentials)
    );

    let right = UserLoginDto {
        name: "alice".to_string(),
        password: "pw1".to_string(),
    };
    let token = login(&store, &right, &s, now).unwrap();
    let claims = decode(&token, &s, now).unwrap();
    let stored = store.get_user_by_name("alice").unwrap();
    assert_eq!(claims.user_id, stored.id);
    assert_eq!(claims.name, "alice");
}

#[test]
fn hash_with_control_characters_is_a_plain_mismatch() {
    // A structurally bcrypt-shaped hash whose salt field hides a control
    // character: the check answers false, it does not crash.
    let bad = "$2b$10$\u{1f}AAAAAAAAAAAAAAAAAAAAAqqqqqqqqqqqqqqqqqqqqqqqqqqqqqqq";
    assert!(!verify_password("pw1", bad));
    let tab = "$2b$10$\tAAAAAAAAAAAAAAAAAAAAAqqqqqqqqqqqqqqqqqqqqqqqqqqqqqqq";
    assert!(!verify_password("pw1", tab));
    // A non-ASCII hash text is likewise a mismatch, never an error.
    assert!(!verify_password("pw1", "$2b$10$sälzig"));
}

#[test]
fn hashing_succeeds_and_emits_printable_ascii() {
    let h = hash_password("pw1").unwrap();
    assert!(h.chars().all(|c| (' '..='~').contains(&c)));
    assert!(verify_password("pw1", &h));
}
