use firba::jwt::{authenticate, decode, encode, AuthError, Claims, TokenError};
use firba::VALIDITY_WINDOW;

fn secret() -> Vec<u8> {
    b"test-signing-secret".to_vec()
}

#[test]
fn token_round_trip_inside_window() {
    let s = secret();
    let issued_at: u64 = 1_700_000_000;
    let claims = Claims::new_at("alice".to_string(), "id-123".to_string(), issued_at);
    assert_eq!(claims.exp, issued_at + VALIDITY_WINDOW);
    let token = encode(&claims, &s).unwrap();

    let got = decode(&token, &s, issued_at).unwrap();
    assert_eq!(got.exp, issued_at + VALIDITY_WINDOW);
    assert_eq!(got.name, "alice");
    assert_eq!(got.user_id, "id-123");

    // Still valid one second before the window closes.
    let got = decode(&token, &s, issued_at + VALIDITY_WINDOW - 1).unwrap();
    assert_eq!(got.name, "alice");
}

#[test]
fn token_expired_at_and_after_window_end() {
    let s = secret();
    let issued_at: u64 = 1_700_000_000;
    let claims = Claims::new_at("alice".to_string(), "id-123".to_string(), issued_at);
    let token = encode(&claims, &s).unwrap();

    // Strict comparison: the check-time equal to the expiry already fails.
    assert_eq!(
        decode(&token, &s, issued_at + VALIDITY_WINDOW),
        Err(TokenError::Expired)
    );
    assert_eq!(
        decode(&token, &s, issued_at + VALIDITY_WINDOW + 12345),
        Err(TokenError::Expired)
    );
}

#[test]
fn token_claims_survive_unicode_and_empty_fields() {
    let s = secret();
    let claims = Claims::new_at("älice ☃".to_string(), "".to_string(), 50);
    let token = encode(&claims, &s).unwrap();
    let got = decode(&token, &s, 60).unwrap();
    assert_eq!(got.name, "älice ☃");
    assert_eq!(got.user_id, "");
}

#[test]
fn tampering_any_byte_is_rejected() {
    let s = secret();
    let claims = Claims::new_at("alice".to_string(), "id-123".to_string(), 1_000);
    let token = encode(&claims, &s).unwrap();
    let bytes = token.as_bytes();
    for i in 0..bytes.len() {
        let mut tampered = bytes.to_vec();
        // Replace the byte with a different one from the token alphabet.
        tampered[i] = if tampered[i] == b'a' { b'b' } else { b'a' };
        if tampered == bytes {
            continue;
        }
        let tampered = String::from_utf8(tampered).unwrap();
        assert!(
            decode(&tampered, &s, 1_000).is_err(),
            "tampered byte {} was accepted",
            i
        );
    }
}

#[test]
fn wrong_key_means_bad_signature() {
    let s = secret();
    let claims = Claims::new_at("alice".to_string(), "id-123".to_string(), 1_000);
    let token = encode(&claims, &s).unwrap();
    let other = b"another-secret".to_vec();
    assert_eq!(decode(&token, &other, 1_000), Err(TokenError::BadSignature));
}

#[test]
fn malformed_tokens_are_rejected_as_malformed() {
    let s = secret();
    assert_eq!(decode("", &s, 0), Err(TokenError::Malformed));
    assert_eq!(decode("no-dots-here", &s, 0), Err(TokenError::Malformed));
    assert_eq!(decode("one.dot", &s, 0), Err(TokenError::Malformed));
    assert_eq!(decode("HS999.payload.sig", &s, 0), Err(TokenError::Malformed));
    // Right shape, wrong everything else.
    assert_eq!(decode("HS256.zz.sig", &s, 0), Err(TokenError::BadSignature));
}

#[test]
fn guard_missing_and_malformed_headers() {
    let s = secret();
    assert_eq!(
        authenticate(None, &s, 0),
        Err(AuthError::MissingCredentials)
    );
    assert_eq!(
        authenticate(Some("Basic abc"), &s, 0),
        Err(AuthError::MissingCredentials)
    );
    assert_eq!(
        authenticate(Some("Bear"), &s, 0),
        Err(AuthError::MissingCredentials)
    );
}

#[test]
fn guard_accepts_valid_bearer_and_rejects_bad_tokens() {
    let s = secret();
    let claims = Claims::new_at("alice".to_string(), "id-123".to_string(), 1_000);
    let token = encode(&claims, &s).unwrap();
    let header = format!("Bearer {}", token);

    let got = authenticate(Some(&header), &s, 1_500).unwrap();
    assert_eq!(got.name, "alice");
    assert_eq!(got.user_id, "id-123");

    // Garbage after the scheme.
    assert_eq!(
        authenticate(Some("Bearer garbage"), &s, 1_500),
        Err(AuthError::InvalidToken)
    );
    // Expired token: opaque invalid-token answer.
    assert_eq!(
        authenticate(Some(&header), &s, 1_000 + VALIDITY_WINDOW),
        Err(AuthError::InvalidToken)
    );
}

#[test]
fn claims_new_uses_the_clock() {
    let c = Claims::new("bob".to_string(), "id-9".to_string());
    assert_eq!(c.name, "bob");
    assert_eq!(c.user_id, "id-9");
    assert!(c.exp >= VALIDITY_WINDOW);
}

#[test]
fn token_claims_with_delimiter_characters_round_trip() {
    // Names may contain the very characters the token format uses to
    // delimit its parts; the payload encoding keeps them apart.
    let s = secret();
    let claims = Claims::new_at("a.b-c.d".to_string(), "x.y-z".to_string(), 10);
    let token = encode(&claims, &s).unwrap();
    let got = decode(&token, &s, 20).unwrap();
    assert_eq!(got.name, "a.b-c.d");
    assert_eq!(got.user_id, "x.y-z");
}

#[test]
fn token_with_trailing_garbage_is_rejected() {
    let s = secret();
    let claims = Claims::new_at("alice".to_string(), "id-123".to_string(), 1_000);
    let token = encode(&claims, &s).unwrap();
    let longer = format!("{}A", token);
    assert!(decode(&longer, &s, 1_000).is_err());
    let shorter = &token[..token.len() - 1];
    assert!(decode(shorter, &s, 1_000).is_err());
}

#[test]
fn token_expiring_immediately_is_never_valid() {
    let s = secret();
    // Expiry zero: no check time is strictly before it.
    let claims = Claims {
        exp: 0,
        name: "alice".to_string(),
        user_id: "id-123".to_string(),
    };
    let token = encode(&claims, &s).unwrap();
    assert_eq!(decode(&token, &s, 0), Err(TokenError::Expired));
}
