use cryptolab::auth::{
    claims_from_fields,
    generate_jwt, generate_jwt_at, generate_opaque_token, generate_salt, hash_password,
    new_credentials, new_restore_token, sha3_hex, validate_jwt, AuthError,
};
use cryptolab::text::{concat3, to_hex};

#[test]
fn to_hex_lowercase_two_digits_per_byte() {
    assert_eq!(to_hex(&[0x00, 0x0f, 0xa5, 0xff]), "000fa5ff");
    assert_eq!(to_hex(&[]), "");
}

#[test]
fn concat3_joins() {
    assert_eq!(concat3("a", "bc", ""), "abc");
}

#[test]
fn sha3_hex_known_digests() {
    assert_eq!(
        sha3_hex(b""),
        "a7ffc6f8bf1ed76651c14756a061d662f580ff4de43b49fa82d80a4b80f8434a"
    );
    assert_eq!(
        sha3_hex(b"abc"),
        "3a985da74fe225b2045c172d6bd390bd855f086e3e9d525b46bfe24511431532"
    );
}

#[test]
fn hash_password_hashes_salt_then_password() {
    let h = hash_password(&[1, 2], "ab");
    assert_eq!(h.len(), 32);
    assert_eq!(to_hex(&h), sha3_hex(&[1, 2, b'a', b'b']));
    assert_ne!(to_hex(&h), sha3_hex(b"ab"));
}

#[test]
fn salts_and_tokens_have_their_sizes() {
    assert_eq!(generate_salt().len(), 16);
    let t = generate_opaque_token();
    assert_eq!(t.len(), 64);
    assert!(t.chars().all(|c| c.is_ascii_hexdigit() && !c.is_ascii_uppercase()));
}

#[test]
fn new_credentials_hash_under_new_salt() {
    let (salt, hash) = new_credentials("secret");
    assert_eq!(salt.len(), 16);
    assert_eq!(hash, hash_password(&salt, "secret"));
}

#[test]
fn restore_token_is_stored_hashed() {
    let (raw, hash) = new_restore_token();
    assert_eq!(raw.len(), 64);
    assert_eq!(hash, sha3_hex(raw.as_bytes()));
}

#[test]
fn jwt_round_trip() {
    let token = generate_jwt("ana@example.com", "s3cret").expect("token");
    let claims = validate_jwt(&token, "s3cret").expect("valid");
    assert_eq!(claims.sub, "ana@example.com");
    assert_eq!(claims.exp - claims.iat, 4 * 3600);
}

#[test]
fn jwt_with_other_secret_is_rejected() {
    let token = generate_jwt("ana@example.com", "s3cret").expect("token");
    assert_eq!(validate_jwt(&token, "other").unwrap_err(), AuthError::Jwt);
}

#[test]
fn jwt_expired_is_rejected() {
    let token = generate_jwt_at("ana@example.com", "s3cret", Some(1_000), 900).expect("token");
    assert_eq!(validate_jwt(&token, "s3cret").unwrap_err(), AuthError::Jwt);
}

#[test]
fn jwt_at_matches_encoding_of_claims() {
    let token = generate_jwt_at("bo@example.com", "k", Some(4_102_444_800), 4_102_430_400).expect("token");
    let mut claims = serde_json::Map::new();
    claims.insert("sub".to_string(), serde_json::Value::from("bo@example.com"));
    claims.insert("exp".to_string(), serde_json::Value::from(4_102_444_800usize));
    claims.insert("iat".to_string(), serde_json::Value::from(4_102_430_400usize));
    let expected = jsonwebtoken::encode(
        &jsonwebtoken::Header::default(),
        &claims,
        &jsonwebtoken::EncodingKey::from_secret(b"k"),
    )
    .unwrap();
    assert_eq!(token, expected);
    let read = validate_jwt(&token, "k").expect("valid");
    assert_eq!(read.sub, "bo@example.com");
    assert_eq!(read.exp, 4_102_444_800);
    assert_eq!(read.iat, 4_102_430_400);
}

#[test]
fn jwt_without_expiry_reading() {
    assert_eq!(generate_jwt_at("a", "k", None, 0).unwrap_err(), AuthError::Timestamp);
}

#[test]
fn jwt_garbage_is_rejected() {
    assert_eq!(validate_jwt("not.a.token", "k").unwrap_err(), AuthError::Jwt);
}

#[test]
fn claims_from_fields_needs_all_three() {
    let c = claims_from_fields(Some("a@b.c".to_string()), Some(20), Some(10)).unwrap();
    assert_eq!(c.sub, "a@b.c");
    assert_eq!(c.exp, 20);
    assert_eq!(c.iat, 10);
    assert_eq!(claims_from_fields(None, Some(20), Some(10)).unwrap_err(), AuthError::Claims);
    assert_eq!(claims_from_fields(Some("x".to_string()), None, Some(10)).unwrap_err(), AuthError::Claims);
    assert_eq!(claims_from_fields(Some("x".to_string()), Some(20), None).unwrap_err(), AuthError::Claims);
}

#[test]
fn restore_token_is_lowercase_hex() {
    let (raw, hash) = new_restore_token();
    assert!(raw.chars().all(|c| c.is_ascii_hexdigit() && !c.is_ascii_uppercase()));
    assert_eq!(hash, sha3_hex(raw.as_bytes()));
}

#[test]
fn made_token_validates_back_to_its_claims() {
    let token = generate_jwt_at("cy@example.com", "s", Some(4_102_444_800), 4_102_430_400).unwrap();
    let claims = validate_jwt(&token, "s").unwrap();
    assert_eq!((claims.sub.as_str(), claims.exp, claims.iat), ("cy@example.com", 4_102_444_800, 4_102_430_400));
    assert_eq!(validate_jwt(&token, "").unwrap_err(), AuthError::Jwt);
}

#[test]
fn session_token_lasts_four_hours() {
    let token = generate_jwt("dee@example.com", "s").unwrap();
    let claims = validate_jwt(&token, "s").unwrap();
    assert_eq!(claims.exp - claims.iat, 4 * 3600);
    assert_eq!(claims.sub, "dee@example.com");
}
