use bore_tunnel::apikey::{api_key_authorized, parse_valid_flag, ApiKeyAuthenticator};
use bore_tunnel::auth::Authenticator;
use bore_tunnel::msg::SessionId;
use hmac::{Hmac, Mac};
use sha2::{Digest, Sha256};

#[test]
fn answer_validates() {
    let auth = Authenticator::new("secret");
    let challenge = SessionId::new(uuid::Uuid::new_v4().as_u128());
    let tag = auth.answer(&challenge);
    assert!(auth.validate(&challenge, &tag));
    assert!(!auth.validate(&challenge, "wrong answer"));
}

#[test]
fn validate_rejects_other_tags() {
    let auth = Authenticator::new("secret");
    let c1 = SessionId::new(1);
    let c2 = SessionId::new(2);
    let t1 = auth.answer(&c1);
    assert!(!auth.validate(&c2, &t1), "a tag must not validate another challenge");
    let other = Authenticator::new("another secret");
    assert!(!other.validate(&c1, &t1), "a tag must not validate under another key");
    assert!(!auth.validate(&c1, ""));
    assert!(!auth.validate(&c1, "00"));
    assert!(!auth.validate(&c1, "zz"));
}

#[test]
fn validate_accepts_uppercase_spelling() {
    // hex::decode is case-insensitive, so the uppercase spelling of
    // the correct tag also validates; this is the one exception to
    // tag uniqueness.
    let auth = Authenticator::new("secret");
    let c = SessionId::new(42);
    let tag = auth.answer(&c).to_uppercase();
    assert!(auth.validate(&c, &tag));
}

#[test]
fn answer_matches_reference_hmac() {
    let secret = "alpha";
    let id = uuid::Uuid::new_v4();
    let auth = Authenticator::new(secret);
    let tag = auth.answer(&SessionId::new(id.as_u128()));

    let hashed = Sha256::new().chain_update(secret).finalize();
    let mut mac = Hmac::<Sha256>::new_from_slice(&hashed).unwrap();
    mac.update(id.as_bytes());
    let expected = hex::encode(mac.finalize().into_bytes());
    assert_eq!(tag, expected);
}

#[test]
fn tag_is_64_hex_chars() {
    let auth = Authenticator::new("s");
    let tag = auth.answer(&SessionId::new(7));
    assert_eq!(tag.len(), 64);
    assert!(tag.chars().all(|c| c.is_ascii_hexdigit() && !c.is_ascii_uppercase()));
}

#[test]
fn request_body_shape() {
    let body = ApiKeyAuthenticator::request_body("my-key");
    assert_eq!(body, b"{\"api_key\":\"my-key\"}".to_vec());
    let body = ApiKeyAuthenticator::request_body("q\"uote");
    assert_eq!(body, b"{\"api_key\":\"q\\\"uote\"}".to_vec());
}

#[test]
fn validation_url_is_kept() {
    let a = ApiKeyAuthenticator::new(String::from("https://example.com/validate"));
    assert_eq!(a.validation_url(), "https://example.com/validate");
}

#[test]
fn parse_valid_flag_shapes() {
    assert_eq!(parse_valid_flag(b"{\"valid\":true}"), Some(true));
    assert_eq!(parse_valid_flag(b"{\"valid\": false}"), Some(false));
    assert_eq!(
        parse_valid_flag(b"{ \"valid\" : true , \"user_id\" : \"u1\" }"),
        Some(true)
    );
    assert_eq!(parse_valid_flag(b"{\"user_id\":\"u1\"}"), None);
    assert_eq!(parse_valid_flag(b"not json"), None);
    assert_eq!(parse_valid_flag(b"{\"valid\":1}"), None);
    assert_eq!(parse_valid_flag(b""), None);
}

#[test]
fn api_key_decision() {
    assert!(api_key_authorized(true, Some(b"{\"valid\":true}")));
    assert!(!api_key_authorized(true, Some(b"{\"valid\":false}")));
    assert!(!api_key_authorized(false, Some(b"{\"valid\":true}")));
    assert!(!api_key_authorized(true, Some(b"oops")));
    assert!(!api_key_authorized(true, None));
    assert!(!api_key_authorized(false, None));
}
