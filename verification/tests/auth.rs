use base64::Engine;
use hmac::{Hmac, Mac};
use sha2::Sha256;
use telepathy::auth::{
    api_token_digest, api_token_digests_match, api_token_matches, api_token_required,
    authenticate_gateway, bearer_token, bind_address_text, check_startup, is_loopback_bind,
    relay_credentials_required, relay_secrets, verify_relay_token, verify_relay_token_at,
    verify_token_text, StartupError, TokenError, SIGNATURE_BYTES,
};

type HmacSha256 = Hmac<Sha256>;

fn soon() -> u64 {
    std::time::SystemTime::now()
        .duration_since(std::time::UNIX_EPOCH)
        .unwrap()
        .as_secs()
        + 300
}

fn mint(payload: &str, exp: u64, secret: &str) -> String {
    let input = format!("{payload}:{exp}");
    let mut mac = HmacSha256::new_from_slice(secret.as_bytes()).unwrap();
    mac.update(input.as_bytes());
    let sig = hex::encode(mac.finalize().into_bytes());
    base64::engine::general_purpose::URL_SAFE_NO_PAD.encode(format!("{input}:{sig}"))
}

fn mint_with_signature(payload: &str, exp: u64, signature: &str) -> String {
    let input = format!("{payload}:{exp}");
    base64::engine::general_purpose::URL_SAFE_NO_PAD.encode(format!("{input}:{signature}"))
}

#[test]
fn valid_token_authenticates() {
    let token = mint("gw-1", soon(), "s3cret");
    assert_eq!(
        verify_relay_token(&token, &["s3cret".into()]).unwrap(),
        "gw-1"
    );
}

#[test]
fn wrong_secret_rejected() {
    let token = mint("gw-1", soon(), "wrong");
    assert!(verify_relay_token(&token, &["s3cret".into()]).is_err());
}

#[test]
fn uppercase_signature_is_accepted() {
    let exp = soon();
    let input = format!("gw-1:{exp}");
    let mut mac = HmacSha256::new_from_slice(b"s3cret").unwrap();
    mac.update(input.as_bytes());
    let signature = hex::encode(mac.finalize().into_bytes()).to_uppercase();
    let token = mint_with_signature("gw-1", exp, &signature);

    assert_eq!(
        verify_relay_token(&token, &["s3cret".into()]).unwrap(),
        "gw-1"
    );
}

#[test]
fn malformed_signature_is_rejected() {
    let exp = soon();
    let too_long = "00".repeat(SIGNATURE_BYTES + 1);
    for signature in [
        "a",       // odd number of hex digits
        "not-hex", // non-hex characters
        "00",      // too short
        &too_long, // too long
    ] {
        let token = mint_with_signature("gw-1", exp, signature);
        assert!(
            verify_relay_token(&token, &["s3cret".into()]).is_err(),
            "signature should be rejected: {signature}"
        );
    }
}

#[test]
fn wrong_signature_is_rejected() {
    let token = mint_with_signature("gw-1", soon(), &"00".repeat(SIGNATURE_BYTES));
    assert!(verify_relay_token(&token, &["s3cret".into()]).is_err());
}

#[test]
fn expired_token_rejected() {
    let token = mint("gw-1", 1, "s3cret");
    assert!(verify_relay_token(&token, &["s3cret".into()]).is_err());
}

#[test]
fn rotation_list_accepts_second_secret() {
    let token = mint("gw-2", soon(), "new-secret");
    assert_eq!(
        verify_relay_token(&token, &["old".into(), "new-secret".into()]).unwrap(),
        "gw-2"
    );
}

#[test]
fn api_token_uses_fixed_digests_and_preserves_header_bearer_semantics() {
    let expected_digest = api_token_digest("secret");
    let same_digest = api_token_digest("secret");
    let wrong_digest = api_token_digest("secret-with-a-different-suffix");
    assert_eq!(expected_digest.len(), 32);
    assert!(api_token_digests_match(&expected_digest, &same_digest));
    assert!(!api_token_digests_match(&expected_digest, &wrong_digest));

    assert!(api_token_matches(Some("secret"), None, "secret"));
    assert!(!api_token_matches(Some("secret"), None, "wrong"));

    assert!(api_token_matches(None, Some("Bearer secret"), "secret"));

    // The dedicated header remains authoritative when both forms are
    // present, preserving the prior API contract without exposing either
    // raw token in any error response.
    assert!(!api_token_matches(
        Some("wrong"),
        Some("Bearer secret"),
        "secret"
    ));
    assert!(!api_token_matches(None, None, "secret"));
}

#[test]
fn relay_credentials_are_required_for_authenticated_or_non_loopback_daemons() {
    assert!(relay_credentials_required("127.0.0.1", true, true));
    assert!(relay_credentials_required("0.0.0.0", false, true));
    assert!(!relay_credentials_required("127.0.0.1", false, true));
    assert!(!relay_credentials_required("0.0.0.0", true, false));
}

#[test]
fn non_loopback_daemons_require_the_api_token() {
    assert!(is_loopback_bind("127.0.0.1"));
    assert!(is_loopback_bind("::1"));
    assert!(is_loopback_bind("[::1]"));
    assert!(!is_loopback_bind("0.0.0.0"));
    assert!(api_token_required("0.0.0.0", false));
    assert!(!api_token_required("0.0.0.0", true));
    assert!(!api_token_required("127.0.0.1", false));
}

#[test]
fn a_token_digest_is_the_sha256_of_the_token() {
    assert_eq!(
        hex::encode(api_token_digest("secret")),
        "2bb80d537b1da3e38bd30361aa855686bde0eacd7162fef6a25fe97bf527a25b"
    );
}

#[test]
fn a_token_holds_until_its_time() {
    let secrets = vec!["s3cret".to_string()];
    let token = mint("gw-1", 1000, "s3cret");
    assert_eq!(verify_relay_token_at(&token, &secrets, 999), Ok("gw-1".into()));
    assert_eq!(
        verify_relay_token_at(&token, &secrets, 1001),
        Err(TokenError::Expired)
    );
    assert!(verify_relay_token_at(&token, &[], 1).is_err());
    assert_eq!(
        authenticate_gateway(Some(&format!("Bearer {token}")), &secrets, 999),
        Some("gw-1".to_string())
    );
    assert_eq!(authenticate_gateway(None, &secrets, 999), None);
    assert_eq!(authenticate_gateway(Some(&token), &secrets, 999), None);
}

#[test]
fn each_part_of_a_token_is_checked() {
    let secrets = vec!["s3cret".to_string()];
    let good = "00".repeat(SIGNATURE_BYTES);
    assert!(verify_relay_token_at("***", &secrets, 1).is_err());
    let not_text =
        base64::engine::general_purpose::URL_SAFE_NO_PAD.encode([0xffu8, 0xfe]);
    assert!(verify_relay_token_at(&not_text, &secrets, 1).is_err());
    assert!(verify_token_text("gw:1", &secrets, 1).is_err());
    assert!(verify_token_text("gw:1:2:3", &secrets, 1).is_err());
    assert!(verify_token_text("gw:1:zz", &secrets, 1).is_err());
    assert!(verify_token_text("gw:1:00", &secrets, 1).is_err());
    assert!(verify_token_text(&format!("gw:x:{good}"), &secrets, 1).is_err());
    assert!(verify_token_text(&format!("gw:9:{good}"), &secrets, 1).is_err());
}

#[test]
fn headers_secrets_and_addresses_are_read_plainly() {
    assert_eq!(bearer_token(Some("Bearer abc")), Some("abc"));
    assert_eq!(bearer_token(Some("Basic abc")), None);
    assert_eq!(bearer_token(None), None);
    assert_eq!(relay_secrets("a, b,,c "), vec!["a", "b", "c"]);
    assert!(relay_secrets("").is_empty());
    assert_eq!(bind_address_text("127.0.0.1", 80), "127.0.0.1:80");
    assert_eq!(bind_address_text("::1", 80), "[::1]:80");
}

#[test]
fn a_public_daemon_does_not_start_unprotected() {
    assert_eq!(check_startup("127.0.0.1", false, true, false, false), Ok(()));
    assert!(check_startup("0.0.0.0", false, false, true, true).is_err());
    assert!(check_startup("0.0.0.0", true, true, true, true).is_err());
    assert_eq!(check_startup("0.0.0.0", true, false, true, true), Ok(()));
    let half: Result<(), StartupError> = check_startup("0.0.0.0", true, false, true, false);
    assert!(half.is_err());
    assert!(!half.unwrap_err().message().is_empty());
}
