use base64::engine::general_purpose::STANDARD;
use base64::Engine;
use noissh::auth::{AuthError, AuthorizedKeys, KnownHosts, PublicKey, Tofu, KEY_LEN, KEY_TYPE};

fn key(n: u8) -> PublicKey {
    PublicKey([n; KEY_LEN])
}

#[test]
fn public_key_text_roundtrip() {
    let k = key(7);
    let text = k.to_text();
    assert!(text.starts_with("noissh-x25519 "));
    assert_eq!(PublicKey::from_text(&text).unwrap(), k);
}

#[test]
fn parse_rejects_wrong_type_and_bad_len() {
    assert_eq!(
        PublicKey::from_text("ssh-ed25519 AAAA"),
        Err(AuthError::BadKeyType("ssh-ed25519".to_string()))
    );
    let short = format!("{KEY_TYPE} {}", STANDARD.encode([1u8; 4]));
    assert_eq!(PublicKey::from_text(&short), Err(AuthError::BadKeyLen(4)));
}

#[test]
fn authorized_keys_parse_and_contains() {
    let contents = format!(
        "# my keys\n{}  laptop\n\n{} phone\n",
        key(1).to_text(),
        key(2).to_text()
    );
    let ak = AuthorizedKeys::parse(&contents);
    assert_eq!(ak.len(), 2);
    assert!(ak.contains(&key(1)));
    assert!(ak.contains(&key(2)));
    assert!(!ak.contains(&key(3)));
}

#[test]
fn authorized_keys_skips_garbage_lenient() {
    let contents = format!("garbage line here\n{}\n", key(5).to_text());
    let ak = AuthorizedKeys::parse(&contents);
    assert_eq!(ak.len(), 1);
    assert!(ak.contains(&key(5)));
}

#[test]
fn authorized_keys_strict_errors_on_garbage() {
    assert!(AuthorizedKeys::parse_strict("not a key").is_err());
}

#[test]
fn tofu_new_then_match() {
    let mut kh = KnownHosts::new();
    assert_eq!(kh.check_or_add("host.example", &key(1)), Tofu::New);
    assert_eq!(kh.check_or_add("host.example", &key(1)), Tofu::Match);
}

#[test]
fn tofu_mismatch_is_hard_failure() {
    let mut kh = KnownHosts::new();
    assert_eq!(kh.check_or_add("host.example", &key(1)), Tofu::New);
    assert_eq!(kh.check_or_add("host.example", &key(2)), Tofu::Mismatch);
    // The original pin is NOT overwritten by a mismatch.
    assert_eq!(kh.get("host.example"), Some(&key(1)));
}

#[test]
fn known_hosts_text_roundtrip() {
    let mut kh = KnownHosts::new();
    kh.check_or_add("a.example", &key(1));
    kh.check_or_add("b.example:9999", &key(2));
    let text = kh.to_text();
    let parsed = KnownHosts::parse(&text).unwrap();
    assert_eq!(parsed.get("a.example"), Some(&key(1)));
    assert_eq!(parsed.get("b.example:9999"), Some(&key(2)));
}

#[test]
fn malformed_known_hosts_line_can_be_skipped() {
    let text = format!("a {}\nonlyhost\nb noissh-x25519 ???\nc {}\n", key(1).to_text(), key(2).to_text());
    assert!(KnownHosts::parse(&text).is_err());
    let mut known = KnownHosts::parse_lenient(&text);
    assert_eq!(known.check_or_add("a", &key(1)), Tofu::Match);
    assert_eq!(known.check_or_add("c", &key(3)), Tofu::Mismatch);
    assert_eq!(known.check_or_add("onlyhost", &key(4)), Tofu::New);
}

#[test]
fn known_hosts_parse_rejects_malformed() {
    assert!(matches!(
        KnownHosts::parse("onlyhost"),
        Err(AuthError::MalformedLine)
    ));
}
