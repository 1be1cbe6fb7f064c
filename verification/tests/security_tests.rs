use sinp::json::JsonValue;
use sinp::jsonser::canonicalize_json;
use sinp::message::{AuthMethod, Context, ContextType, Request, Sender};
use sinp::security::{
    check_replay, check_replay_at, normalize, semantic_hash, sign_message, verify_signature,
};
use sinp::time::now_millis;

fn sample_context(content: &str) -> Context {
    Context {
        context_type: ContextType::Transcript,
        content: content.to_string(),
        semantic_hash: String::new(),
    }
}

#[test]
fn semantic_hash_deterministic() {
    let ctx = sample_context("Hello world");

    let h1 = semantic_hash("Get weather", &ctx);
    let h2 = semantic_hash("get weather", &ctx);
    let h3 = semantic_hash("  GET   WEATHER  ", &ctx);

    // Normalized versions should match.
    assert_eq!(h1, h2);
    assert_eq!(h2, h3);
}

#[test]
fn semantic_hash_depends_on_content() {
    // The hash is not a constant: a different intent changes it.
    let ctx = sample_context("Hello world");
    let h1 = semantic_hash("Get weather", &ctx);
    let h2 = semantic_hash("Book a flight", &ctx);
    assert_ne!(h1, h2);
    // It is 64 lowercase hex characters of a SHA-256 digest.
    assert_eq!(h1.len(), 64);
    assert!(h1.chars().all(|c| c.is_ascii_hexdigit() && !c.is_ascii_uppercase()));
    // The digest of "get weather||hello world" under SHA-256.
    assert_eq!(h1, "40824d8bcef31e3db6b0a88d34cbcc7a4442496f49b96db0450ae77940a21226");
}

#[test]
fn normalize_collapses_whitespace() {
    assert_eq!(normalize("  GET   WEATHER  "), "get weather");
    assert_eq!(normalize("\t a \n b "), "a b");
    assert_eq!(normalize(""), "");
    assert_eq!(normalize("   "), "");
}

#[test]
fn replay_check_valid() {
    let now = now_millis();
    assert!(check_replay(now, None).is_ok());
}

#[test]
fn replay_check_expired() {
    let old = now_millis() - 10_000;
    assert!(check_replay(old, None).is_err());
}

#[test]
fn replay_window_boundary() {
    let now: i64 = 1_700_000_000_000;
    let window: i64 = 5_000;
    // Exactly at the window edge: accepted.
    assert!(check_replay_at(now, now - window, window).is_ok());
    assert!(check_replay_at(now, now + window, window).is_ok());
    // One millisecond further out: rejected.
    assert!(check_replay_at(now, now - window - 1, window).is_err());
    assert!(check_replay_at(now, now + window + 1, window).is_err());
}

#[test]
fn jcs_canonicalization() {
    let json = JsonValue::Obj(vec![
        ("z".to_string(), JsonValue::Num(1_000_000)),
        ("a".to_string(), JsonValue::Str("hello".to_string())),
        (
            "m".to_string(),
            JsonValue::Arr(vec![
                JsonValue::Num(3_000_000),
                JsonValue::Num(1_000_000),
                JsonValue::Num(2_000_000),
            ]),
        ),
    ]);

    let canonical = canonicalize_json(&json);
    // Keys should be sorted: a, m, z.
    assert!(canonical.starts_with("{\"a\":"));
    assert!(canonical.contains("\"m\":[3,1,2]"));
    assert!(canonical.ends_with("\"z\":1}"));
    assert_eq!(canonical, "{\"a\":\"hello\",\"m\":[3,1,2],\"z\":1}");
}

fn sample_request(intent: &str) -> Request {
    let sender = Sender { id: "test".to_string(), auth_method: AuthMethod::Token };
    let ctx = Context {
        context_type: ContextType::Transcript,
        content: "test".to_string(),
        semantic_hash: "abc".to_string(),
    };
    Request::new(sender, intent.to_string(), 900_000, ctx)
}

#[test]
fn sign_and_verify() {
    let signing_key: Vec<u8> = vec![7u8; 32];
    let verifying_key = sinp::security::ed25519_verifying_key(&signing_key);

    let mut request = sample_request("Hello");

    // Sign.
    let sig = sign_message(&request, &signing_key).unwrap();
    request.signature = Some(sig);

    // Verify.
    assert!(verify_signature(&request, &verifying_key).is_ok());
}

#[test]
fn tampering_invalidates_signature() {
    let signing_key: Vec<u8> = vec![42u8; 32];
    let verifying_key = sinp::security::ed25519_verifying_key(&signing_key);

    let mut request = sample_request("transfer 10 units");
    let sig = sign_message(&request, &signing_key).unwrap();
    request.signature = Some(sig);
    assert!(verify_signature(&request, &verifying_key).is_ok());

    // Mutate the intent after signing: verification must fail.
    request.intent = "transfer 9999 units".to_string();
    let outcome = verify_signature(&request, &verifying_key);
    assert_eq!(outcome, Err(sinp::error::SinpError::SignatureInvalid));

    // A missing signature is a distinct crypto error.
    request.signature = None;
    assert!(matches!(
        verify_signature(&request, &verifying_key),
        Err(sinp::error::SinpError::Crypto(_))
    ));
}

#[test]
fn signature_error_taxonomy() {
    let signing_key: Vec<u8> = vec![9u8; 32];
    let other_key: Vec<u8> = vec![10u8; 32];
    let verifying_key = sinp::security::ed25519_verifying_key(&signing_key);
    let other_verifying_key = sinp::security::ed25519_verifying_key(&other_key);

    let mut request = sample_request("check the taxonomy");
    let sig = sinp::security::sign_message(&request, &signing_key).unwrap();
    request.signature = Some(sig);
    assert!(verify_signature(&request, &verifying_key).is_ok());

    // A decoded signature the scheme rejects: signature_invalid.
    assert_eq!(
        verify_signature(&request, &other_verifying_key),
        Err(sinp::error::SinpError::SignatureInvalid)
    );

    // Undecodable base64: a crypto error.
    request.signature = Some("not/valid/base64!!".to_string());
    assert!(matches!(
        verify_signature(&request, &verifying_key),
        Err(sinp::error::SinpError::Crypto(_))
    ));
}

#[test]
fn semantic_hash_is_64_hex_chars() {
    let ctx = sample_context("anything at all");
    let h = semantic_hash("any intent", &ctx);
    assert_eq!(h.len(), 64);
}
