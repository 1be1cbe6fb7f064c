//! Scores are fixed-point integers in millionths.

use sinp::interpreter::KeywordInterpreter;
use sinp::message::{Capability, Context, ContextType};

fn sample_capabilities() -> Vec<Capability> {
    vec![
        Capability {
            id: "fetch_weather:v1".to_string(),
            description: "Get current weather for a location".to_string(),
            inputs: vec!["location".to_string()],
            privacy_level: "public".to_string(),
            cost_units: 500_000,
        },
        Capability {
            id: "book_flight:v1".to_string(),
            description: "Book a flight reservation".to_string(),
            inputs: vec!["origin".to_string(), "destination".to_string(), "date".to_string()],
            privacy_level: "pii_sensitive".to_string(),
            cost_units: 5_000_000,
        },
        Capability {
            id: "send_email:v1".to_string(),
            description: "Send an email message".to_string(),
            inputs: vec!["recipient".to_string(), "subject".to_string(), "body".to_string()],
            privacy_level: "private".to_string(),
            cost_units: 1_000_000,
        },
    ]
}

fn sample_context() -> Context {
    Context {
        context_type: ContextType::Transcript,
        content: "User session".to_string(),
        semantic_hash: "test".to_string(),
    }
}

#[test]
fn keyword_interpreter_weather() {
    let interpreter = KeywordInterpreter::default();
    let caps = sample_capabilities();
    let ctx = sample_context();

    let result = interpreter.interpret("What's the weather in London?", &ctx, &caps);

    assert!(result.capability.is_some());
    assert!(result.capability.as_ref().unwrap().id.contains("weather"));
    assert!(result.raw_confidence > 0);
}

#[test]
fn keyword_interpreter_flight() {
    let interpreter = KeywordInterpreter::default();
    let caps = sample_capabilities();
    let ctx = sample_context();

    let result = interpreter.interpret("I need to book a flight to NYC", &ctx, &caps);

    assert!(result.capability.is_some());
    assert!(result.capability.as_ref().unwrap().id.contains("flight"));
}

#[test]
fn keyword_interpreter_no_match() {
    let interpreter = KeywordInterpreter::new(1_000_000, 500_000);
    let caps = sample_capabilities();
    let ctx = sample_context();

    let result = interpreter.interpret("Play some music", &ctx, &caps);

    // With a high minimum score, an unrelated intent does not match.
    assert!(result.capability.is_none() || result.raw_confidence < 500_000);
}

#[test]
fn keyword_score_is_exact() {
    // Keywords: echo, message, hello, text (description) + echo, v1 (id):
    // six in all; the intent matches echo (twice) and hello, so the score
    // is 3/6 = 0.5.
    let interpreter = KeywordInterpreter::default();
    let ctx = sample_context();
    let caps = vec![Capability {
        id: "echo:v1".to_string(),
        description: "echo message hello text".to_string(),
        inputs: vec![],
        privacy_level: "public".to_string(),
        cost_units: 100_000,
    }];
    let result = interpreter.interpret("echo hello world", &ctx, &caps);
    assert_eq!(result.raw_confidence, 500_000);
    assert_eq!(result.capability.as_ref().unwrap().id, "echo:v1");
    assert_eq!(result.interpretation, "Execute echo:v1 for: echo hello world");
}

#[test]
fn alternatives_are_capped_and_ranked() {
    // Six capabilities sharing the token "alpha": every non-top one
    // qualifies with the same score 1/3, but at most three come back, in
    // registration order (ties keep the earlier capability first).
    let interpreter = KeywordInterpreter::default();
    let ctx = sample_context();
    let mut caps = Vec::new();
    for k in 0..6 {
        caps.push(Capability {
            id: format!("cap{}:v1", k),
            description: "alpha".to_string(),
            inputs: vec![],
            privacy_level: "public".to_string(),
            cost_units: 100_000,
        });
    }
    let result = interpreter.interpret("alpha", &ctx, &caps);
    assert_eq!(result.capability.as_ref().unwrap().id, "cap0:v1");
    assert_eq!(result.raw_confidence, 333_333);
    assert_eq!(result.alternatives.len(), 3);
    assert_eq!(result.alternatives[0].capability.id, "cap1:v1");
    assert_eq!(result.alternatives[1].capability.id, "cap2:v1");
    assert_eq!(result.alternatives[2].capability.id, "cap3:v1");
    assert!(result.alternatives[0].confidence >= result.alternatives[1].confidence);
    assert!(result.alternatives[1].confidence >= result.alternatives[2].confidence);

    // With only two qualifying others, exactly two come back.
    let result = interpreter.interpret("alpha", &ctx, &caps[0..3].to_vec());
    assert_eq!(result.alternatives.len(), 2);
}
