use sinp::json::JsonValue;
use sinp::jsonparse::parse_json;
use sinp::jsonser::canonicalize_json;
use sinp::message::{
    Action, ActionMetadata, AuthMethod, Context, ContextType, Interpretation, Request, Responder,
    Response, Sender,
};
use sinp::msgcodec::{
    format_uuid, parse_request, parse_response, parse_uuid, serialize_request, serialize_response,
};

fn sample_sender() -> Sender {
    Sender { id: "client_1".to_string(), auth_method: AuthMethod::Token }
}

fn sample_context() -> Context {
    Context {
        context_type: ContextType::Transcript,
        content: "User asked for weather".to_string(),
        semantic_hash: "abc123".to_string(),
    }
}

#[test]
fn request_serialization() {
    let req = Request::new(sample_sender(), "Get the weather".to_string(), 850_000, sample_context());

    let json = serialize_request(&req);
    assert!(json.contains("\"protocol_version\":\"0.1\""));
    assert!(json.contains("\"intent\":\"Get the weather\""));
    assert!(json.contains("\"confidence\":0.85"));

    let parsed: Request = parse_request(&json).unwrap();
    assert_eq!(parsed.intent, req.intent);
    assert_eq!(parsed.confidence, req.confidence);
}

#[test]
fn action_serialization() {
    assert_eq!(Action::Execute.action_str(), "EXECUTE");
    assert_eq!(Action::Clarify.action_str(), "CLARIFY");
    assert_eq!(Action::Propose.action_str(), "PROPOSE");
    assert_eq!(Action::Refuse.action_str(), "REFUSE");
}

#[test]
fn response_creation() {
    let req = Request::new(sample_sender(), "Book a flight".to_string(), 900_000, sample_context());
    let responder =
        Responder { id: "srv_1".to_string(), capabilities: vec!["flight_booking:v1".to_string()] };
    let interpretation =
        Interpretation { text: "Booking a flight to destination".to_string(), confidence: 920_000 };

    let resp = Response::to_request(&req, responder, interpretation, Action::Execute, 900_000);

    assert_eq!(resp.in_response_to, req.message_id);
    assert_eq!(resp.conversation_id, req.conversation_id);
    assert_eq!(resp.action, Action::Execute);
}

#[test]
fn request_round_trip() {
    let mut req =
        Request::new(sample_sender(), "echo hello world".to_string(), 900_000, sample_context());
    req.signature = Some("c2lnbmF0dXJl".to_string());
    req.in_response_to = Some(0x1234_5678_9abc_def0_1234_5678_9abc_def0);

    let text = serialize_request(&req);
    let parsed = parse_request(&text).expect("round trip parses");
    assert_eq!(parsed, req);
    // Serializing again gives the same canonical text.
    assert_eq!(serialize_request(&parsed), text);
}

#[test]
fn response_round_trip() {
    let req = Request::new(sample_sender(), "echo".to_string(), 900_000, sample_context());
    let responder = Responder { id: "sinp-server".to_string(), capabilities: vec!["echo:v1".to_string()] };
    let interpretation = Interpretation { text: "Echoing".to_string(), confidence: 475_000 };
    let mut resp = Response::to_request(&req, responder, interpretation, Action::Execute, 475_000);
    resp.action_metadata = Some(ActionMetadata {
        result: Some(JsonValue::Obj(vec![(
            "echo".to_string(),
            JsonValue::Str("echo hello world".to_string()),
        )])),
        questions: None,
        reason_code: None,
        reason: None,
    });

    let text = serialize_response(&resp);
    let parsed = parse_response(&text).expect("round trip parses");
    assert_eq!(serialize_response(&parsed), text);
    assert_eq!(parsed.action, Action::Execute);
    assert_eq!(parsed.in_response_to, resp.in_response_to);
}

#[test]
fn canonicalization_idempotent() {
    let doc = JsonValue::Obj(vec![
        ("zeta".to_string(), JsonValue::Bool(true)),
        (
            "alpha".to_string(),
            JsonValue::Obj(vec![
                ("y".to_string(), JsonValue::Null),
                ("x".to_string(), JsonValue::Num(-1_500_000)),
            ]),
        ),
        ("mid".to_string(), JsonValue::Arr(vec![JsonValue::Str("a\"b\\c\n".to_string())])),
    ]);
    let canon = canonicalize_json(&doc);
    let reparsed = parse_json(&canon).expect("canonical text parses");
    assert_eq!(canonicalize_json(&reparsed), canon);
    assert_eq!(
        canon,
        "{\"alpha\":{\"x\":-1.5,\"y\":null},\"mid\":[\"a\\\"b\\\\c\\n\"],\"zeta\":true}"
    );
}

#[test]
fn number_rendering_is_shortest() {
    assert_eq!(canonicalize_json(&JsonValue::Num(0)), "0");
    assert_eq!(canonicalize_json(&JsonValue::Num(475_000)), "0.475");
    assert_eq!(canonicalize_json(&JsonValue::Num(1_000_000)), "1");
    assert_eq!(canonicalize_json(&JsonValue::Num(-2_030_000)), "-2.03");
    assert_eq!(canonicalize_json(&JsonValue::Num(1)), "0.000001");
}

#[test]
fn uuid_round_trip() {
    let u: u128 = 0x550e8400_e29b_41d4_a716_446655440000;
    let text = format_uuid(u);
    assert_eq!(text, "550e8400-e29b-41d4-a716-446655440000");
    assert_eq!(parse_uuid(&text), Some(u));
    assert_eq!(parse_uuid("not-a-uuid"), None);
}

#[test]
fn frame_size_boundary() {
    let payload = vec![0u8; 16];
    // Exactly at the bound: accepted.
    let framed = sinp::frame::encode_frame(&payload, 16).expect("fits");
    assert_eq!(framed.len(), 20);
    assert_eq!(&framed[0..4], &[0, 0, 0, 16]);
    // One byte over: rejected.
    assert!(sinp::frame::encode_frame(&payload, 15).is_none());
    // Decoding checks the same bound.
    assert_eq!(sinp::frame::decode_frame_len(0, 0, 0, 16, 16), Some(16));
    assert_eq!(sinp::frame::decode_frame_len(0, 0, 0, 16, 15), None);
}

#[test]
fn parser_accepts_whitespace_and_rejects_garbage() {
    let doc = parse_json(" { \"a\" : [ 1 , true , null ] } ").expect("whitespace tolerated");
    assert_eq!(canonicalize_json(&doc), "{\"a\":[1,true,null]}");
    // Trailing garbage, exponents and deep escapes are rejected.
    assert!(parse_json("{} extra").is_none());
    assert!(parse_json("1e6").is_none());
    assert!(parse_json("\"\\u0041\"").is_none());
    assert!(parse_json("0.1234567").is_none());
    // Control escapes round-trip through the canonical form.
    let text = canonicalize_json(&JsonValue::Str("a\u{1}b".to_string()));
    assert_eq!(text, "\"a\\u0001b\"");
    let back = parse_json(&text).expect("control escape parses");
    assert_eq!(canonicalize_json(&back), text);
}

#[test]
fn constraints_round_trip() {
    let mut req = Request::new(sample_sender(), "echo".to_string(), 900_000, sample_context());
    req.constraints = Some(sinp::message::Constraints {
        max_cost: Some(2_500_000),
        privacy: Some("strict".to_string()),
        timeout_ms: Some(1500),
    });
    let text = serialize_request(&req);
    assert!(text.contains("\"max_cost\":2.5"));
    assert!(text.contains("\"timeout_ms\":1500"));
    let parsed = parse_request(&text).expect("parses");
    assert_eq!(parsed, req);
}

#[test]
fn parser_rejects_out_of_range_fields() {
    let req = Request::new(sample_sender(), "echo".to_string(), 900_000, sample_context());
    let text = serialize_request(&req);
    // A confidence above the unit interval is rejected.
    let broken = text.replace("\"confidence\":0.9", "\"confidence\":7");
    assert!(parse_request(&broken).is_none());
    // An unknown field is rejected on the strict server side.
    let extra = text.replacen("{", "{\"surprise\":1,", 1);
    assert!(parse_request(&extra).is_none());
}
