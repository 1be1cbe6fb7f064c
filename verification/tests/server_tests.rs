use sinp::client::{ClientStateMachine, NextAction};
use sinp::config::ServerConfig;
use sinp::confidence::Thresholds;
use sinp::json::JsonValue;
use sinp::message::{
    Action, AuthMethod, Capability, Context, ContextType, Interpretation, Request, Responder,
    Response, Sender,
};
use sinp::registry::CapabilityRegistry;
use sinp::server::{attach_result, create_error_response, ServerReply, ServerStateMachine};
use sinp::state::{ClientState, ServerState};

const NOW_MS: i64 = 1_700_000_000_000;

fn sample_request(intent: &str, confidence: u64) -> Request {
    let sender = Sender { id: "test".to_string(), auth_method: AuthMethod::Token };
    let ctx = Context {
        context_type: ContextType::Transcript,
        content: "test".to_string(),
        semantic_hash: "hash".to_string(),
    };
    let mut req = Request::new(sender, intent.to_string(), confidence, ctx);
    req.timestamp = NOW_MS;
    req
}

fn echo_capability() -> Capability {
    // Keywords: echo, message, hello, text, echo, v1 — six in all, so the
    // intent "echo hello world" scores 3/6 = 0.5.
    Capability {
        id: "echo:v1".to_string(),
        description: "echo message hello text".to_string(),
        inputs: vec![],
        privacy_level: "public".to_string(),
        cost_units: 100_000,
    }
}

#[test]
fn execute_path() {
    let mut registry = CapabilityRegistry::new();
    registry.register(echo_capability(), 950_000);

    // With default thresholds the composed confidence 0.5 * 0.95 = 0.475
    // falls short of 0.85: CLARIFY.
    let config = ServerConfig::default();
    let mut machine = ServerStateMachine::new(config);
    let req = sample_request("echo hello world", 900_000);
    match machine.process_request(&req, &registry, NOW_MS).unwrap() {
        ServerReply::Complete(resp) => {
            assert_eq!(resp.action, Action::Clarify);
            assert_eq!(resp.confidence, 475_000);
        }
        other => panic!("expected a complete CLARIFY reply, got {:?}", other),
    }

    // With operator thresholds of 0.20 the same request executes.
    let config = ServerConfig::default().with_thresholds(Thresholds::new(200_000, 100_000, 100_000));
    let mut machine = ServerStateMachine::new(config);
    let req = sample_request("echo hello world", 900_000);
    match machine.process_request(&req, &registry, NOW_MS).unwrap() {
        ServerReply::NeedsExecution { response, capability_id } => {
            assert_eq!(response.action, Action::Execute);
            assert_eq!(capability_id, "echo:v1");
            assert_eq!(machine.state(), ServerState::Done);
            // The handler runs outside the machine; attach its result.
            let result = JsonValue::Obj(vec![(
                "echo".to_string(),
                JsonValue::Str(req.intent.clone()),
            )]);
            let resp = attach_result(response, result);
            let metadata = resp.action_metadata.expect("result attached");
            match metadata.result.expect("result present") {
                JsonValue::Obj(pairs) => {
                    assert_eq!(pairs[0].0, "echo");
                    match &pairs[0].1 {
                        JsonValue::Str(echoed) => assert_eq!(echoed, "echo hello world"),
                        other => panic!("expected a string echo, got {:?}", other),
                    }
                }
                other => panic!("expected an object result, got {:?}", other),
            }
            assert!(metadata.questions.is_none());
            assert!(metadata.reason_code.is_none());
        }
        other => panic!("expected an execution demand, got {:?}", other),
    }
}

#[test]
fn clarify_path() {
    let mut registry = CapabilityRegistry::new();
    registry.register(echo_capability(), 950_000);
    let mut machine = ServerStateMachine::new(ServerConfig::default());

    // No capability keyword matches: raw confidence 0, no alternatives.
    let req = sample_request("do something", 500_000);
    match machine.process_request(&req, &registry, NOW_MS).unwrap() {
        ServerReply::Complete(resp) => {
            assert_eq!(resp.action, Action::Clarify);
            assert_eq!(resp.confidence, 0);
            let metadata = resp.action_metadata.expect("clarify carries questions");
            let questions = metadata.questions.expect("questions present");
            assert!(questions.len() >= 1);
            assert!(resp.alternatives.is_none());
            assert_eq!(machine.state(), ServerState::Negotiating);
        }
        other => panic!("expected a complete CLARIFY reply, got {:?}", other),
    }
}

#[test]
fn propose_path() {
    let mut registry = CapabilityRegistry::new();
    // Two capabilities with partial keyword overlap.  For the intent
    // "alpha beta gamma": the first scores 4/6, the second 3/6.
    registry.register(
        Capability {
            id: "alpha:v1".to_string(),
            description: "alpha beta gamma delta".to_string(),
            inputs: vec![],
            privacy_level: "public".to_string(),
            cost_units: 700_000,
        },
        600_000,
    );
    registry.register(
        Capability {
            id: "beta:v1".to_string(),
            description: "beta gamma epsilon zeta".to_string(),
            inputs: vec![],
            privacy_level: "public".to_string(),
            cost_units: 900_000,
        },
        600_000,
    );
    let mut machine = ServerStateMachine::new(ServerConfig::default());

    // Top composed confidence: (4/6) * 0.6 = 0.399999, below the execute
    // threshold, and the second capability scores 0.5, above the minimum.
    let req = sample_request("alpha beta gamma", 900_000);
    match machine.process_request(&req, &registry, NOW_MS).unwrap() {
        ServerReply::Complete(resp) => {
            assert_eq!(resp.action, Action::Propose);
            let alts = resp.alternatives.expect("propose carries alternatives");
            assert!(!alts.is_empty());
            assert_eq!(alts[0].capability_id, "beta:v1");
            assert_eq!(alts[0].confidence, 500_000);
            assert_eq!(alts[0].estimated_cost, Some(900_000));
            assert_eq!(machine.state(), ServerState::Negotiating);
        }
        other => panic!("expected a complete PROPOSE reply, got {:?}", other),
    }
}

#[test]
fn replay_rejection() {
    let mut registry = CapabilityRegistry::new();
    registry.register(echo_capability(), 950_000);
    let mut machine = ServerStateMachine::new(ServerConfig::default());

    // A request stamped ten seconds in the past is outside the 5 s window.
    let mut req = sample_request("echo hello world", 900_000);
    req.timestamp = NOW_MS - 10_000;
    let err = machine.process_request(&req, &registry, NOW_MS).unwrap_err();
    assert_eq!(machine.state(), ServerState::Failed);

    // The synthetic REFUSE response mentions the replay in its reason.
    let resp = create_error_response(&req, &err);
    assert_eq!(resp.action, Action::Refuse);
    assert_eq!(resp.in_response_to, req.message_id);
    let metadata = resp.action_metadata.expect("refusal metadata");
    assert_eq!(metadata.reason_code, Some(sinp::error::RefusalCode::MalformedContext));
    assert!(metadata.reason.unwrap().contains("replay"));
}

#[test]
fn one_request_per_conversation_round() {
    let mut registry = CapabilityRegistry::new();
    registry.register(echo_capability(), 950_000);
    let mut machine = ServerStateMachine::new(ServerConfig::default());

    // A CLARIFY leaves the machine negotiating; feeding another request
    // without the client's negotiation answer is a protocol error, and the
    // state is unchanged.
    let req = sample_request("echo hello world", 900_000);
    machine.process_request(&req, &registry, NOW_MS).unwrap();
    assert_eq!(machine.state(), ServerState::Negotiating);
    let req2 = sample_request("echo hello world", 900_000);
    assert!(machine.process_request(&req2, &registry, NOW_MS).is_err());
    assert_eq!(machine.state(), ServerState::Negotiating);

    // After a reset the machine serves a new conversation.
    machine.reset();
    assert_eq!(machine.state(), ServerState::Received);
    assert!(machine.process_request(&req2, &registry, NOW_MS).is_ok());
}

#[test]
fn register_and_execute() {
    let mut registry = CapabilityRegistry::new();
    registry.register(
        Capability {
            id: "test:v1".to_string(),
            description: "Test capability".to_string(),
            inputs: vec!["input1".to_string()],
            privacy_level: "public".to_string(),
            cost_units: 1_000_000,
        },
        900_000,
    );

    assert_eq!(registry.capability_ids(), vec!["test:v1"]);
    assert_eq!(registry.get_reliability("test:v1"), 900_000);
    assert_eq!(registry.get_reliability("missing:v1"), 0);

    // Re-registering an id replaces the entry.
    registry.register(
        Capability {
            id: "test:v1".to_string(),
            description: "Replacement".to_string(),
            inputs: vec![],
            privacy_level: "public".to_string(),
            cost_units: 2_000_000,
        },
        500_000,
    );
    assert_eq!(registry.capability_ids(), vec!["test:v1"]);
    assert_eq!(registry.get_reliability("test:v1"), 500_000);

    // Reliabilities are clamped into the unit interval.
    registry.register(echo_capability(), 9_000_000);
    assert_eq!(registry.get_reliability("echo:v1"), 1_000_000);
}

fn sample_response(action: Action) -> Response {
    let req = sample_request("test intent", 900_000);
    let responder = Responder { id: "srv".to_string(), capabilities: vec![] };
    let interpretation = Interpretation { text: "test".to_string(), confidence: 900_000 };
    Response::to_request(&req, responder, interpretation, action, 900_000)
}

#[test]
fn execute_flow() {
    let mut sm = ClientStateMachine::new();
    assert_eq!(sm.state(), ClientState::Init);

    let req = sample_request("test intent", 900_000);
    sm.on_request_sent(&req).unwrap();
    assert_eq!(sm.state(), ClientState::Pending);

    let resp = sample_response(Action::Execute);
    let next = sm.on_response_received(resp).unwrap();
    assert!(matches!(next, NextAction::Done(_)));
    assert_eq!(sm.state(), ClientState::Satisfied);
}

#[test]
fn clarify_flow() {
    let mut sm = ClientStateMachine::new();
    let req = sample_request("test intent", 900_000);
    sm.on_request_sent(&req).unwrap();

    let resp = sample_response(Action::Clarify);
    let next = sm.on_response_received(resp).unwrap();
    assert!(matches!(next, NextAction::Clarify { .. }));
    assert_eq!(sm.state(), ClientState::Refining);

    sm.on_clarification_provided().unwrap();
    assert_eq!(sm.state(), ClientState::Pending);
}

#[test]
fn refuse_flow_fails_client() {
    let mut sm = ClientStateMachine::new();
    let req = sample_request("test intent", 900_000);
    sm.on_request_sent(&req).unwrap();

    let resp = sample_response(Action::Refuse);
    let next = sm.on_response_received(resp).unwrap();
    assert!(matches!(next, NextAction::Refused { .. }));
    assert_eq!(sm.state(), ClientState::Failed);
    // Terminal: another response is a protocol error.
    let resp2 = sample_response(Action::Execute);
    assert!(sm.on_response_received(resp2).is_err());
}
